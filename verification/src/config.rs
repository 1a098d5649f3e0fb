use vstd::prelude::*;
use vstd::string::StringExecFns;

verus! {

/// What the user has chosen for the editor.
#[allow(dead_code)]
#[derive(Debug, Clone, Copy, PartialEq, Eq, Structural)]
pub struct Config {
    pub logging: bool,
    pub relative_number: bool,
    pub wrap: bool,
    pub tab_width: u8,
    pub undofile: bool,
    pub clipboard: bool,
}

impl Default for Config {
    /// What holds where the user has chosen nothing.
    fn default() -> (config: Self)
        ensures
            config == (Config {
                logging: true,
                relative_number: false,
                wrap: false,
                tab_width: 4,
                undofile: false,
                clipboard: false,
            }),
    {
        Config {
            logging: true,
            relative_number: false,
            wrap: false,
            tab_width: 4,
            undofile: false,
            clipboard: false,
        }
    }
}

/// Where the file with the choices of the user lies: below the directory for
/// configuration files, `xdg_config_home`, where there is one, else below
/// `.config` in the home directory, `home`, where there is one.
pub open spec fn config_file(
    xdg_config_home: Option<Seq<char>>,
    home: Option<Seq<char>>,
) -> Option<Seq<char>> {
    match xdg_config_home {
        Some(dir) => Some(dir + "/rvim/config.toml"@),
        None => match home {
            Some(dir) => Some(dir + "/.config/rvim/config.toml"@),
            None => None,
        },
    }
}

/// Where the file with the choices of the user lies.
pub fn config_path(xdg_config_home: Option<String>, home: Option<String>) -> (path: Option<String>)
    ensures
        match path {
            Some(p) => Some(p@),
            None => None,
        } == config_file(
            match xdg_config_home {
                Some(dir) => Some(dir@),
                None => None,
            },
            match home {
                Some(dir) => Some(dir@),
                None => None,
            },
        ),
{
    match xdg_config_home {
        Some(dir) => Some(dir.concat("/rvim/config.toml")),
        None => match home {
            Some(dir) => Some(dir.concat("/.config/rvim/config.toml")),
            None => None,
        },
    }
}

} // verus!
