use rvim::buffer::Mode;
use rvim::common::{preview_lines, split_text, Rect};
use rvim::config::{config_path, Config};
use rvim::terminal::{goto_sequence, Color, Surface, Window};

#[test]
fn colour_codes() {
    let all = [
        (Color::Black, 30),
        (Color::Red, 31),
        (Color::Green, 32),
        (Color::Yellow, 33),
        (Color::Blue, 34),
        (Color::Magenta, 35),
        (Color::Cyan, 36),
        (Color::White, 37),
        (Color::Gray, 90),
        (Color::BrightMagenta, 95),
    ];
    for (color, code) in all {
        assert_eq!(color.fg_code(), code);
        assert_eq!(color.bg_code(), code + 10);
    }
}

#[test]
fn colours_and_names_of_the_modes() {
    assert_eq!(Mode::Normal.get_colors(), (Color::Magenta, Color::Red));
    assert_eq!(Mode::Insert.get_colors(), (Color::Blue, Color::Cyan));
    assert_eq!(Mode::Visual.get_colors(), (Color::Yellow, Color::White));
    assert_eq!(Mode::VisualLine.get_colors(), (Color::Yellow, Color::White));
    assert_eq!(Mode::Normal.to_string(), "Normal");
    assert_eq!(Mode::Insert.to_string(), "Insert");
    assert_eq!(Mode::Visual.to_string(), "Visual");
    assert_eq!(Mode::VisualLine.to_string(), "Visual-Line");
}

#[test]
fn rectangles() {
    let rect = Rect { top: 2, left: 3, bottom: 5, right: 10 };
    assert!(rect.wf());
    assert_eq!(rect.height(), 4);
    assert_eq!(rect.width(), 8);
    assert_eq!(rect.size(), (4, 8));
    assert!(rect.contains((2, 3)));
    assert!(rect.contains((5, 10)));
    assert!(!rect.contains((1, 3)));
    assert!(!rect.contains((6, 3)));
    assert!(!rect.contains((2, 2)));
    assert!(!rect.contains((2, 11)));
    assert_eq!(rect.to_relative((4, 7)), (2, 4));
    assert_eq!(rect.from_relative((2, 4)), (4, 7));
    assert!(!Rect { top: 2, left: 3, bottom: 1, right: 10 }.wf());
    assert!(!Rect { top: 0, left: 0, bottom: usize::MAX, right: 0 }.wf());
    assert_eq!(Rect { top: 7, left: 7, bottom: 7, right: 7 }.size(), (1, 1));
}

#[test]
fn escape_sequences() {
    let window = Window { rect: Rect { top: 1, left: 40, bottom: 20, right: 80 } };
    assert_eq!(window.rows(), 20);
    assert_eq!(window.cols(), 41);
    assert_eq!(window.goto(1, 1), "\x1b[1;40H");
    assert_eq!(window.goto(12, 7), "\x1b[12;46H");
    assert_eq!(goto_sequence(3, 104), "\x1b[3;104H");
    assert_eq!(goto_sequence(0, 0), "\x1b[0;0H");
    assert_eq!(window.set_color(Color::Black, Color::Gray), "\x1b[30;100m");
    assert_eq!(window.set_fg_color(Color::Cyan), "\x1b[36m");
    assert_eq!(window.set_bg_color(Color::Cyan), "\x1b[46m");
    assert_eq!(window.reset_colors(), "\x1b[39;49m");
    assert_eq!(window.bar(true), "\x1b[5 q");
    assert_eq!(window.bar(false), "\x1b[1 q");
}

#[test]
fn previews() {
    assert_eq!(preview_lines(&split_text("abc"), 10), "abc");
    assert_eq!(preview_lines(&split_text("abc\ndef"), 10), "abc|def");
    assert_eq!(preview_lines(&split_text("abc\ndef"), 7), "abc|...");
    assert_eq!(preview_lines(&split_text("abc\ndef"), 8), "abc|def");
    assert_eq!(preview_lines(&split_text("abcdefghij"), 6), "abc...");
    assert_eq!(preview_lines(&split_text("abc"), 3), "...");
    assert_eq!(preview_lines(&split_text("ab\ncd\nef"), 4), "a...");
    assert_eq!(preview_lines(&Vec::new(), 5), "");
    assert_eq!(preview_lines(&split_text(""), 5), "");
    assert_eq!(preview_lines(&split_text("äö\nü"), 8), "äö|ü");
    assert_eq!(preview_lines(&split_text("äö\nü"), 7), "äö...");
    assert_eq!(preview_lines(&split_text("äöü"), 5), "ä...");
}

#[test]
fn configuration() {
    assert_eq!(
        Config::default(),
        Config {
            logging: true,
            relative_number: false,
            wrap: false,
            tab_width: 4,
            undofile: false,
            clipboard: false,
        }
    );
    assert_eq!(
        config_path(Some("/x".to_string()), Some("/home/u".to_string())),
        Some("/x/rvim/config.toml".to_string())
    );
    assert_eq!(
        config_path(None, Some("/home/u".to_string())),
        Some("/home/u/.config/rvim/config.toml".to_string())
    );
    assert_eq!(config_path(None, None), None);
}
