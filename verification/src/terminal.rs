use crate::common::{push_decimal, decimal, Rect};
use vstd::prelude::*;

verus! {

/// The colours that the editor draws in.
#[allow(dead_code)]
#[derive(Debug, Clone, Copy, PartialEq, Eq, Structural)]
pub enum Color {
    Black,
    Red,
    Green,
    Yellow,
    Blue,
    Magenta,
    Cyan,
    White,
    Gray,
    BrightMagenta,
}

impl Color {
    /// The number that selects the colour as a foreground colour in an escape
    /// sequence.
    pub open spec fn fg(self) -> u8 {
        match self {
            Color::Black => 30,
            Color::Red => 31,
            Color::Green => 32,
            Color::Yellow => 33,
            Color::Blue => 34,
            Color::Magenta => 35,
            Color::Cyan => 36,
            Color::White => 37,
            Color::Gray => 90,
            Color::BrightMagenta => 95,
        }
    }

    /// The number that selects the colour as a background colour: ten more than
    /// for the foreground.
    pub open spec fn bg(self) -> u8 {
        (self.fg() + 10) as u8
    }

    /// The number that selects the colour as a foreground colour.
    pub fn fg_code(self) -> (code: u8)
        ensures
            code == self.fg(),
    {
        match self {
            Color::Black => 30,
            Color::Red => 31,
            Color::Green => 32,
            Color::Yellow => 33,
            Color::Blue => 34,
            Color::Magenta => 35,
            Color::Cyan => 36,
            Color::White => 37,
            Color::Gray => 90,
            Color::BrightMagenta => 95,
        }
    }

    /// The number that selects the colour as a background colour.
    pub fn bg_code(self) -> (code: u8)
        ensures
            code == self.bg(),
            code == self.fg() + 10,
    {
        self.fg_code() + 10
    }
}

/// What every escape sequence begins with: the escape character and `[`.
pub open spec fn escape() -> Seq<char> {
    seq!['\x1b', '[']
}

/// The escape sequence that moves the cursor of the terminal to `row` and `col`.
pub open spec fn goto_code(row: nat, col: nat) -> Seq<char> {
    escape() + decimal(row) + seq![';'] + decimal(col) + seq!['H']
}

/// The escape sequence that selects `fg` as foreground and `bg` as background.
pub open spec fn color_code(fg: Color, bg: Color) -> Seq<char> {
    escape() + decimal(fg.fg() as nat) + seq![';'] + decimal(bg.bg() as nat) + seq!['m']
}

/// The escape sequence that selects the colour with the number `code`.
pub open spec fn one_color_code(code: u8) -> Seq<char> {
    escape() + decimal(code as nat) + seq!['m']
}

/// The escape sequence that selects the colours that the terminal began with.
pub open spec fn reset_code() -> Seq<char> {
    escape() + seq!['3', '9', ';', '4', '9', 'm']
}

/// The escape sequence that selects the shape of the cursor: a bar where
/// `enabled`, a block where not.
pub open spec fn bar_code(enabled: bool) -> Seq<char> {
    escape() + seq![if enabled { '5' } else { '1' }, ' ', 'q']
}

/// A new string that holds the beginning of an escape sequence.
pub fn begin_escape() -> (s: String)
    ensures
        s@ == escape(),
{
    let mut s = String::new();
    s.push('\x1b');
    s.push('[');
    assert(s@ =~= escape());
    s
}

/// A part of the screen that can be drawn on, `rows()` rows of `cols()` columns.
/// What is to be drawn is handed out as text for the terminal.
pub trait Surface {
    fn cols(&self) -> usize;

    fn rows(&self) -> usize;

    /// Where `row` and `col` of the surface lie on the screen. Both count from 1.
    spec fn on_screen(&self, row: usize, col: usize) -> (int, int);

    /// The escape sequence that moves the cursor to `row` and `col` of the
    /// surface.
    fn goto(&self, row: usize, col: usize) -> (code: String)
        requires
            0 <= self.on_screen(row, col).0 <= usize::MAX,
            0 <= self.on_screen(row, col).1 <= usize::MAX,
        ensures
            code@ == goto_code(
                self.on_screen(row, col).0 as nat,
                self.on_screen(row, col).1 as nat,
            ),
    ;

    /// The escape sequence that selects `fg` as foreground and `bg` as background.
    fn set_color(&self, fg: Color, bg: Color) -> (code: String)
        ensures
            code@ == color_code(fg, bg),
    {
        let mut code = begin_escape();
        push_decimal(&mut code, fg.fg_code() as usize);
        code.push(';');
        push_decimal(&mut code, bg.bg_code() as usize);
        code.push('m');
        assert(code@ =~= color_code(fg, bg));
        code
    }

    /// The escape sequence that selects `fg` as foreground.
    fn set_fg_color(&self, fg: Color) -> (code: String)
        ensures
            code@ == one_color_code(fg.fg()),
    {
        let mut code = begin_escape();
        push_decimal(&mut code, fg.fg_code() as usize);
        code.push('m');
        assert(code@ =~= one_color_code(fg.fg()));
        code
    }

    /// The escape sequence that selects `bg` as background.
    fn set_bg_color(&self, bg: Color) -> (code: String)
        ensures
            code@ == one_color_code(bg.bg()),
    {
        let mut code = begin_escape();
        push_decimal(&mut code, bg.bg_code() as usize);
        code.push('m');
        assert(code@ =~= one_color_code(bg.bg()));
        code
    }

    /// The escape sequence that selects the colours that the terminal began with.
    fn reset_colors(&self) -> (code: String)
        ensures
            code@ == reset_code(),
    {
        let mut code = begin_escape();
        code.push('3');
        code.push('9');
        code.push(';');
        code.push('4');
        code.push('9');
        code.push('m');
        assert(code@ =~= reset_code());
        code
    }

    /// The escape sequence that selects the shape of the cursor.
    fn bar(&self, enabled: bool) -> (code: String)
        ensures
            code@ == bar_code(enabled),
    {
        let mut code = begin_escape();
        if enabled {
            code.push('5');
        } else {
            code.push('1');
        }
        code.push(' ');
        code.push('q');
        assert(code@ =~= bar_code(enabled));
        code
    }
}

/// The escape sequence that moves the cursor of the terminal to `row` and `col`.
pub fn goto_sequence(row: usize, col: usize) -> (code: String)
    ensures
        code@ == goto_code(row as nat, col as nat),
{
    let mut code = begin_escape();
    push_decimal(&mut code, row);
    code.push(';');
    push_decimal(&mut code, col);
    code.push('H');
    assert(code@ =~= goto_code(row as nat, col as nat));
    code
}

/// A rectangle of the screen as a surface of its own.
pub struct Window {
    pub rect: Rect,
}

impl Surface for Window {
    /// As many columns as the rectangle has; none where it has neither a row nor
    /// a column.
    fn cols(&self) -> (cols: usize)
        ensures
            cols == if self.rect.spec_wf() {
                self.rect.right - self.rect.left + 1
            } else {
                0
            },
    {
        if self.rect.wf() {
            self.rect.width()
        } else {
            0
        }
    }

    /// As many rows as the rectangle has; none where it has neither a row nor a
    /// column.
    fn rows(&self) -> (rows: usize)
        ensures
            rows == if self.rect.spec_wf() {
                self.rect.bottom - self.rect.top + 1
            } else {
                0
            },
    {
        if self.rect.wf() {
            self.rect.height()
        } else {
            0
        }
    }

    /// Row 1 and column 1 of the window are its top left corner.
    open spec fn on_screen(&self, row: usize, col: usize) -> (int, int) {
        (row + self.rect.top - 1, col + self.rect.left - 1)
    }

    fn goto(&self, row: usize, col: usize) -> (code: String) {
        goto_sequence(shifted(row, self.rect.top), shifted(col, self.rect.left))
    }
}

/// Place `at` of a range that begins at `origin`, both counted from 1.
pub fn shifted(at: usize, origin: usize) -> (place: usize)
    requires
        0 <= at + origin - 1 <= usize::MAX,
    ensures
        place == at + origin - 1,
{
    if origin >= 1 {
        at + (origin - 1)
    } else {
        at - 1
    }
}

} // verus!
