use crate::action::at;
use crate::browse::{lemma_rows_rooted, rooted, row_views, HistoryRow, RowView};
use crate::buffer::{Buffer, BufferView, Mode};
use crate::common::{
    decimal, lemma_line_deep_view, preview, previewable, push_decimal, split, split_text,
    try_preview_lines, Coord, Rect,
};
use crate::motion::smaller;
use crate::select::selected_bounds;
use crate::undo::{starts_with, History, HistoryView};
use crate::terminal::{
    bar_code, begin_escape, color_code, escape, goto_code, one_color_code, reset_code, Color,
    Surface, Window,
};
use vstd::prelude::*;
use vstd::string::StringExecFns;

verus! {

/// `n` blanks.
pub open spec fn blanks(n: int) -> Seq<char> {
    Seq::new(
        if n > 0 {
            n as nat
        } else {
            0
        },
        |i: int| ' ',
    )
}

/// Appends `n` blanks to `out`.
pub fn push_blanks(out: &mut String, n: usize)
    ensures
        final(out)@ == old(out)@ + blanks(n as int),
{
    let mut i: usize = 0;
    assert(out@ =~= old(out)@ + blanks(0));
    while i < n
        invariant
            i <= n,
            out@ == old(out)@ + blanks(i as int),
        decreases n - i,
    {
        out.push(' ');
        assert(out@ =~= old(out)@ + blanks(i + 1));
        i += 1;
    }
}

/// Appends `more` to `out`.
pub fn push_text(out: &mut String, more: String)
    ensures
        final(out)@ == old(out)@ + more@,
{
    out.append(more.as_str());
}

/// Row `row` and column `col` of the window `rect` are a place on the screen that
/// an escape sequence can name.
pub open spec fn reachable(rect: Rect, row: int, col: int) -> bool {
    &&& 0 <= row + rect.top - 1 <= usize::MAX
    &&& 0 <= col + rect.left - 1 <= usize::MAX
}

/// The escape sequence that moves the cursor of the terminal to row `row` and
/// column `col` of the window `rect`.
pub open spec fn goto_text(rect: Rect, row: int, col: int) -> Seq<char> {
    goto_code((row + rect.top - 1) as nat, (col + rect.left - 1) as nat)
}

/// Whether row `row` and column `col` of `surf` are a place on the screen that an
/// escape sequence can name.
pub fn can_reach(surf: &Window, row: usize, col: usize) -> (ok: bool)
    ensures
        ok == reachable(surf.rect, row as int, col as int),
{
    let rect = &surf.rect;
    (row >= 1 || rect.top >= 1) && (rect.top == 0 || row <= usize::MAX - (rect.top - 1)) && (col
        >= 1 || rect.left >= 1) && (rect.left == 0 || col <= usize::MAX - (rect.left - 1))
}

/// Appends to `out` the escape sequence that moves the cursor of the terminal to
/// row `row` and column `col` of `surf`.
pub fn push_goto(out: &mut String, surf: &Window, row: usize, col: usize)
    requires
        reachable(surf.rect, row as int, col as int),
    ensures
        final(out)@ == old(out)@ + goto_text(surf.rect, row as int, col as int),
{
    push_text(out, surf.goto(row, col));
}

/// How many columns the rectangle `bx` has: none where its right edge lies left of
/// its left edge.
pub open spec fn columns(bx: Rect) -> int {
    if bx.left <= bx.right {
        bx.right - bx.left + 1
    } else {
        0
    }
}

/// The text that fills the rows of `bx` from its top down to row `upto` of the
/// window `rect` with blanks.
pub open spec fn rows_filled(rect: Rect, bx: Rect, upto: int) -> Seq<char>
    decreases upto - bx.top + 1,
{
    if upto < bx.top {
        Seq::empty()
    } else {
        rows_filled(rect, bx, upto - 1) + goto_text(rect, upto, bx.left as int) + blanks(
            columns(bx),
        )
    }
}

/// The text that fills the rectangle `bx` of the window `rect` with `color`.
pub open spec fn filled(rect: Rect, bx: Rect, color: Color) -> Seq<char> {
    one_color_code(color.bg()) + rows_filled(rect, bx, bx.bottom as int) + reset_code()
}

/// The rectangle `bx` of the window `rect` can be filled: its rows are places on
/// the screen, and the count of its columns is a number that a `usize` can hold.
pub open spec fn fillable(rect: Rect, bx: Rect) -> bool {
    &&& columns(bx) <= usize::MAX
    &&& bx.top <= bx.bottom ==> reachable(rect, bx.top as int, bx.left as int) && reachable(
        rect,
        bx.bottom as int,
        bx.left as int,
    )
}

/// Whether the rectangle `bx` of `surf` can be filled.
pub fn can_fill(bx: &Rect, surf: &Window) -> (ok: bool)
    ensures
        ok == fillable(surf.rect, *bx),
{
    if bx.left <= bx.right && bx.right - bx.left == usize::MAX {
        return false;
    }
    if bx.top <= bx.bottom {
        can_reach(surf, bx.top, bx.left) && can_reach(surf, bx.bottom, bx.left)
    } else {
        true
    }
}

/// The text that fills the rectangle `bx` of `surf` with `color`.
pub fn draw_fill(bx: &Rect, color: Color, surf: &Window) -> (text: String)
    requires
        fillable(surf.rect, *bx),
    ensures
        text@ == filled(surf.rect, *bx, color),
{
    let mut text = surf.set_bg_color(color);
    let width = if bx.left <= bx.right {
        bx.right - bx.left + 1
    } else {
        0
    };
    if bx.top <= bx.bottom {
        let mut row = bx.top;
        loop
            invariant_except_break
                text@ == one_color_code(color.bg()) + rows_filled(surf.rect, *bx, row - 1),
            invariant
                bx.top <= row <= bx.bottom,
                fillable(surf.rect, *bx),
                width == columns(*bx),
            ensures
                text@ == one_color_code(color.bg()) + rows_filled(
                    surf.rect,
                    *bx,
                    bx.bottom as int,
                ),
            decreases bx.bottom - row,
        {
            push_goto(&mut text, surf, row, bx.left);
            push_blanks(&mut text, width);
            assert(text@ =~= one_color_code(color.bg()) + rows_filled(surf.rect, *bx, row as int));
            if row == bx.bottom {
                break ;
            }
            row += 1;
        }
    }
    push_text(&mut text, surf.reset_colors());
    text
}

/// The place of the cursor as the status line shows it: a blank, the row, a colon,
/// the column, and a blank.
pub open spec fn place_label(cursor: (int, int)) -> Seq<char> {
    seq![' '] + decimal(cursor.0 as nat) + seq![':'] + decimal(cursor.1 as nat) + seq![' ']
}

impl BufferView {
    /// The text that draws the status line in the last row but one of the window
    /// `rect`: a gray bar with the name of the mode in the colours of the mode at
    /// its left end, and the place of the cursor at its right end.
    pub open spec fn status_text(self, rect: Rect) -> Seq<char> {
        let rows = rect.bottom - rect.top + 1;
        let cols = rect.right - rect.left + 1;
        let (pri, sec) = self.mode.colors();
        let place = place_label(self.cursor);
        goto_text(rect, rows - 1, 1) + one_color_code(Color::Gray.bg()) + blanks(cols) + goto_text(
            rect,
            rows - 1,
            1,
        ) + color_code(Color::Black, pri) + seq![' '] + self.mode.name() + seq![' '] + color_code(
            pri,
            sec,
        ) + color_code(sec, Color::Gray) + color_code(Color::Black, pri) + goto_text(
            rect,
            rows - 1,
            cols - place.len() + 1,
        ) + place
    }

    /// The status line can be drawn in the window `rect`: the window has a row
    /// for it and columns enough for the place of the cursor.
    pub open spec fn has_status(self, rect: Rect) -> bool {
        let rows = rect.bottom - rect.top + 1;
        let cols = rect.right - rect.left + 1;
        &&& rect.spec_wf()
        &&& reachable(rect, rows - 1, 1)
        &&& place_label(self.cursor).len() <= cols + 1
        &&& reachable(rect, rows - 1, cols - place_label(self.cursor).len() + 1)
    }

    /// The text that puts the cursor of the terminal where the cursor of the
    /// buffer is shown in the window `rect`, behind the line numbers, and gives it
    /// its shape: a bar in the insert mode, a block in the other modes.
    pub open spec fn cursor_text(self, rect: Rect) -> Seq<char> {
        goto_text(
            rect,
            self.cursor.0 - self.scroll.0 + 1,
            self.cursor.1 + 7 - self.scroll.1,
        ) + bar_code(self.mode == Mode::Insert)
    }

    /// The cursor is shown in the window `rect`: it lies neither above nor left of
    /// what the window shows, at a place on the screen.
    pub open spec fn has_cursor(self, rect: Rect) -> bool {
        &&& self.scroll.0 <= self.cursor.0
        &&& self.cursor.0 - self.scroll.0 + 1 <= usize::MAX
        &&& self.scroll.1 <= self.cursor.1 + 7 <= usize::MAX
        &&& reachable(rect, self.cursor.0 - self.scroll.0 + 1, self.cursor.1 + 7 - self.scroll.1)
    }
}

/// The place of the cursor as the status line shows it.
pub fn place_text(cursor: Coord) -> (label: String)
    ensures
        label@ == place_label(at(cursor)),
{
    let mut label = String::new();
    label.push(' ');
    push_decimal(&mut label, cursor.0);
    label.push(':');
    push_decimal(&mut label, cursor.1);
    label.push(' ');
    assert(label@ =~= place_label(at(cursor)));
    label
}

/// Whether the status line can be drawn on `surf`.
pub fn can_draw_status(buf: &Buffer, surf: &Window) -> (ok: bool)
    ensures
        ok == buf@.has_status(surf.rect),
{
    if !surf.rect.wf() {
        return false;
    }
    let rows = surf.rect.height();
    let cols = surf.rect.width();
    let len = place_text(buf.cursor).as_str().unicode_len();
    if !can_reach(surf, rows - 1, 1) {
        return false;
    }
    if cols < usize::MAX && len > cols + 1 {
        return false;
    }
    if cols == usize::MAX && len > cols {
        assert(len <= cols + 1);
    }
    let col = if len <= cols {
        cols - len + 1
    } else {
        0
    };
    can_reach(surf, rows - 1, col)
}

/// The text that draws the status line on `surf`.
pub fn draw_status(buf: &Buffer, surf: &Window) -> (text: String)
    requires
        buf@.has_status(surf.rect),
    ensures
        text@ == buf@.status_text(surf.rect),
{
    let rows = surf.rect.height();
    let cols = surf.rect.width();
    let mut text = String::new();
    push_goto(&mut text, surf, rows - 1, 1);
    push_text(&mut text, surf.set_bg_color(Color::Gray));
    push_blanks(&mut text, cols);
    let (pri, sec) = buf.mode.get_colors();
    push_goto(&mut text, surf, rows - 1, 1);
    push_text(&mut text, surf.set_color(Color::Black, pri));
    text.push(' ');
    push_text(&mut text, buf.mode.to_string());
    text.push(' ');
    push_text(&mut text, surf.set_color(pri, sec));
    push_text(&mut text, surf.set_color(sec, Color::Gray));
    push_text(&mut text, surf.set_color(Color::Black, pri));
    let place = place_text(buf.cursor);
    let len = place.as_str().unicode_len();
    let col = if len <= cols {
        cols - len + 1
    } else {
        0
    };
    push_goto(&mut text, surf, rows - 1, col);
    push_text(&mut text, place);
    assert(text@ =~= buf@.status_text(surf.rect));
    text
}

/// Whether the cursor is shown on `surf`.
pub fn can_draw_cursor(buf: &Buffer, surf: &Window) -> (ok: bool)
    ensures
        ok == buf@.has_cursor(surf.rect),
{
    if buf.scroll.0 > buf.cursor.0 || buf.cursor.0 - buf.scroll.0 == usize::MAX {
        return false;
    }
    if buf.cursor.1 > usize::MAX - 7 || buf.scroll.1 > buf.cursor.1 + 7 {
        return false;
    }
    can_reach(surf, buf.cursor.0 - buf.scroll.0 + 1, buf.cursor.1 + 7 - buf.scroll.1)
}

/// The text that puts the cursor of the terminal where the cursor of the buffer is
/// shown on `surf`, and gives it its shape.
pub fn draw_cursor(buf: &Buffer, surf: &Window) -> (text: String)
    requires
        buf@.has_cursor(surf.rect),
    ensures
        text@ == buf@.cursor_text(surf.rect),
{
    let mut text = String::new();
    push_goto(&mut text, surf, buf.cursor.0 - buf.scroll.0 + 1, buf.cursor.1 + 7 - buf.scroll.1);
    push_text(&mut text, surf.bar(buf.mode == Mode::Insert));
    text
}

/// The glyphs before the label of a node that is drawn in column `column` of
/// `width`, counted from 0: a pointer in the column of the node and a line in each
/// of the others.
pub open spec fn node_gutter(column: int, width: int) -> Seq<char> {
    Seq::new(
        width as nat,
        |i: int|
            if i == column {
                '\u{25b6}'
            } else {
                '\u{2502}'
            },
    )
}

/// The glyphs of the row in which the branch in column `column` of `width` ends
/// and the branches to its right close up.
pub open spec fn join_gutter(column: int, width: int) -> Seq<char> {
    Seq::new(
        width as nat,
        |i: int|
            if i == column {
                '\u{1fba3}'
            } else if i == width - 1 {
                '\u{1fba0}'
            } else if i > column {
                '\u{1fba8}'
            } else {
                '\u{2502}'
            },
    )
}

/// The glyphs of the row in which a new branch leaves column `column` and becomes
/// the last of `width` columns.
pub open spec fn fork_gutter(column: int, width: int) -> Seq<char> {
    Seq::new(
        width as nat,
        |i: int|
            if i == width - 1 {
                '\u{1fba2}'
            } else if i > column {
                '\u{1fba9}'
            } else if i == column {
                '\u{251c}'
            } else {
                '\u{2502}'
            },
    )
}

impl HistoryView {
    /// Row `index` of the browser, counted from 0, is one that the window `rect`
    /// shows: it is neither scrolled away nor below the last row of the window.
    pub open spec fn row_in_view(self, rect: Rect, index: int) -> bool {
        self.scroll <= index + 1 < self.scroll + (rect.bottom - rect.top + 1)
    }

    /// The text that draws row `index` of the browser, counted from 0, in the
    /// window `rect`: the glyphs of the row and, for the row of a node, a preview
    /// of the label of its action, in cyan where the history is at that node.
    /// There is none where the window has no room for the preview, or where the
    /// row is at no place on the screen.
    pub open spec fn row_text(self, rect: Rect, index: int) -> Option<Seq<char>> {
        let place = goto_text(rect, index + 1 - self.scroll + 1, 1);
        if index + 1 - self.scroll + 1 > usize::MAX || !reachable(
            rect,
            index + 1 - self.scroll + 1,
            1,
        ) {
            None
        } else {
            match self.rows()[index] {
                RowView::Node { path, column, width } => {
                    let room = rect.right - rect.left + 1 - width - 1;
                    let label = split(self.root.at(path).action.label());
                    if room >= 0 && previewable(label, room) {
                        Some(
                            place + node_gutter(column, width) + if path == self.location {
                                one_color_code(Color::Cyan.fg())
                            } else {
                                Seq::empty()
                            } + seq![' '] + preview(label, room) + reset_code(),
                        )
                    } else {
                        None
                    }
                },
                RowView::Join { column, width } => Some(place + join_gutter(column, width)),
                RowView::Fork { column, width } => Some(place + fork_gutter(column, width)),
            }
        }
    }

    /// The text that draws the first `upto` rows of the browser, as far as the
    /// window `rect` shows them.
    pub open spec fn rows_text(self, rect: Rect, upto: int) -> Option<Seq<char>>
        decreases upto,
    {
        if upto <= 0 {
            Some(Seq::empty())
        } else {
            match self.rows_text(rect, upto - 1) {
                Some(before) => if self.row_in_view(rect, upto - 1) {
                    match self.row_text(rect, upto - 1) {
                        Some(row) => Some(before + row),
                        None => None,
                    }
                } else {
                    Some(before)
                },
                None => None,
            }
        }
    }

    /// The text that draws the browser of the tree in the window `rect`, from the
    /// row that the history is scrolled to. There is none where one of the rows
    /// cannot be drawn.
    pub open spec fn browser_text(self, rect: Rect) -> Option<Seq<char>> {
        if rect.spec_wf() {
            self.rows_text(rect, self.rows().len() as int)
        } else {
            None
        }
    }
}

/// Appends the glyphs of `row` to `out`.
pub fn push_gutter(out: &mut String, row: &HistoryRow)
    ensures
        final(out)@ == old(out)@ + match row@ {
            RowView::Node { path, column, width } => node_gutter(column, width),
            RowView::Join { column, width } => join_gutter(column, width),
            RowView::Fork { column, width } => fork_gutter(column, width),
        },
{
    match row {
        HistoryRow::Node { path, column, width } => {
            let mut i: usize = 0;
            assert(out@ =~= old(out)@ + node_gutter(*column as int, 0));
            while i < *width
                invariant
                    i <= *width,
                    out@ == old(out)@ + node_gutter(*column as int, i as int),
                decreases *width - i,
            {
                out.push(
                    if i == *column {
                        '\u{25b6}'
                    } else {
                        '\u{2502}'
                    },
                );
                assert(out@ =~= old(out)@ + node_gutter(*column as int, i + 1));
                i += 1;
            }
        },
        HistoryRow::Join { column, width } => {
            let mut i: usize = 0;
            assert(out@ =~= old(out)@ + join_gutter(*column as int, *width as int).take(0));
            while i < *width
                invariant
                    i <= *width,
                    out@ == old(out)@ + join_gutter(*column as int, *width as int).take(i as int),
                decreases *width - i,
            {
                out.push(
                    if i == *column {
                        '\u{1fba3}'
                    } else if i == *width - 1 {
                        '\u{1fba0}'
                    } else if i > *column {
                        '\u{1fba8}'
                    } else {
                        '\u{2502}'
                    },
                );
                assert(out@ =~= old(out)@ + join_gutter(*column as int, *width as int).take(i + 1));
                i += 1;
            }
            assert(join_gutter(*column as int, *width as int).take(*width as int) =~= join_gutter(
                *column as int,
                *width as int,
            ));
        },
        HistoryRow::Fork { column, width } => {
            let mut i: usize = 0;
            assert(out@ =~= old(out)@ + fork_gutter(*column as int, *width as int).take(0));
            while i < *width
                invariant
                    i <= *width,
                    out@ == old(out)@ + fork_gutter(*column as int, *width as int).take(i as int),
                decreases *width - i,
            {
                out.push(
                    if i == *width - 1 {
                        '\u{1fba2}'
                    } else if i > *column {
                        '\u{1fba9}'
                    } else if i == *column {
                        '\u{251c}'
                    } else {
                        '\u{2502}'
                    },
                );
                assert(out@ =~= old(out)@ + fork_gutter(*column as int, *width as int).take(i + 1));
                i += 1;
            }
            assert(fork_gutter(*column as int, *width as int).take(*width as int) =~= fork_gutter(
                *column as int,
                *width as int,
            ));
        },
    }
}

/// Appends to `out` the text that draws row `index` of the browser of the tree of
/// `hist`, which is `row`, on `surf`, and says whether the row could be drawn.
fn draw_row(out: &mut String, hist: &History, surf: &Window, row: &HistoryRow, index: usize) -> (ok:
    bool)
    requires
        surf.rect.spec_wf(),
        index < hist@.rows().len(),
        index < usize::MAX,
        hist@.rows()[index as int] == row@,
        hist@.scroll <= index + 1,
        row@ is Node ==> hist@.root.has(row@->path),
    ensures
        match hist@.row_text(surf.rect, index as int) {
            Some(text) => ok && final(out)@ == old(out)@ + text,
            None => !ok,
        },
{
    let cols = surf.rect.width();
    if index + 1 - hist.scroll == usize::MAX {
        return false;
    }
    let line = index + 1 - hist.scroll + 1;
    if !can_reach(surf, line, 1) {
        return false;
    }
    push_goto(out, surf, line, 1);
    push_gutter(out, row);
    match row {
        HistoryRow::Node { path, column, width } => {
            if cols < *width || cols - *width < 1 {
                return false;
            }
            let label = split_text(hist.get_node(path).action.to_string().as_str());
            match try_preview_lines(&label, cols - *width - 1) {
                Some(reduced) => {
                    if path.len() == hist.location.len() && starts_with(path, &hist.location) {
                        assert(path@.take(path@.len() as int) == path@);
                        push_text(out, surf.set_fg_color(Color::Cyan));
                    } else {
                        proof {
                            if path@ == hist@.location {
                                assert(path@.take(path@.len() as int) == path@);
                            }
                        }
                    }
                    out.push(' ');
                    push_text(out, reduced);
                    push_text(out, surf.reset_colors());
                    assert(out@ =~= old(out)@ + hist@.row_text(surf.rect, index as int)->0);
                    true
                },
                None => false,
            }
        },
        _ => {
            assert(out@ =~= old(out)@ + hist@.row_text(surf.rect, index as int)->0);
            true
        },
    }
}

/// The text that draws the browser of the tree of `hist` on `surf`, where it can
/// be drawn.
pub fn draw_history(hist: &History, surf: &Window) -> (drawn: Option<String>)
    ensures
        match drawn {
            Some(text) => hist@.browser_text(surf.rect) == Some(text@),
            None => hist@.browser_text(surf.rect) is None,
        },
{
    if !surf.rect.wf() {
        return None;
    }
    let height = surf.rect.height();
    let rows = hist.rows();
    let ghost first = seq![(hist@.root, Seq::<usize>::empty())];
    proof {
        hist.root.lemma_sized();
        assert(rooted(hist@.root, first));
    }
    let mut text = String::new();
    let mut index: usize = 0;
    while index < rows.len()
        invariant
            index <= rows@.len(),
            row_views(rows@) == hist@.rows(),
            surf.rect.spec_wf(),
            height == surf.rect.bottom - surf.rect.top + 1,
            hist@.root.sized(),
            first == seq![(hist@.root, Seq::<usize>::empty())],
            rooted(hist@.root, first),
            hist@.rows_text(surf.rect, index as int) == Some(text@),
        decreases rows@.len() - index,
    {
        if index + 1 >= hist.scroll && index + 1 - hist.scroll < height {
            proof {
                assert(hist@.rows()[index as int] == rows@[index as int]@);
                if rows@[index as int]@ is Node {
                    lemma_rows_rooted(hist@.root, first, index as int);
                }
            }
            let length = rows.len();
            if !draw_row(&mut text, hist, surf, &rows[index], index) {
                proof {
                    hist@.lemma_rows_text_stops(surf.rect, index + 1, rows@.len() as int);
                }
                return None;
            }
        }
        index += 1;
    }
    Some(text)
}

impl HistoryView {
    /// Where the first `n` rows cannot all be drawn, no more rows can.
    pub proof fn lemma_rows_text_stops(self, rect: Rect, n: int, upto: int)
        requires
            0 <= n <= upto,
            self.rows_text(rect, n) is None,
        ensures
            self.rows_text(rect, upto) is None,
        decreases upto - n,
    {
        if n < upto {
            self.lemma_rows_text_stops(rect, n, upto - 1);
        }
    }
}

/// The part of `line` from column `from` up to column `upto`, counted from 0 and
/// `upto` left out; nothing where `upto` does not lie behind `from`.
pub open spec fn stretch(line: Seq<char>, from: int, upto: int) -> Seq<char> {
    if from < upto {
        line.subrange(from, upto)
    } else {
        Seq::empty()
    }
}

/// `code` where `on`, and nothing where not.
pub open spec fn when(on: bool, code: Seq<char>) -> Seq<char> {
    if on {
        code
    } else {
        Seq::empty()
    }
}

/// The escape sequence that makes the background gray.
pub open spec fn gray() -> Seq<char> {
    one_color_code(Color::Gray.bg())
}

/// The text that draws column `x` of `line`, which is line `cur` of the text, in
/// the visual mode, and whether the selection, which reaches from `start` to
/// `stop`, is open behind the column, where it was `open` before it. The columns
/// count from 0. The background turns gray where the selection begins, and back
/// where it ends; the slot behind the last character is not drawn but can begin or
/// end the selection.
pub open spec fn cell(
    line: Seq<char>,
    cur: int,
    start: (int, int),
    stop: (int, int),
    x: int,
    open: bool,
) -> (Seq<char>, bool) {
    let begins = (cur, x + 1) == start;
    let ends = (cur, x + 1) == stop;
    (
        when(begins, gray()) + when(x < line.len(), seq![line[x]]) + when(ends, reset_code()),
        if ends {
            false
        } else if begins {
            true
        } else {
            open
        },
    )
}

/// The text that draws the columns `from` up to `upto` of `line` in the visual
/// mode, one after the other, and whether the selection is still open behind
/// them.
pub open spec fn cells(
    line: Seq<char>,
    cur: int,
    start: (int, int),
    stop: (int, int),
    from: int,
    upto: int,
    open: bool,
) -> (Seq<char>, bool)
    decreases upto - from,
{
    if upto <= from {
        (Seq::empty(), open)
    } else {
        let before = cells(line, cur, start, stop, from, upto - 1, open);
        let last = cell(line, cur, start, stop, upto - 1, before.1);
        (before.0 + last.0, last.1)
    }
}

/// The column, counted from 0, that a window of `cols` columns, scrolled to
/// column `scroll`, shows no more of a line that reaches up to column `length`.
pub open spec fn last_column(scroll: int, cols: int, length: int) -> int {
    smaller(length, scroll + cols - 7)
}

/// A window of `cols` columns, scrolled to column `scroll`, shows columns of the
/// text: the text is scrolled to a column, and the window is wide enough for the
/// line numbers.
pub open spec fn sees_columns(scroll: int, cols: int) -> bool {
    scroll >= 1 && 7 <= scroll + cols <= usize::MAX
}

/// The text that draws `line`, which is line `cur` of the text, behind its number
/// in the visual mode, and whether the selection is still open behind the line.
/// There is none where the line reaches into view and the window shows no columns.
pub open spec fn visual_text(
    line: Seq<char>,
    cur: int,
    start: (int, int),
    stop: (int, int),
    scroll: int,
    cols: int,
    open: bool,
) -> Option<(Seq<char>, bool)> {
    if line.len() < scroll {
        let on = open || (cur, line.len() as int + 1) == start;
        Some(
            (
                when(on, gray()) + seq![' '] + reset_code(),
                if (cur, line.len() as int + 1) == stop {
                    false
                } else {
                    on
                },
            ),
        )
    } else if !sees_columns(scroll, cols) {
        None
    } else {
        let drawn = cells(
            line,
            cur,
            start,
            stop,
            scroll - 1,
            last_column(scroll, cols, line.len() as int + 1),
            open,
        );
        Some((when(open, gray()) + drawn.0 + reset_code(), drawn.1))
    }
}

/// The text that draws `line`, which is line `cur` of the text, behind its number
/// in the mode that selects lines, and whether the selection is still open behind
/// the line.
pub open spec fn visual_line_text(
    line: Seq<char>,
    cur: int,
    start: (int, int),
    stop: (int, int),
    scroll: int,
    cols: int,
    open: bool,
) -> Option<(Seq<char>, bool)> {
    let on = open || cur == start.0;
    let after = if cur == stop.0 {
        false
    } else {
        on
    };
    if line.len() < scroll {
        Some((when(on, gray()) + seq![' '], after))
    } else if !sees_columns(scroll, cols) {
        None
    } else {
        Some(
            (
                when(on, gray()) + stretch(
                    line,
                    scroll - 1,
                    last_column(scroll, cols, line.len() as int),
                ),
                after,
            ),
        )
    }
}

/// The text that draws `line` behind its number where nothing is selected.
pub open spec fn plain_text(line: Seq<char>, scroll: int, cols: int) -> Option<Seq<char>> {
    if line.len() < scroll {
        Some(Seq::empty())
    } else if !sees_columns(scroll, cols) {
        None
    } else {
        Some(stretch(line, scroll - 1, last_column(scroll, cols, line.len() as int)))
    }
}

impl BufferView {
    /// The number that is shown before line `cur`: the number of the line, or,
    /// where numbers are shown as distances, the distance of the line from the
    /// line of the cursor, which itself shows its number.
    pub open spec fn line_number(self, cur: int, relative: bool) -> int {
        if !relative || cur == self.cursor.0 {
            cur
        } else if cur < self.cursor.0 {
            self.cursor.0 - cur
        } else {
            cur - self.cursor.0
        }
    }

    /// The text that draws the number before line `cur`: the number at the right
    /// of five columns, and a blank behind it, in gray unless the cursor is in the
    /// line.
    pub open spec fn number_text(self, cur: int, relative: bool) -> Seq<char> {
        let digits = decimal(self.line_number(cur, relative) as nat);
        reset_code() + when(cur != self.cursor.0, one_color_code(Color::Gray.fg())) + blanks(
            5 - digits.len(),
        ) + digits + seq![' '] + reset_code()
    }

    /// The text that draws line `cur` of the text behind its number in the window
    /// `rect`, and whether the selection is still open behind the line, where it
    /// was `open` before it.
    pub open spec fn line_body(self, rect: Rect, cur: int, open: bool) -> Option<(Seq<char>, bool)> {
        let line = self.text[cur - 1];
        let cols = rect.right - rect.left + 1;
        let (start, stop) = self.selection();
        if self.mode == Mode::Visual {
            visual_text(line, cur, start, stop, self.scroll.1, cols, open)
        } else if self.mode == Mode::VisualLine {
            visual_line_text(line, cur, start, stop, self.scroll.1, cols, open)
        } else {
            match plain_text(line, self.scroll.1, cols) {
                Some(text) => Some((text, open)),
                None => None,
            }
        }
    }

    /// The text that draws line `cur` of the text in row `screen` of the window
    /// `rect`, and whether the selection is still open behind the line, where it
    /// was `open` before it. There is none where the row is no place on the
    /// screen, or where the line reaches into view and the window shows no
    /// columns.
    #[verifier::opaque]
    pub open spec fn line_text(self, rect: Rect, relative: bool, cur: int, screen: int, open: bool) -> Option<
        (Seq<char>, bool),
    > {
        if !reachable(rect, screen, 1) {
            None
        } else {
            match self.line_body(rect, cur, open) {
                Some((body, after)) => Some(
                    (goto_text(rect, screen, 1) + self.number_text(cur, relative) + body, after),
                ),
                None => None,
            }
        }
    }

    /// The text that draws the first `count` lines that the window `rect` shows,
    /// from the line that the text is scrolled to, and whether the selection is
    /// still open behind them. Before the first line the selection is open where
    /// that line lies below the line in which the selection begins and not below
    /// the line in which it ends.
    pub open spec fn lines_text(self, rect: Rect, relative: bool, count: int) -> Option<
        (Seq<char>, bool),
    >
        decreases count,
    {
        if count <= 0 {
            Some(
                (
                    Seq::empty(),
                    self.scroll.0 > self.selection().0.0 && self.scroll.0 <= self.selection().1.0,
                ),
            )
        } else {
            match self.lines_text(rect, relative, count - 1) {
                Some((before, open)) => match self.line_text(
                    rect,
                    relative,
                    self.scroll.0 + count - 1,
                    count,
                    open,
                ) {
                    Some((line, after)) => Some((before + line, after)),
                    None => None,
                },
                None => None,
            }
        }
    }

    /// How many lines of the text the window `rect` shows: as many as it has rows,
    /// as far as there are lines, and one at least.
    pub open spec fn lines_in_view(self, rect: Rect) -> int {
        let left = self.text.len() - self.scroll.0 + 1;
        let rows = rect.bottom - rect.top + 1;
        if left <= 1 || rows <= 1 {
            1
        } else {
            smaller(left, rows)
        }
    }

    /// The text that draws the lines of the text in the window `rect`, each with
    /// its number before it, and in the visual modes with what is selected on a
    /// gray background. There is none where the text is scrolled to no line, or
    /// where one of the lines cannot be drawn.
    pub open spec fn contents_text(self, rect: Rect, relative: bool) -> Option<Seq<char>> {
        if rect.spec_wf() && 1 <= self.scroll.0 <= self.text.len() {
            match self.lines_text(rect, relative, self.lines_in_view(rect)) {
                Some((text, open)) => Some(text),
                None => None,
            }
        } else {
            None
        }
    }

    /// Where the first `n` lines cannot all be drawn, no more lines can.
    pub proof fn lemma_lines_text_stops(self, rect: Rect, relative: bool, n: int, count: int)
        requires
            0 <= n <= count,
            self.lines_text(rect, relative, n) is None,
        ensures
            self.lines_text(rect, relative, count) is None,
        decreases count - n,
    {
        if n < count {
            self.lemma_lines_text_stops(rect, relative, n, count - 1);
        }
    }
}

/// Appends to `out` the text that draws the number before line `cur`.
pub fn push_number(out: &mut String, buf: &Buffer, surf: &Window, relative: bool, cur: usize)
    ensures
        final(out)@ == old(out)@ + buf@.number_text(cur as int, relative),
{
    let number = if !relative || cur == buf.cursor.0 {
        cur
    } else if cur < buf.cursor.0 {
        buf.cursor.0 - cur
    } else {
        cur - buf.cursor.0
    };
    push_text(out, surf.reset_colors());
    if cur != buf.cursor.0 {
        push_text(out, surf.set_fg_color(Color::Gray));
    }
    let mut digits = String::new();
    push_decimal(&mut digits, number);
    let len = digits.as_str().unicode_len();
    if len < 5 {
        push_blanks(out, 5 - len);
    } else {
        assert(blanks(5 - len) =~= Seq::empty());
    }
    push_text(out, digits);
    out.push(' ');
    push_text(out, surf.reset_colors());
    assert(out@ =~= old(out)@ + buf@.number_text(cur as int, relative));
}

/// Appends to `out` the columns `from` up to `upto` of `line`, counted from 0, as
/// far as `upto` lies behind `from`.
pub fn push_stretch(out: &mut String, line: &Vec<char>, from: usize, upto: usize)
    requires
        upto <= line@.len(),
    ensures
        final(out)@ == old(out)@ + stretch(line@, from as int, upto as int),
{
    if from >= upto {
        assert(out@ =~= old(out)@ + stretch(line@, from as int, upto as int));
        return ;
    }
    let mut x = from;
    assert(out@ =~= old(out)@ + line@.subrange(from as int, from as int));
    while x < upto
        invariant
            from <= x <= upto <= line@.len(),
            out@ == old(out)@ + line@.subrange(from as int, x as int),
        decreases upto - x,
    {
        out.push(line[x]);
        assert(out@ =~= old(out)@ + line@.subrange(from as int, x + 1));
        x += 1;
    }
}

/// Appends to `out` the text that draws column `x` of `line` in the visual mode,
/// and says whether the selection is open behind the column.
pub fn push_cell(
    out: &mut String,
    surf: &Window,
    line: &Vec<char>,
    cur: usize,
    ends: (Coord, Coord),
    x: usize,
    open: bool,
) -> (after: bool)
    requires
        x < usize::MAX,
    ensures
        final(out)@ == old(out)@ + cell(line@, cur as int, at(ends.0), at(ends.1), x as int, open).0,
        after == cell(line@, cur as int, at(ends.0), at(ends.1), x as int, open).1,
{
    let (start, stop) = ends;
    let begins = start.0 == cur && start.1 == x + 1;
    let closes = stop.0 == cur && stop.1 == x + 1;
    let mut on = open;
    if begins {
        on = true;
        push_text(out, surf.set_bg_color(Color::Gray));
    }
    if x < line.len() {
        out.push(line[x]);
    }
    if closes {
        on = false;
        push_text(out, surf.reset_colors());
    }
    assert(out@ =~= old(out)@ + (when(begins, gray()) + when(
        x < line@.len(),
        seq![line@[x as int]],
    ) + when(closes, reset_code())));
    on
}

/// Appends to `out` the text that draws the columns `from` up to `upto` of `line`
/// in the visual mode, and says whether the selection is still open behind them.
pub fn push_cells(
    out: &mut String,
    surf: &Window,
    line: &Vec<char>,
    cur: usize,
    ends: (Coord, Coord),
    from: usize,
    upto: usize,
    open: bool,
) -> (after: bool)
    ensures
        final(out)@ == old(out)@ + cells(
            line@,
            cur as int,
            at(ends.0),
            at(ends.1),
            from as int,
            upto as int,
            open,
        ).0,
        after == cells(line@, cur as int, at(ends.0), at(ends.1), from as int, upto as int, open).1,
{
    if from >= upto {
        assert(out@ =~= old(out)@ + Seq::<char>::empty());
        return open;
    }
    let mut on = open;
    let mut x = from;
    assert(out@ =~= old(out)@ + Seq::<char>::empty());
    while x < upto
        invariant
            from <= x <= upto,
            out@ == old(out)@ + cells(
                line@,
                cur as int,
                at(ends.0),
                at(ends.1),
                from as int,
                x as int,
                open,
            ).0,
            on == cells(line@, cur as int, at(ends.0), at(ends.1), from as int, x as int, open).1,
        decreases upto - x,
    {
        let ghost so_far = cells(
            line@,
            cur as int,
            at(ends.0),
            at(ends.1),
            from as int,
            x as int,
            open,
        );
        let ghost next = cell(line@, cur as int, at(ends.0), at(ends.1), x as int, on);
        let ghost before = out@;
        on = push_cell(out, surf, line, cur, ends, x, on);
        assert(out@ == before + next.0);
        assert(before + next.0 =~= old(out)@ + (so_far.0 + next.0));
        x += 1;
    }
    on
}

/// Whether a window of `cols` columns, scrolled to column `scroll`, shows columns
/// of the text.
pub fn can_see_columns(scroll: usize, cols: usize) -> (ok: bool)
    ensures
        ok == sees_columns(scroll as int, cols as int),
{
    scroll >= 1 && cols <= usize::MAX - scroll && scroll + cols >= 7
}

/// The column, counted from 0, that a window of `cols` columns, scrolled to column
/// `scroll`, shows no more of a line of `length` characters, with or `without` the
/// slot behind the last of them.
pub fn last_shown(scroll: usize, cols: usize, length: usize, without: bool) -> (last: usize)
    requires
        sees_columns(scroll as int, cols as int),
    ensures
        last == last_column(
            scroll as int,
            cols as int,
            if without {
                length as int
            } else {
                length + 1
            },
        ),
{
    let room = scroll + cols - 7;
    if length < room {
        if without {
            length
        } else {
            length + 1
        }
    } else if without && length == room {
        length
    } else {
        room
    }
}

/// Appends to `out` the text that draws `line` behind its number in the visual
/// mode, and says whether the selection is still open behind it, where the line
/// can be drawn.
fn draw_visual(
    out: &mut String,
    surf: &Window,
    line: &Vec<char>,
    cur: usize,
    ends: (Coord, Coord),
    scroll: usize,
    cols: usize,
    open: bool,
) -> (after: Option<bool>)
    ensures
        match visual_text(
            line@,
            cur as int,
            at(ends.0),
            at(ends.1),
            scroll as int,
            cols as int,
            open,
        ) {
            Some((text, still)) => after == Some(still) && final(out)@ == old(out)@ + text,
            None => after is None,
        },
{
    let (start, stop) = ends;
    let len = line.len();
    if len < scroll {
        let at_start = start.0 == cur && start.1 == len + 1;
        let at_stop = stop.0 == cur && stop.1 == len + 1;
        let on = open || at_start;
        if on {
            push_text(out, surf.set_bg_color(Color::Gray));
        }
        out.push(' ');
        push_text(out, surf.reset_colors());
        assert(out@ =~= old(out)@ + (when(on, gray()) + seq![' '] + reset_code()));
        Some(if at_stop {
            false
        } else {
            on
        })
    } else if !can_see_columns(scroll, cols) {
        None
    } else {
        if open {
            push_text(out, surf.set_bg_color(Color::Gray));
        }
        let last = last_shown(scroll, cols, len, false);
        let ghost before = out@;
        let after = push_cells(out, surf, line, cur, ends, scroll - 1, last, open);
        push_text(out, surf.reset_colors());
        assert(out@ =~= old(out)@ + (when(open, gray()) + cells(
            line@,
            cur as int,
            at(start),
            at(stop),
            scroll - 1,
            last as int,
            open,
        ).0 + reset_code()));
        Some(after)
    }
}

/// Appends to `out` the text that draws `line` behind its number in the mode that
/// selects lines, and says whether the selection is still open behind it, where
/// the line can be drawn.
fn draw_visual_line(
    out: &mut String,
    surf: &Window,
    line: &Vec<char>,
    cur: usize,
    ends: (Coord, Coord),
    scroll: usize,
    cols: usize,
    open: bool,
) -> (after: Option<bool>)
    ensures
        match visual_line_text(
            line@,
            cur as int,
            at(ends.0),
            at(ends.1),
            scroll as int,
            cols as int,
            open,
        ) {
            Some((text, still)) => after == Some(still) && final(out)@ == old(out)@ + text,
            None => after is None,
        },
{
    let (start, stop) = ends;
    let len = line.len();
    let on = open || cur == start.0;
    let after = if cur == stop.0 {
        false
    } else {
        on
    };
    if len < scroll {
        if on {
            push_text(out, surf.set_bg_color(Color::Gray));
        }
        out.push(' ');
        assert(out@ =~= old(out)@ + (when(on, gray()) + seq![' ']));
        Some(after)
    } else if !can_see_columns(scroll, cols) {
        None
    } else {
        if on {
            push_text(out, surf.set_bg_color(Color::Gray));
        }
        let last = last_shown(scroll, cols, len, true);
        push_stretch(out, line, scroll - 1, last);
        assert(out@ =~= old(out)@ + (when(on, gray()) + stretch(line@, scroll - 1, last as int)));
        Some(after)
    }
}

/// Appends to `out` the text that draws `line` behind its number where nothing is
/// selected, where the line can be drawn.
fn draw_plain(out: &mut String, line: &Vec<char>, scroll: usize, cols: usize) -> (ok: bool)
    ensures
        match plain_text(line@, scroll as int, cols as int) {
            Some(text) => ok && final(out)@ == old(out)@ + text,
            None => !ok,
        },
{
    let len = line.len();
    if len < scroll {
        assert(out@ =~= old(out)@ + Seq::<char>::empty());
        true
    } else if !can_see_columns(scroll, cols) {
        false
    } else {
        let last = last_shown(scroll, cols, len, true);
        push_stretch(out, line, scroll - 1, last);
        true
    }
}

/// Appends to `out` the text that draws line `cur` of the text in row `screen` of
/// `surf`, and says whether the selection is still open behind the line, where
/// the line can be drawn.
fn draw_line(
    out: &mut String,
    buf: &Buffer,
    surf: &Window,
    relative: bool,
    cur: usize,
    screen: usize,
    open: bool,
) -> (after: Option<bool>)
    requires
        surf.rect.spec_wf(),
        1 <= cur <= buf@.text.len(),
    ensures
        match buf@.line_text(surf.rect, relative, cur as int, screen as int, open) {
            Some((text, still)) => after == Some(still) && final(out)@ == old(out)@ + text,
            None => after is None,
        },
{
    broadcast use lemma_line_deep_view;

    reveal(BufferView::line_text);
    if !can_reach(surf, screen, 1) {
        return None;
    }
    push_goto(out, surf, screen, 1);
    push_number(out, buf, surf, relative, cur);
    let ghost head = goto_text(surf.rect, screen as int, 1) + buf@.number_text(cur as int, relative);
    assert(out@ =~= old(out)@ + head);
    let ends = selected_bounds(buf);
    let line = &buf.contents[cur - 1];
    let cols = surf.rect.width();
    let ghost mid = out@;
    let after = if buf.mode == Mode::Visual {
        draw_visual(out, surf, line, cur, ends, buf.scroll.1, cols, open)
    } else if buf.mode == Mode::VisualLine {
        draw_visual_line(out, surf, line, cur, ends, buf.scroll.1, cols, open)
    } else if draw_plain(out, line, buf.scroll.1, cols) {
        Some(open)
    } else {
        None
    };
    proof {
        if let Some((body, still)) = buf@.line_body(surf.rect, cur as int, open) {
            assert(out@ =~= old(out)@ + (head + body));
        }
    }
    after
}

/// The text that draws the lines of the text of `buf` on `surf`, where they can be
/// drawn. `relative` says whether the numbers before the lines are distances from
/// the line of the cursor.
pub fn draw_contents(buf: &Buffer, surf: &Window, relative: bool) -> (drawn: Option<String>)
    ensures
        match drawn {
            Some(text) => buf@.contents_text(surf.rect, relative) == Some(text@),
            None => buf@.contents_text(surf.rect, relative) is None,
        },
{
    let len = buf.contents.len();
    if !surf.rect.wf() || buf.scroll.0 < 1 || buf.scroll.0 > len {
        return None;
    }
    let rows = surf.rect.height();
    let left = len - buf.scroll.0 + 1;
    let count = if left <= 1 || rows <= 1 {
        1
    } else if left <= rows {
        left
    } else {
        rows
    };
    let (start, stop) = selected_bounds(buf);
    let mut open = buf.scroll.0 > start.0 && buf.scroll.0 <= stop.0;
    let mut text = String::new();
    let mut i: usize = 0;
    while i < count
        invariant
            i <= count,
            count == buf@.lines_in_view(surf.rect),
            surf.rect.spec_wf(),
            1 <= buf.scroll.0,
            len == buf@.text.len(),
            buf.scroll.0 + count - 1 <= len,
            buf@.lines_text(surf.rect, relative, i as int) == Some((text@, open)),
        decreases count - i,
    {
        match draw_line(&mut text, buf, surf, relative, buf.scroll.0 + i, i + 1, open) {
            Some(after) => {
                open = after;
            },
            None => {
                proof {
                    buf@.lemma_lines_text_stops(surf.rect, relative, i + 1, count as int);
                }
                return None;
            },
        }
        i += 1;
    }
    Some(text)
}

/// The text that writes the first `upto` of `lines` into the window `rect`, one
/// below the other, the first of them at row `top` and column `left`.
pub open spec fn lines_written(rect: Rect, lines: Seq<Seq<char>>, top: int, left: int, upto: int) -> Seq<
    char,
>
    decreases upto,
{
    if upto <= 0 {
        Seq::empty()
    } else {
        lines_written(rect, lines, top, left, upto - 1) + goto_text(rect, top + upto - 1, left)
            + lines[upto - 1]
    }
}

/// The text that writes `text`, cut into lines at its line breaks, into the
/// rectangle `bx` of the window `rect`, from its top left corner on. There is none
/// where a line would come to lie at no place on the screen.
pub open spec fn box_text(rect: Rect, bx: Rect, text: Seq<char>) -> Option<Seq<char>> {
    let lines = split(text);
    if bx.top + lines.len() - 1 <= usize::MAX && reachable(rect, bx.top as int, bx.left as int)
        && reachable(rect, bx.top + lines.len() - 1, bx.left as int) {
        Some(lines_written(rect, lines, bx.top as int, bx.left as int, lines.len() as int))
    } else {
        None
    }
}

/// The text that writes `text` into the rectangle `bx` of `surf`, where it finds
/// room on the screen.
pub fn draw_text_box(bx: &Rect, text: &str, surf: &Window) -> (drawn: Option<String>)
    ensures
        match drawn {
            Some(out) => box_text(surf.rect, *bx, text@) == Some(out@),
            None => box_text(surf.rect, *bx, text@) is None,
        },
{
    broadcast use lemma_line_deep_view;

    let lines = split_text(text);
    let n = lines.len();
    if n - 1 > usize::MAX - bx.top {
        return None;
    }
    if !can_reach(surf, bx.top, bx.left) || !can_reach(surf, bx.top + (n - 1), bx.left) {
        return None;
    }
    let mut out = String::new();
    let mut i: usize = 0;
    while i < n
        invariant
            i <= n,
            n == lines@.len(),
            n >= 1,
            bx.top + n - 1 <= usize::MAX,
            reachable(surf.rect, bx.top as int, bx.left as int),
            reachable(surf.rect, bx.top + n - 1, bx.left as int),
            out@ == lines_written(
                surf.rect,
                lines.deep_view(),
                bx.top as int,
                bx.left as int,
                i as int,
            ),
        decreases n - i,
    {
        push_goto(&mut out, surf, bx.top + i, bx.left);
        crate::common::push_line(&mut out, &lines[i]);
        assert(out@ =~= lines_written(
            surf.rect,
            lines.deep_view(),
            bx.top as int,
            bx.left as int,
            i + 1,
        ));
        i += 1;
    }
    Some(out)
}

/// One character `n` times.
pub open spec fn repeated(c: char, n: int) -> Seq<char> {
    Seq::new(
        if n > 0 {
            n as nat
        } else {
            0
        },
        |i: int| c,
    )
}

/// Appends `c` to `out` `n` times.
pub fn push_repeated(out: &mut String, c: char, n: usize)
    ensures
        final(out)@ == old(out)@ + repeated(c, n as int),
{
    let mut i: usize = 0;
    assert(out@ =~= old(out)@ + repeated(c, 0));
    while i < n
        invariant
            i <= n,
            out@ == old(out)@ + repeated(c, i as int),
        decreases n - i,
    {
        out.push(c);
        assert(out@ =~= old(out)@ + repeated(c, i + 1));
        i += 1;
    }
}

/// The text that draws the two sides of a frame around the rectangle `bx` of the
/// window `rect` in the rows behind its first, down to row `upto`.
pub open spec fn sides_drawn(rect: Rect, bx: Rect, upto: int) -> Seq<char>
    decreases upto - bx.top,
{
    if upto <= bx.top {
        Seq::empty()
    } else {
        sides_drawn(rect, bx, upto - 1) + goto_text(rect, upto, bx.left as int) + seq!['\u{2502}']
            + repeated(' ', bx.right - bx.left - 1) + seq!['\u{2502}']
    }
}

/// The rectangle inside the frame around `bx`.
pub open spec fn inside(bx: Rect) -> Rect {
    Rect {
        top: (bx.top + 1) as usize,
        left: (bx.left + 1) as usize,
        bottom: (bx.bottom - 1) as usize,
        right: (bx.right - 1) as usize,
    }
}

/// A frame can be drawn around the rectangle `bx` of the window `rect`: it has
/// two columns at least and a row, lies on the screen, and leaves room behind its
/// right and below its top edge.
pub open spec fn frameable(rect: Rect, bx: Rect) -> bool {
    &&& bx.spec_wf()
    &&& bx.left < bx.right
    &&& 1 <= bx.bottom
    &&& bx.top < usize::MAX
    &&& reachable(rect, bx.top as int, bx.left as int)
    &&& reachable(rect, bx.bottom as int, bx.left as int)
}

/// The text that draws a frame with round corners around the rectangle `bx` of the
/// window `rect` and writes `text` into it. There is none where the frame cannot
/// be drawn, or where `text` finds no room on the screen.
pub open spec fn popup_text(rect: Rect, bx: Rect, text: Seq<char>) -> Option<Seq<char>> {
    if !frameable(rect, bx) {
        None
    } else {
        match box_text(rect, inside(bx), text) {
            Some(written) => Some(
                goto_text(rect, bx.top as int, bx.left as int) + seq!['\u{256d}'] + repeated(
                    '\u{2500}',
                    bx.right - bx.left - 1,
                ) + seq!['\u{256e}'] + sides_drawn(rect, bx, bx.bottom - 1) + goto_text(
                    rect,
                    bx.bottom as int,
                    bx.left as int,
                ) + seq!['\u{2570}'] + repeated('\u{2500}', bx.right - bx.left - 1) + seq![
                    '\u{256f}',
                    ' ',
                ] + written,
            ),
            None => None,
        }
    }
}

/// The text that draws a frame around the rectangle `bx` of `surf` and writes
/// `text` into it, where that finds room on the screen.
pub fn draw_popup(bx: &Rect, text: &str, surf: &Window) -> (drawn: Option<String>)
    ensures
        match drawn {
            Some(out) => popup_text(surf.rect, *bx, text@) == Some(out@),
            None => popup_text(surf.rect, *bx, text@) is None,
        },
{
    if !bx.wf() || bx.left >= bx.right || bx.bottom < 1 || bx.top == usize::MAX || !can_reach(
        surf,
        bx.top,
        bx.left,
    ) || !can_reach(surf, bx.bottom, bx.left) {
        return None;
    }
    let inner = bx.right - bx.left - 1;
    let mut out = String::new();
    push_goto(&mut out, surf, bx.top, bx.left);
    out.push('\u{256d}');
    push_repeated(&mut out, '\u{2500}', inner);
    out.push('\u{256e}');
    let ghost head = out@;
    let mut row = bx.top + 1;
    assert(out@ =~= head + sides_drawn(surf.rect, *bx, bx.top as int));
    while row < bx.bottom
        invariant
            bx.top < row,
            bx.top < bx.bottom ==> row <= bx.bottom,
            frameable(surf.rect, *bx),
            inner == bx.right - bx.left - 1,
            out@ == head + sides_drawn(surf.rect, *bx, if row - 1 <= bx.bottom - 1 {
                row - 1
            } else {
                bx.top as int
            }),
        decreases bx.bottom - row,
    {
        push_goto(&mut out, surf, row, bx.left);
        out.push('\u{2502}');
        push_repeated(&mut out, ' ', inner);
        out.push('\u{2502}');
        assert(out@ =~= head + sides_drawn(surf.rect, *bx, row as int));
        row += 1;
    }
    proof {
        if bx.top == bx.bottom {
            assert(sides_drawn(surf.rect, *bx, bx.bottom - 1) =~= Seq::empty());
        }
    }
    let ghost sides = out@;
    push_goto(&mut out, surf, bx.bottom, bx.left);
    out.push('\u{2570}');
    push_repeated(&mut out, '\u{2500}', inner);
    out.push('\u{256f}');
    out.push(' ');
    let inner_rect = Rect {
        top: bx.top + 1,
        left: bx.left + 1,
        bottom: bx.bottom - 1,
        right: bx.right - 1,
    };
    let ghost framed = out@;
    match draw_text_box(&inner_rect, text, surf) {
        Some(written) => {
            push_text(&mut out, written);
            assert(out@ =~= popup_text(surf.rect, *bx, text@)->0);
            Some(out)
        },
        None => None,
    }
}

/// The escape sequence that clears the screen.
pub open spec fn clear_code() -> Seq<char> {
    escape() + seq!['2', 'J']
}

/// The rectangle of a screen of `rows` rows in which the browser of the history
/// is shown: its first 38 columns, without the last two rows.
pub open spec fn history_rect(rows: int) -> Rect {
    Rect { top: 1, left: 1, bottom: (rows - 2) as usize, right: 38 }
}

/// The rectangle of a screen of `rows` rows that parts the browser of the history
/// from the text: column 39, without the last two rows.
pub open spec fn rule_rect(rows: int) -> Rect {
    Rect { top: 1, left: 39, bottom: (rows - 2) as usize, right: 39 }
}

/// The rectangle of a screen of `rows` rows and `cols` columns in which the text
/// is shown: all columns, or those from column 40 on where the history is shown
/// too, without the last two rows.
pub open spec fn text_rect(rows: int, cols: int, beside_history: bool) -> Rect {
    Rect {
        top: 1,
        left: if beside_history {
            40
        } else {
            1
        },
        bottom: (rows - 2) as usize,
        right: cols as usize,
    }
}

/// The rectangle of a screen of `rows` rows and `cols` columns that is the whole
/// screen.
pub open spec fn whole_rect(rows: int, cols: int) -> Rect {
    Rect { top: 1, left: 1, bottom: rows as usize, right: cols as usize }
}

impl BufferView {
    /// The text that draws the browser of the history and the rule that parts it
    /// from the text, where the history is shown, and nothing where it is not.
    pub open spec fn side_text(self, rows: int, cols: int) -> Option<Seq<char>> {
        if !self.show_history {
            Some(Seq::empty())
        } else if !fillable(whole_rect(rows, cols), rule_rect(rows)) {
            None
        } else {
            match self.history.browser_text(history_rect(rows)) {
                Some(browser) => Some(
                    browser + filled(whole_rect(rows, cols), rule_rect(rows), Color::Gray),
                ),
                None => None,
            }
        }
    }

    /// The text that draws the buffer on a screen of `rows` rows and `cols`
    /// columns: the screen is cleared; the browser of the history is drawn where
    /// it is shown; then the text, the status line, and the cursor. There is none
    /// where the screen has no room for one of these.
    pub open spec fn screen_text(self, rows: int, cols: int, relative: bool) -> Option<Seq<char>> {
        let text = text_rect(rows, cols, self.show_history);
        let whole = whole_rect(rows, cols);
        if rows < 2 || !self.has_status(whole) || !self.has_cursor(text) {
            None
        } else {
            match (self.side_text(rows, cols), self.contents_text(text, relative)) {
                (Some(side), Some(contents)) => Some(
                    reset_code() + clear_code() + side + contents + self.status_text(whole)
                        + self.cursor_text(text) + reset_code(),
                ),
                _ => None,
            }
        }
    }
}

/// The text that draws `buf` on a screen of `rows` rows and `cols` columns, where
/// the screen has room for all of it. `relative` says whether the numbers before
/// the lines are distances from the line of the cursor.
pub fn redraw(buf: &Buffer, rows: usize, cols: usize, relative: bool) -> (drawn: Option<String>)
    ensures
        match drawn {
            Some(text) => buf@.screen_text(rows as int, cols as int, relative) == Some(text@),
            None => buf@.screen_text(rows as int, cols as int, relative) is None,
        },
{
    if rows < 2 {
        return None;
    }
    let whole = Window { rect: Rect { top: 1, left: 1, bottom: rows, right: cols } };
    let text_surface = Window {
        rect: Rect {
            top: 1,
            left: if buf.show_history {
                40
            } else {
                1
            },
            bottom: rows - 2,
            right: cols,
        },
    };
    if !can_draw_status(buf, &whole) || !can_draw_cursor(buf, &text_surface) {
        return None;
    }
    let mut text = whole.reset_colors();
    let mut clear = begin_escape();
    clear.push('2');
    clear.push('J');
    assert(clear@ =~= clear_code());
    push_text(&mut text, clear);
    if buf.show_history {
        let hist_surface = Window { rect: Rect { top: 1, left: 1, bottom: rows - 2, right: 38 } };
        let sep = Rect { top: 1, left: 39, bottom: rows - 2, right: 39 };
        if !can_fill(&sep, &whole) {
            return None;
        }
        match draw_history(&buf.history, &hist_surface) {
            Some(browser) => {
                push_text(&mut text, browser);
            },
            None => {
                return None;
            },
        }
        push_text(&mut text, draw_fill(&sep, Color::Gray, &whole));
    }
    match draw_contents(buf, &text_surface, relative) {
        Some(contents) => {
            push_text(&mut text, contents);
        },
        None => {
            return None;
        },
    }
    push_text(&mut text, draw_status(buf, &whole));
    push_text(&mut text, draw_cursor(buf, &text_surface));
    push_text(&mut text, whole.reset_colors());
    proof {
        let side = buf@.side_text(rows as int, cols as int)->0;
        let contents = buf@.contents_text(text_surface.rect, relative)->0;
        assert(text@ =~= reset_code() + clear_code() + side + contents + buf@.status_text(
            whole.rect,
        ) + buf@.cursor_text(text_surface.rect) + reset_code());
    }
    Some(text)
}

} // verus!
