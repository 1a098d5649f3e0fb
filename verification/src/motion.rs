use crate::action::at;
use crate::buffer::{Buffer, BufferView, Mode};
use crate::common::{lemma_line_deep_view, Coord};
use crate::text::Pos;
use crate::undo::now;
use vstd::prelude::*;

verus! {

/// The larger of `a` and `b`.
pub open spec fn larger(a: int, b: int) -> int {
    if a >= b {
        a
    } else {
        b
    }
}

/// The smaller of `a` and `b`.
pub open spec fn smaller(a: int, b: int) -> int {
    if a <= b {
        a
    } else {
        b
    }
}

/// With the cursor at `cursor` and the screen scrolled to `scroll`, each sum and
/// each difference that scrolling takes on the way to its result is a number that
/// a `usize` can hold.
pub open spec fn can_scroll_from(cursor: Pos, scroll: Pos, rows: int, cols: int) -> bool {
    &&& scroll.0 + 10 <= usize::MAX
    &&& (cursor.0 > 10 && cursor.0 < 10 + scroll.0) || {
        &&& 12 <= scroll.0 + rows <= usize::MAX
        &&& cursor.0 > scroll.0 + rows - 12 ==> cursor.0 + 12 <= usize::MAX
    }
    &&& if scroll.1 >= cursor.1 {
        cursor.1 >= 1
    } else {
        &&& 7 <= scroll.1 + cols <= usize::MAX
        &&& scroll.1 + cols - 7 <= cursor.1 ==> cursor.1 + 8 <= usize::MAX
    }
}

/// Whether the screen can be scrolled from `scroll` to bring `cursor` into view.
pub fn scroll_guard(cursor: Coord, scroll: Coord, rows: usize, cols: usize) -> (ok: bool)
    ensures
        ok == can_scroll_from(at(cursor), at(scroll), rows as int, cols as int),
{
    if scroll.0 > usize::MAX - 10 {
        return false;
    }
    if !(cursor.0 > 10 && cursor.0 < 10 + scroll.0) {
        if rows > usize::MAX - scroll.0 {
            return false;
        }
        let bottom = scroll.0 + rows;
        if bottom < 12 {
            return false;
        }
        if cursor.0 > bottom - 12 && cursor.0 > usize::MAX - 12 {
            return false;
        }
    }
    if scroll.1 >= cursor.1 {
        cursor.1 >= 1
    } else {
        if cols > usize::MAX - scroll.1 {
            return false;
        }
        let right = scroll.1 + cols;
        if right < 7 {
            return false;
        }
        !(right - 7 <= cursor.1 && cursor.1 > usize::MAX - 8)
    }
}

impl BufferView {
    /// The last column that the cursor can stand in on its line: the last
    /// character in normal mode, and the slot behind it in the other modes.
    pub open spec fn line_end(self) -> int {
        self.text[self.cursor.0 - 1].len() + if self.mode == Mode::Normal {
            0int
        } else {
            1int
        }
    }

    /// The buffer scrolled so that the cursor is in view on a surface of `rows`
    /// rows and `cols` columns. The top row follows a cursor that comes within ten
    /// rows of it, or within twelve rows of the bottom; the left column follows a
    /// cursor that reaches it, or comes within seven columns of the right edge.
    pub open spec fn scrolled(self, rows: int, cols: int) -> BufferView {
        let top = if self.cursor.0 > 10 && self.cursor.0 < 10 + self.scroll.0 {
            larger(self.cursor.0 - 10, 1)
        } else if self.cursor.0 > self.scroll.0 + rows - 12 {
            self.cursor.0 + 12 - rows
        } else {
            self.scroll.0
        };
        let left = if self.scroll.1 >= self.cursor.1 {
            larger(self.cursor.1 - 1, 1)
        } else if self.scroll.1 + cols - 7 <= self.cursor.1 {
            self.cursor.1 + 8 - cols
        } else {
            self.scroll.1
        };
        BufferView { scroll: (top, left), ..self }
    }

    /// Each sum and each difference that `scrolled` takes on the way to its result
    /// is a number that a `usize` can hold.
    pub open spec fn can_scroll(self, rows: int, cols: int) -> bool {
        can_scroll_from(self.cursor, self.scroll, rows, cols)
    }

    /// The buffer with the cursor brought back into the text: up to the last line
    /// where it stood below it, and to the column that it heads for or the last
    /// column that it can stand in on its line, whichever comes first.
    pub open spec fn clamped(self) -> BufferView {
        let row = smaller(self.cursor.0, self.text.len() as int);
        let on_line = BufferView { cursor: (row, self.cursor.1), ..self };
        BufferView {
            cursor: (row, smaller(self.cursor_col_goal, larger(on_line.line_end(), 1))),
            ..self
        }
    }

    /// The buffer with the cursor brought back into the text, and scrolled so
    /// that the cursor is in view.
    pub open spec fn settled(self, rows: int, cols: int) -> BufferView {
        self.clamped().scrolled(rows, cols)
    }

    /// The cursor can be brought back into the text and into view.
    pub open spec fn can_settle(self, rows: int, cols: int) -> bool {
        self.cursor.0 >= 1 && self.clamped().can_scroll(rows, cols)
    }

    /// The buffer with the cursor `n` rows up, or in the first row where there
    /// are not as many above it.
    pub open spec fn raised(self, n: int) -> BufferView {
        BufferView { cursor: (self.cursor.0 - smaller(n, self.cursor.0 - 1), self.cursor.1), ..self }
    }

    /// The buffer with the cursor `n` rows down, or in the last row where there
    /// are not as many below it.
    pub open spec fn lowered(self, n: int) -> BufferView {
        BufferView {
            cursor: (smaller(self.text.len() as int, self.cursor.0 + n), self.cursor.1),
            ..self
        }
    }

    /// The buffer with the cursor `n` columns to the left, or in the first column
    /// where there are not as many before it, and heading for that column.
    pub open spec fn shifted_left(self, n: int) -> BufferView {
        let col = self.cursor.1 - smaller(n, self.cursor.1 - 1);
        BufferView { cursor: (self.cursor.0, col), cursor_col_goal: col, ..self }
    }

    /// The buffer with the cursor `n` columns to the right, or in the last column
    /// that it can stand in where there are not as many behind it, and heading for
    /// that column.
    pub open spec fn shifted_right(self, n: int) -> BufferView {
        let col = smaller(self.cursor.1 + n, self.line_end());
        BufferView { cursor: (self.cursor.0, col), cursor_col_goal: col, ..self }
    }
}

impl Buffer {
    /// Whether the buffer can be scrolled to bring the cursor into view.
    pub fn can_scroll(&self, rows: usize, cols: usize) -> (ok: bool)
        ensures
            ok == self@.can_scroll(rows as int, cols as int),
    {
        scroll_guard(self.cursor, self.scroll, rows, cols)
    }

    /// Whether the cursor can be brought back into the text and into view.
    pub fn can_settle(&self, rows: usize, cols: usize) -> (ok: bool)
        requires
            self@.wf(),
        ensures
            ok == self@.can_settle(rows as int, cols as int),
    {
        broadcast use lemma_line_deep_view;

        if self.cursor.0 < 1 {
            return false;
        }
        let row = if self.cursor.0 <= self.contents.len() {
            self.cursor.0
        } else {
            self.contents.len()
        };
        let len = self.contents[row - 1].len();
        assert(self@.text[row - 1].len() < usize::MAX);
        let end = len + if self.mode == Mode::Normal {
            0
        } else {
            1
        };
        let mx = if end >= 1 {
            end
        } else {
            1
        };
        let col = if self.cursor_col_goal <= mx {
            self.cursor_col_goal
        } else {
            mx
        };
        scroll_guard((row, col), self.scroll, rows, cols)
    }
}

/// Scrolls so that the cursor is in view on a surface of `rows` rows and `cols`
/// columns.
pub fn update_scroll(buf: &mut Buffer, rows: usize, cols: usize)
    requires
        old(buf)@.can_scroll(rows as int, cols as int),
    ensures
        final(buf)@ == old(buf)@.scrolled(rows as int, cols as int),
{
    if buf.cursor.0 > 10 && buf.cursor.0 < 10 + buf.scroll.0 {
        buf.scroll.0 = if buf.cursor.0 - 10 >= 1 {
            buf.cursor.0 - 10
        } else {
            1
        };
    } else if buf.cursor.0 > buf.scroll.0 + rows - 12 {
        buf.scroll.0 = buf.cursor.0 + 12 - rows;
    }
    if buf.scroll.1 >= buf.cursor.1 {
        buf.scroll.1 = if buf.cursor.1 - 1 >= 1 {
            buf.cursor.1 - 1
        } else {
            1
        };
    } else if buf.scroll.1 + cols - 7 <= buf.cursor.1 {
        buf.scroll.1 = buf.cursor.1 + 8 - cols;
    }
}

/// Brings the cursor back into the text, and scrolls so that it is in view on a
/// surface of `rows` rows and `cols` columns.
pub fn update_cursor(buf: &mut Buffer, rows: usize, cols: usize)
    requires
        old(buf)@.wf(),
        old(buf)@.can_settle(rows as int, cols as int),
    ensures
        final(buf)@ == old(buf)@.settled(rows as int, cols as int),
        final(buf)@.wf(),
        final(buf)@.cursor_on_line(),
{
    broadcast use lemma_line_deep_view;

    if buf.cursor.0 > buf.contents.len() {
        buf.cursor.0 = buf.contents.len();
    }
    let len = buf.contents[buf.cursor.0 - 1].len();
    assert(buf@.text[buf.cursor.0 - 1].len() < usize::MAX);
    let end = len + if buf.mode == Mode::Normal {
        0
    } else {
        1
    };
    let mx = if end >= 1 {
        end
    } else {
        1
    };
    buf.cursor.1 = if buf.cursor_col_goal <= mx {
        buf.cursor_col_goal
    } else {
        mx
    };
    update_scroll(buf, rows, cols);
}

impl BufferView {
    /// The buffer with the session that is recorded, if one is, snipped at `time`.
    pub open spec fn snipped(self, time: int) -> BufferView {
        BufferView { history: self.history.snipped(time), ..self }
    }

    /// The buffer after a move of the cursor up by `n` rows at `time`: in the first
    /// row nothing happens; else the cursor moves as far as there are rows and is
    /// brought into view, and the session that is recorded is snipped.
    pub open spec fn moved_up(self, rows: int, cols: int, n: int, time: int) -> BufferView {
        if self.cursor.0 > 1 {
            self.raised(n).settled(rows, cols).snipped(time)
        } else {
            self
        }
    }

    /// The buffer after a move of the cursor down by `n` rows at `time`: in the last
    /// row nothing happens; else the cursor moves as far as there are rows and is
    /// brought into view, and the session that is recorded is snipped.
    pub open spec fn moved_down(self, rows: int, cols: int, n: int, time: int) -> BufferView {
        if self.cursor.0 < self.text.len() {
            self.lowered(n).settled(rows, cols).snipped(time)
        } else {
            self
        }
    }

    /// The buffer after a move of the cursor to the left by `n` columns at `time`:
    /// in the first column nothing happens; else the cursor moves as far as there
    /// are columns and is scrolled into view, and the session that is recorded is
    /// snipped.
    pub open spec fn moved_left(self, rows: int, cols: int, n: int, time: int) -> BufferView {
        if self.cursor.1 > 1 {
            self.shifted_left(n).scrolled(rows, cols).snipped(time)
        } else {
            self
        }
    }

    /// The buffer after a move of the cursor to the right by `n` columns at `time`:
    /// in the last column that it can stand in nothing happens; else the cursor
    /// moves as far as its line lets it and is scrolled into view, and the session
    /// that is recorded is snipped.
    pub open spec fn moved_right(self, rows: int, cols: int, n: int, time: int) -> BufferView {
        if self.cursor.1 < self.line_end() {
            self.shifted_right(n).scrolled(rows, cols).snipped(time)
        } else {
            self
        }
    }

    /// A move of the cursor up by `n` rows can bring it into view.
    pub open spec fn can_move_up(self, rows: int, cols: int, n: int) -> bool {
        self.cursor.0 > 1 ==> self.raised(n).can_settle(rows, cols)
    }

    /// A move of the cursor down by `n` rows can bring it into view.
    pub open spec fn can_move_down(self, rows: int, cols: int, n: int) -> bool {
        self.cursor.0 < self.text.len() ==> self.lowered(n).can_settle(rows, cols)
    }

    /// A move of the cursor to the left by `n` columns can scroll it into view.
    pub open spec fn can_move_left(self, rows: int, cols: int, n: int) -> bool {
        self.cursor.1 > 1 ==> self.shifted_left(n).can_scroll(rows, cols)
    }

    /// A move of the cursor to the right by `n` columns can scroll it into view.
    pub open spec fn can_move_right(self, rows: int, cols: int, n: int) -> bool {
        &&& self.cursor_on_line()
        &&& self.cursor.1 < self.line_end() ==> self.shifted_right(n).can_scroll(rows, cols)
    }
}

/// Moves the cursor up by `n` rows, as of `time`.
pub fn up_at(buf: &mut Buffer, rows: usize, cols: usize, n: usize, time: i128)
    requires
        old(buf)@.wf(),
        old(buf)@.can_move_up(rows as int, cols as int, n as int),
    ensures
        final(buf)@ == old(buf)@.moved_up(rows as int, cols as int, n as int, time as int),
        final(buf)@.wf(),
{
    if buf.cursor.0 > 1 {
        let by = if n <= buf.cursor.0 - 1 {
            n
        } else {
            buf.cursor.0 - 1
        };
        buf.cursor.0 -= by;
        update_cursor(buf, rows, cols);
        let _ = buf.history.snip_record_at(time);
    }
}

/// Moves the cursor down by `n` rows, as of `time`.
pub fn down_at(buf: &mut Buffer, rows: usize, cols: usize, n: usize, time: i128)
    requires
        old(buf)@.wf(),
        old(buf)@.can_move_down(rows as int, cols as int, n as int),
    ensures
        final(buf)@ == old(buf)@.moved_down(rows as int, cols as int, n as int, time as int),
        final(buf)@.wf(),
{
    let len = buf.contents.len();
    if buf.cursor.0 < len {
        buf.cursor.0 = if n >= len - buf.cursor.0 {
            len
        } else {
            buf.cursor.0 + n
        };
        update_cursor(buf, rows, cols);
        let _ = buf.history.snip_record_at(time);
    }
}

/// Moves the cursor to the left by `n` columns, as of `time`.
pub fn left_at(buf: &mut Buffer, rows: usize, cols: usize, n: usize, time: i128)
    requires
        old(buf)@.wf(),
        old(buf)@.can_move_left(rows as int, cols as int, n as int),
    ensures
        final(buf)@ == old(buf)@.moved_left(rows as int, cols as int, n as int, time as int),
        final(buf)@.wf(),
{
    if buf.cursor.1 > 1 {
        let by = if n <= buf.cursor.1 - 1 {
            n
        } else {
            buf.cursor.1 - 1
        };
        buf.cursor.1 -= by;
        buf.cursor_col_goal = buf.cursor.1;
        update_scroll(buf, rows, cols);
        let _ = buf.history.snip_record_at(time);
    }
}

/// Moves the cursor to the right by `n` columns, as of `time`.
pub fn right_at(buf: &mut Buffer, rows: usize, cols: usize, n: usize, time: i128)
    requires
        old(buf)@.wf(),
        old(buf)@.can_move_right(rows as int, cols as int, n as int),
    ensures
        final(buf)@ == old(buf)@.moved_right(rows as int, cols as int, n as int, time as int),
        final(buf)@.wf(),
{
    broadcast use lemma_line_deep_view;

    let len = buf.contents[buf.cursor.0 - 1].len();
    assert(buf@.text[buf.cursor.0 - 1].len() < usize::MAX);
    let mx = len + if buf.mode == Mode::Normal {
        0
    } else {
        1
    };
    if buf.cursor.1 < mx {
        buf.cursor.1 = if n >= mx - buf.cursor.1 {
            mx
        } else {
            buf.cursor.1 + n
        };
        buf.cursor_col_goal = buf.cursor.1;
        update_scroll(buf, rows, cols);
        let _ = buf.history.snip_record_at(time);
    }
}

/// Moves the cursor up by `n` rows, as far as there are rows, brings it into view,
/// and snips the session that is recorded. In the first row nothing is done.
pub fn up(buf: &mut Buffer, rows: usize, cols: usize, n: usize)
    requires
        old(buf)@.wf(),
        old(buf)@.can_move_up(rows as int, cols as int, n as int),
    ensures
        exists|time: int|
            final(buf)@ == #[trigger] old(buf)@.moved_up(rows as int, cols as int, n as int, time),
        final(buf)@.wf(),
{
    let time = now();
    up_at(buf, rows, cols, n, time);
    assert(buf@ == old(buf)@.moved_up(rows as int, cols as int, n as int, time as int));
}

/// Moves the cursor down by `n` rows, as far as there are rows, brings it into
/// view, and snips the session that is recorded. In the last row, or below it,
/// nothing is done.
pub fn down(buf: &mut Buffer, rows: usize, cols: usize, n: usize)
    requires
        old(buf)@.wf(),
        old(buf)@.can_move_down(rows as int, cols as int, n as int),
    ensures
        exists|time: int|
            final(buf)@ == #[trigger] old(buf)@.moved_down(rows as int, cols as int, n as int, time),
        final(buf)@.wf(),
{
    let time = now();
    down_at(buf, rows, cols, n, time);
    assert(buf@ == old(buf)@.moved_down(rows as int, cols as int, n as int, time as int));
}

/// Moves the cursor to the left by `n` columns, as far as there are columns, makes
/// that the column that it heads for, scrolls it into view, and snips the session
/// that is recorded. In the first column nothing is done.
pub fn left(buf: &mut Buffer, rows: usize, cols: usize, n: usize)
    requires
        old(buf)@.wf(),
        old(buf)@.can_move_left(rows as int, cols as int, n as int),
    ensures
        exists|time: int|
            final(buf)@ == #[trigger] old(buf)@.moved_left(rows as int, cols as int, n as int, time),
        final(buf)@.wf(),
{
    let time = now();
    left_at(buf, rows, cols, n, time);
    assert(buf@ == old(buf)@.moved_left(rows as int, cols as int, n as int, time as int));
}

/// Moves the cursor to the right by `n` columns, as far as its line lets it, makes
/// that the column that it heads for, scrolls it into view, and snips the session
/// that is recorded. In the last column that it can stand in, or behind it,
/// nothing is done.
pub fn right(buf: &mut Buffer, rows: usize, cols: usize, n: usize)
    requires
        old(buf)@.wf(),
        old(buf)@.can_move_right(rows as int, cols as int, n as int),
    ensures
        exists|time: int|
            final(buf)@ == #[trigger] old(buf)@.moved_right(
                rows as int,
                cols as int,
                n as int,
                time,
            ),
        final(buf)@.wf(),
{
    let time = now();
    right_at(buf, rows, cols, n, time);
    assert(buf@ == old(buf)@.moved_right(rows as int, cols as int, n as int, time as int));
}

} // verus!
