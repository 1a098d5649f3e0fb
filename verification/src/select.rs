use crate::action::{at, ActionView};
use crate::buffer::{Buffer, BufferView, Mode};
use crate::common::{copy_lines, lemma_line_deep_view, split, split_text, Coord, String32};
use crate::edit::{
    char_removal, get_lines, get_text, insert_char_at, insert_lines_at, insert_text_at,
    insertion, lines_insertion, lines_removal, remove_char_at, remove_lines_at, remove_text_at,
    removal,
};
use crate::effect::{holdable, step_fits, step_result};
use crate::motion::larger;
use crate::text::{at_or_before, in_text, span, Pos, Text};
use crate::undo::now;
use vstd::prelude::*;

verus! {

/// The position that follows `p` in `t`: the next column, or the beginning of the
/// next line behind the end of a line, or `p` itself at the end of the text.
pub open spec fn behind(t: Text, p: Pos) -> Pos {
    if p.1 <= t[p.0 - 1].len() {
        (p.0, p.1 + 1)
    } else if p.0 < t.len() {
        (p.0 + 1, 1)
    } else {
        p
    }
}

impl BufferView {
    /// The two ends of the selection, the earlier one first: the place where the
    /// selection began, and the cursor.
    pub open spec fn selection(self) -> (Pos, Pos) {
        if at_or_before(self.selection_start, self.cursor) {
            (self.selection_start, self.cursor)
        } else {
            (self.cursor, self.selection_start)
        }
    }

    /// Both ends of the selection are positions in the text.
    pub open spec fn selection_in_text(self) -> bool {
        in_text(self.text, self.selection_start) && in_text(self.text, self.cursor)
    }

    /// What is selected, as lines: in the mode that selects lines, the lines from
    /// one end of the selection to the other; else the text from one end to the
    /// other, what stands at the later end counted in.
    pub open spec fn selected(self) -> Text {
        let (start, stop) = self.selection();
        if self.mode == Mode::VisualLine {
            self.text.subrange(start.0 - 1, stop.0)
        } else {
            span(self.text, start, behind(self.text, stop))
        }
    }

    /// The action that is recorded where what is selected is taken out.
    pub open spec fn unselecting(self) -> ActionView {
        let (start, stop) = self.selection();
        if self.mode == Mode::VisualLine {
            lines_removal(self.text, start.0, stop.0)
        } else {
            removal(self.text, start, behind(self.text, stop))
        }
    }

    /// What is selected can be taken out: both ends of the selection are
    /// positions in the text, and the text without it is one that a buffer can
    /// hold.
    pub open spec fn can_unselect(self) -> bool {
        self.selection_in_text() && holdable(step_result(self.text, self.unselecting()))
    }

    /// The buffer after what is selected was taken out at `time`: the cursor is at
    /// the earlier end of the selection, in the mode that selects lines in its old
    /// column, and heads for the column that it is in.
    pub open spec fn selection_removed(self, time: int) -> BufferView {
        let (start, stop) = self.selection();
        let cursor = if self.mode == Mode::VisualLine {
            (start.0, self.cursor.1)
        } else {
            start
        };
        BufferView { cursor, cursor_col_goal: cursor.1, ..self.edited(self.unselecting(), time) }
    }
}

/// The position that follows `pos` in the text.
pub fn position_behind(buf: &Buffer, pos: Coord) -> (next: Coord)
    requires
        holdable(buf@.text),
        in_text(buf@.text, at(pos)),
    ensures
        at(next) == behind(buf@.text, at(pos)),
        in_text(buf@.text, at(next)),
        at_or_before(at(pos), at(next)),
{
    broadcast use lemma_line_deep_view;

    assert(buf@.text[pos.0 - 1].len() < usize::MAX);
    if pos.1 <= buf.contents[pos.0 - 1].len() {
        (pos.0, pos.1 + 1)
    } else if pos.0 < buf.contents.len() {
        (pos.0 + 1, 1)
    } else {
        pos
    }
}

/// The two ends of the selection, the earlier one first.
pub fn selected_bounds(buf: &Buffer) -> (ends: (Coord, Coord))
    ensures
        (at(ends.0), at(ends.1)) == buf@.selection(),
{
    if buf.selection_start.0 < buf.cursor.0 || (buf.selection_start.0 == buf.cursor.0
        && buf.selection_start.1 <= buf.cursor.1) {
        (buf.selection_start, buf.cursor)
    } else {
        (buf.cursor, buf.selection_start)
    }
}

/// What is selected, as lines.
pub fn get_selected_text(buf: &Buffer) -> (text: Vec<String32>)
    requires
        holdable(buf@.text),
        buf@.selection_in_text(),
    ensures
        text.deep_view() == buf@.selected(),
{
    let (start, stop) = selected_bounds(buf);
    if buf.mode == Mode::VisualLine {
        get_lines(buf, start.0, stop.0)
    } else {
        let end = position_behind(buf, stop);
        get_text(buf, start, end)
    }
}

/// Copies what is selected, and notes whether whole lines were copied.
pub fn yank_selected(buf: &mut Buffer)
    requires
        holdable(old(buf)@.text),
        old(buf)@.selection_in_text(),
    ensures
        final(buf)@ == (BufferView {
            clip: old(buf)@.selected(),
            clip_lines: old(buf)@.mode == Mode::VisualLine,
            ..old(buf)@
        }),
{
    buf.clip = get_selected_text(buf);
    buf.clip_lines = buf.mode == Mode::VisualLine;
}

/// Takes what is selected out of the text, and records that as done at `time`.
/// The cursor is left at the earlier end of the selection, and heads for the
/// column that it is in.
pub fn remove_selected_at(buf: &mut Buffer, time: i128)
    requires
        old(buf)@.wf(),
        old(buf)@.can_unselect(),
    ensures
        final(buf)@ == old(buf)@.selection_removed(time as int),
        final(buf)@.wf(),
{
    let (start, stop) = selected_bounds(buf);
    if buf.mode == Mode::VisualLine {
        remove_lines_at(buf, start.0, stop.0, time);
        buf.cursor.0 = start.0;
    } else {
        let end = position_behind(buf, stop);
        remove_text_at(buf, start, end, time);
        buf.cursor = start;
    }
    buf.cursor_col_goal = buf.cursor.1;
}

/// Takes what is selected out of the text, and records that as done now.
pub fn remove_selected(buf: &mut Buffer)
    requires
        old(buf)@.wf(),
        old(buf)@.can_unselect(),
    ensures
        exists|time: int| final(buf)@ == #[trigger] old(buf)@.selection_removed(time),
        final(buf)@.wf(),
{
    let time = now();
    remove_selected_at(buf, time);
    assert(buf@ == old(buf)@.selection_removed(time as int));
}

impl BufferView {
    /// The action that is recorded where `new` takes the place of what was
    /// selected: spliced in at the earlier end of the selection in the visual
    /// mode, put in as whole lines from the line of that end on in the other
    /// modes.
    pub open spec fn replacing(self, new: Text) -> ActionView {
        let start = self.selection().0;
        if self.mode == Mode::Visual {
            insertion(new, start)
        } else {
            lines_insertion(new, start.0)
        }
    }

    /// The buffer after what is selected was replaced by `new` at `time`: what was
    /// selected was taken out, `new` was put in, and the cursor is in the last
    /// line that was put in, in the column of its last character or in the first.
    pub open spec fn selection_replaced(self, new: Text, time: int) -> BufferView {
        let put = self.selection_removed(time).edited(self.replacing(new), time);
        let row = self.selection().0.0 + new.len() - 1;
        BufferView { cursor: (row, larger(1, put.text[row - 1].len() as int)), ..put }
    }

    /// `new` can take the place of what is selected.
    pub open spec fn can_replace(self, new: Text) -> bool {
        &&& self.can_unselect()
        &&& new.len() >= 1
        &&& step_fits(step_result(self.text, self.unselecting()), self.replacing(new))
    }

    /// The buffer with what the clipboard of the system holds as what was last
    /// copied, unless there is no such clipboard or it holds just that.
    pub open spec fn clipped(self, clipboard: Option<Seq<char>>) -> BufferView {
        match clipboard {
            Some(s) => if split(s) == self.clip {
                self
            } else {
                BufferView { clip: split(s), clip_lines: false, ..self }
            },
            None => self,
        }
    }

    /// Where what was last copied is pasted: whole lines go in as the line of the
    /// cursor or, pasted after the cursor, as the line below it; other text goes
    /// in at the cursor or, pasted after the cursor in a line that is not empty,
    /// one column behind it.
    pub open spec fn paste_pos(self, after: bool) -> Pos {
        if self.clip_lines {
            (self.cursor.0 + if after { 1int } else { 0int }, self.cursor.1)
        } else {
            (
                self.cursor.0,
                self.cursor.1 + if after && self.text[self.cursor.0 - 1].len() != 0 {
                    1int
                } else {
                    0int
                },
            )
        }
    }

    /// The action that is recorded where what was last copied is pasted.
    pub open spec fn pasting(self, after: bool) -> ActionView {
        if self.clip_lines {
            lines_insertion(self.clip, self.paste_pos(after).0)
        } else {
            insertion(self.clip, self.paste_pos(after))
        }
    }

    /// The buffer after what was last copied was pasted at `time`. Behind lines
    /// that were pasted the cursor is as many lines further down as were pasted;
    /// behind other text it is at the end of what was pasted. It heads for the
    /// column that it is in.
    pub open spec fn pasted(self, after: bool, time: int) -> BufferView {
        let moved = if self.clip_lines {
            BufferView { cursor: (self.cursor.0 + self.clip.len() as int, self.cursor.1), ..self }
        } else {
            self
        };
        let put = moved.edited(self.pasting(after), time);
        BufferView { cursor_col_goal: put.cursor.1, ..put }
    }

    /// What was last copied can be pasted.
    pub open spec fn can_paste(self, after: bool) -> bool {
        &&& self.cursor_on_line()
        &&& step_fits(self.text, self.pasting(after))
        &&& self.clip_lines ==> self.cursor.0 + self.clip.len() <= usize::MAX
    }
}

/// Puts `text` in the place of what is selected, and records both the taking out
/// and the putting in as done at `time`.
pub fn replace_selected_at(buf: &mut Buffer, text: &Vec<String32>, time: i128)
    requires
        old(buf)@.wf(),
        old(buf)@.can_replace(text.deep_view()),
    ensures
        final(buf)@ == old(buf)@.selection_replaced(text.deep_view(), time as int),
        final(buf)@.wf(),
{
    broadcast use lemma_line_deep_view;

    let (start, _) = selected_bounds(buf);
    let text_len = text.len();
    remove_selected_at(buf, time);
    if buf.mode == Mode::Visual {
        insert_text_at(buf, text, start, time);
    } else {
        insert_lines_at(buf, text, start.0, time);
    }
    let len = buf.contents.len();
    buf.cursor.0 = start.0 + text_len - 1;
    let width = buf.contents[buf.cursor.0 - 1].len();
    buf.cursor.1 = if 1 >= width {
        1
    } else {
        width
    };
}

/// Puts `text` in the place of what is selected, and records both the taking out
/// and the putting in as done now.
pub fn replace_selected(buf: &mut Buffer, text: &Vec<String32>)
    requires
        old(buf)@.wf(),
        old(buf)@.can_replace(text.deep_view()),
    ensures
        exists|time: int|
            final(buf)@ == #[trigger] old(buf)@.selection_replaced(text.deep_view(), time),
        final(buf)@.wf(),
{
    let time = now();
    replace_selected_at(buf, text, time);
    assert(buf@ == old(buf)@.selection_replaced(text.deep_view(), time as int));
}

/// Whether `a` and `b` hold the same lines.
pub fn same_text(a: &Vec<String32>, b: &Vec<String32>) -> (same: bool)
    ensures
        same == (a.deep_view() == b.deep_view()),
{
    broadcast use lemma_line_deep_view;

    if a.len() != b.len() {
        assert(a.deep_view().len() != b.deep_view().len());
        return false;
    }
    let mut i: usize = 0;
    while i < a.len()
        invariant
            i <= a@.len(),
            a@.len() == b@.len(),
            forall|k: int| 0 <= k < i ==> a.deep_view()[k] == b.deep_view()[k],
        decreases a@.len() - i,
    {
        let x = &a[i];
        let y = &b[i];
        if x.len() != y.len() {
            assert(a.deep_view()[i as int].len() != b.deep_view()[i as int].len());
            return false;
        }
        let mut j: usize = 0;
        while j < x.len()
            invariant
                j <= x@.len(),
                x@.len() == y@.len(),
                i < a@.len(),
                a@.len() == b@.len(),
                x@ == a.deep_view()[i as int],
                y@ == b.deep_view()[i as int],
                forall|k: int| 0 <= k < j ==> x@[k] == y@[k],
            decreases x@.len() - j,
        {
            if x[j] != y[j] {
                assert(a.deep_view()[i as int][j as int] != b.deep_view()[i as int][j as int]);
                return false;
            }
            j += 1;
        }
        assert(x@ =~= y@);
        i += 1;
    }
    assert(a.deep_view() =~= b.deep_view());
    true
}

/// What `clipboard` holds, where there is one, in the abstract.
pub open spec fn clipboard_view(clipboard: Option<&str>) -> Option<Seq<char>> {
    match clipboard {
        Some(s) => Some(s@),
        None => None,
    }
}

/// Makes what the clipboard of the system holds what was last copied, unless
/// there is no such clipboard or it holds just that.
pub fn take_clipboard(buf: &mut Buffer, clipboard: Option<&str>)
    ensures
        final(buf)@ == old(buf)@.clipped(clipboard_view(clipboard)),
{
    match clipboard {
        Some(s) => {
            let lines = split_text(s);
            if !same_text(&lines, &buf.clip) {
                buf.clip = lines;
                buf.clip_lines = false;
            }
        },
        None => {},
    }
}

/// Pastes what was last copied, at the cursor or after it, and records that as
/// done at `time`.
pub fn paste_clip_at(buf: &mut Buffer, after: bool, time: i128)
    requires
        old(buf)@.wf(),
        old(buf)@.can_paste(after),
    ensures
        final(buf)@ == old(buf)@.pasted(after, time as int),
        final(buf)@.wf(),
{
    broadcast use lemma_line_deep_view;

    let text = copy_lines(&buf.clip);
    if buf.clip_lines {
        let row = buf.cursor.0 + if after {
            1
        } else {
            0
        };
        buf.cursor.0 += text.len();
        insert_lines_at(buf, &text, row, time);
    } else {
        let col = buf.cursor.1 + if after && buf.contents[buf.cursor.0 - 1].len() != 0 {
            1
        } else {
            0
        };
        insert_text_at(buf, &text, (buf.cursor.0, col), time);
    }
    buf.cursor_col_goal = buf.cursor.1;
}

/// Pastes what was last copied, at the cursor or after it, and records that as
/// done now. Where `clipboard` is what a clipboard of the system holds, that is
/// pasted, and is from then on what was last copied.
pub fn paste_clip(buf: &mut Buffer, after: bool, clipboard: Option<&str>)
    requires
        old(buf)@.wf(),
        old(buf)@.clipped(clipboard_view(clipboard)).can_paste(after),
    ensures
        exists|time: int|
            final(buf)@ == #[trigger] old(buf)@.clipped(clipboard_view(clipboard)).pasted(
                after,
                time,
            ),
        final(buf)@.wf(),
{
    take_clipboard(buf, clipboard);
    let time = now();
    paste_clip_at(buf, after, time);
    assert(buf@ == old(buf)@.clipped(clipboard_view(clipboard)).pasted(after, time as int));
}

/// What a key of the keyboard means to the editor.
#[derive(Debug, Clone, Copy, PartialEq, Eq, Structural)]
pub enum Key {
    /// A character, the line break among them.
    Char(char),
    /// Take out what stands before the cursor.
    Backspace,
    /// Take out what stands at the cursor.
    Delete,
    /// Leave the mode.
    Esc,
    /// The four keys with arrows.
    Up,
    Down,
    Left,
    Right,
    /// Any other key.
    Other,
}

impl BufferView {
    /// The place at which `key` changes the text: the cursor, or for the key that
    /// takes out what stands before the cursor the place before it, which at the
    /// beginning of a line is the end of the line above.
    pub open spec fn key_pos(self, key: Key) -> Pos {
        match key {
            Key::Backspace => if self.cursor.1 == 1 {
                (self.cursor.0 - 1, self.text[self.cursor.0 - 2].len() as int + 1)
            } else {
                (self.cursor.0, self.cursor.1 - 1)
            },
            _ => self.cursor,
        }
    }

    /// `key` changes the text: a character always, the key that takes out what
    /// stands before the cursor unless the cursor is at the beginning of the text,
    /// the key that takes out what stands at the cursor unless the cursor is at
    /// the end of the text, and no other key.
    pub open spec fn key_edits(self, key: Key) -> bool {
        match key {
            Key::Char(cha) => true,
            Key::Backspace => self.cursor.0 > 1 || self.cursor.1 > 1,
            Key::Delete => self.cursor.0 < self.text.len() || self.cursor.1 <= self.text[self.cursor.0
                - 1].len(),
            _ => false,
        }
    }

    /// The action that is recorded where `key` changes the text.
    pub open spec fn typing(self, key: Key) -> ActionView {
        match key {
            Key::Char(cha) => ActionView::InsertChar { pos: self.cursor, cha },
            _ => char_removal(self.text, self.key_pos(key)),
        }
    }

    /// `key` can be typed: the cursor is a position in the text, and what the key
    /// leaves of the text is a text that a buffer can hold.
    pub open spec fn can_type(self, key: Key) -> bool {
        &&& in_text(self.text, self.cursor)
        &&& self.key_edits(key) ==> holdable(step_result(self.text, self.typing(key)))
    }

    /// The buffer after `key` was typed at `time`. A key that changes the text
    /// makes its edit, before which a line break snips the session that is
    /// recorded. The cursor heads for the column that it is in.
    pub open spec fn typed(self, key: Key, time: int) -> BufferView {
        let put = if self.key_edits(key) {
            if key == Key::Char('\n') {
                self.snipped(time).edited(self.typing(key), time)
            } else {
                self.edited(self.typing(key), time)
            }
        } else {
            self
        };
        BufferView { cursor_col_goal: put.cursor.1, ..put }
    }
}

/// Types `key` into the text at the cursor, and records what that changes as done
/// at `time`.
pub fn insert_key_at(buf: &mut Buffer, key: Key, time: i128)
    requires
        old(buf)@.wf(),
        old(buf)@.can_type(key),
    ensures
        final(buf)@ == old(buf)@.typed(key, time as int),
        final(buf)@.wf(),
{
    broadcast use lemma_line_deep_view;

    match key {
        Key::Char(cha) => {
            if cha == '\n' {
                let _ = buf.history.snip_record_at(time);
            }
            let pos = buf.cursor;
            insert_char_at(buf, cha, pos, time);
        },
        Key::Backspace => {
            if buf.cursor.0 > 1 || buf.cursor.1 > 1 {
                let pos = if buf.cursor.1 == 1 {
                    assert(buf@.text[buf.cursor.0 - 2].len() < usize::MAX);
                    (buf.cursor.0 - 1, buf.contents[buf.cursor.0 - 2].len() + 1)
                } else {
                    (buf.cursor.0, buf.cursor.1 - 1)
                };
                remove_char_at(buf, pos, time);
            }
        },
        Key::Delete => {
            if buf.cursor.0 < buf.contents.len() || buf.cursor.1 <= buf.contents[buf.cursor.0
                - 1].len() {
                let pos = buf.cursor;
                remove_char_at(buf, pos, time);
            }
        },
        _ => {},
    }
    buf.cursor_col_goal = buf.cursor.1;
}

/// Types `key` into the text at the cursor, and records what that changes as done
/// now. A line break first snips the session that is recorded.
pub fn insert_key(buf: &mut Buffer, key: Key)
    requires
        old(buf)@.wf(),
        old(buf)@.can_type(key),
    ensures
        exists|time: int| final(buf)@ == #[trigger] old(buf)@.typed(key, time),
        final(buf)@.wf(),
{
    let time = now();
    insert_key_at(buf, key, time);
    assert(buf@ == old(buf)@.typed(key, time as int));
}

} // verus!
