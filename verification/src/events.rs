use crate::action::{at, views, ActionView, TextAction};
use crate::buffer::{Buffer, BufferView, Mode};
use crate::common::{
    concat_lines, copy_lines, joined, lemma_line_deep_view, split, split_without_last, String32,
};
use crate::edit::{
    char_removal, do_text_action, insert_lines_at, lines_insertion, remove_char_at,
};
use crate::effect::{cursor_after, fits, goal_after, lemma_single, result, step_fits, step_result};
use crate::guard::{replay_on, replayable};
use crate::motion::{
    down_at, larger, left_at, right_at, smaller, up_at, update_cursor, update_scroll,
};
use crate::select::{
    clipboard_view, get_selected_text, insert_key_at, paste_clip_at, position_behind,
    remove_selected_at, replace_selected_at, selected_bounds, take_clipboard, yank_selected, Key,
};
use crate::text::Text;
use crate::undo::{now, HistoryView};
use vstd::prelude::*;

verus! {

/// The buttons of the mouse that the editor listens to.
#[derive(Debug, Clone, Copy, PartialEq, Eq, Structural)]
pub enum MouseButton {
    Left,
    WheelUp,
    WheelDown,
    WheelLeft,
    Other,
}

/// What the mouse does: a button is pressed, or the mouse is moved with a button
/// held down, at a column and a row of the screen, both counted from 1.
#[derive(Debug, Clone, Copy, PartialEq, Eq, Structural)]
pub enum MouseEvent {
    Press(MouseButton, u16, u16),
    Hold(u16, u16),
    Other,
}

/// What the user does.
#[derive(Debug, Clone, Copy, PartialEq, Eq, Structural)]
pub enum Event {
    Key(Key),
    Mouse(MouseEvent),
    Other,
}

/// What is left to do for the one who handed in an event.
#[derive(Debug, Clone, PartialEq, Eq)]
pub enum Reaction {
    /// Nothing.
    Done,
    /// The editor is to end.
    Quit,
    /// What was last copied has changed: it is to go to the clipboard of the
    /// system.
    Copied,
    /// The text is to be evaluated, and what that gives handed in.
    Evaluate(String),
    /// The event has met a buffer or a screen on which it cannot be carried out.
    /// What could be done before that was found has been done.
    Refused,
}

/// A `Reaction` in the abstract.
pub enum ReactionView {
    Done,
    Quit,
    Copied,
    Evaluate(Seq<char>),
    Refused,
}

impl View for Reaction {
    type V = ReactionView;

    open spec fn view(&self) -> ReactionView {
        match self {
            Reaction::Done => ReactionView::Done,
            Reaction::Quit => ReactionView::Quit,
            Reaction::Copied => ReactionView::Copied,
            Reaction::Evaluate(text) => ReactionView::Evaluate(text@),
            Reaction::Refused => ReactionView::Refused,
        }
    }
}

/// A buffer after an attempt, and whether the attempt was carried out.
pub type Attempt = (BufferView, bool);

/// The attempt `first` followed by the attempt `next`, which is made only where
/// `first` was carried out.
pub open spec fn and_then(first: Attempt, next: spec_fn(BufferView) -> Attempt) -> Attempt {
    if first.1 {
        next(first.0)
    } else {
        first
    }
}

/// The reaction to an attempt: `reaction` where it was carried out, and a refusal
/// where it was not.
pub open spec fn react(attempt: Attempt, reaction: ReactionView) -> (BufferView, ReactionView) {
    (
        attempt.0,
        if attempt.1 {
            reaction
        } else {
            ReactionView::Refused
        },
    )
}

impl BufferView {
    /// The buffer after `a` was replayed on it: the text is changed, the cursor is
    /// where the edits of `a` leave it, and the history is unlocked.
    pub open spec fn replayed(self, a: ActionView) -> BufferView {
        BufferView {
            text: result(self.text, a.steps()),
            cursor: cursor_after(self.cursor, a.steps()),
            cursor_col_goal: goal_after(self.cursor_col_goal, a.steps()),
            history: HistoryView { locked: false, ..self.history },
            ..self
        }
    }

    /// An attempt to move the cursor up.
    pub open spec fn up_tried(self, rows: int, cols: int, n: int, time: int) -> Attempt {
        if self.can_move_up(rows, cols, n) {
            (self.moved_up(rows, cols, n, time), true)
        } else {
            (self, false)
        }
    }

    /// An attempt to move the cursor down.
    pub open spec fn down_tried(self, rows: int, cols: int, n: int, time: int) -> Attempt {
        if self.can_move_down(rows, cols, n) {
            (self.moved_down(rows, cols, n, time), true)
        } else {
            (self, false)
        }
    }

    /// An attempt to move the cursor to the left.
    pub open spec fn left_tried(self, rows: int, cols: int, n: int, time: int) -> Attempt {
        if self.can_move_left(rows, cols, n) {
            (self.moved_left(rows, cols, n, time), true)
        } else {
            (self, false)
        }
    }

    /// An attempt to move the cursor to the right.
    pub open spec fn right_tried(self, rows: int, cols: int, n: int, time: int) -> Attempt {
        if self.can_move_right(rows, cols, n) {
            (self.moved_right(rows, cols, n, time), true)
        } else {
            (self, false)
        }
    }

    /// An attempt to scroll the cursor into view.
    pub open spec fn scroll_tried(self, rows: int, cols: int) -> Attempt {
        if self.can_scroll(rows, cols) {
            (self.scrolled(rows, cols), true)
        } else {
            (self, false)
        }
    }

    /// An attempt to bring the cursor back into the text and into view.
    pub open spec fn settle_tried(self, rows: int, cols: int) -> Attempt {
        if self.can_settle(rows, cols) {
            (self.settled(rows, cols), true)
        } else {
            (self, false)
        }
    }

    /// An attempt to change the mode. It is not carried out where the recording of
    /// sessions does not allow the change, or where the visual mode is to be left
    /// for the normal mode with the cursor in no line of the text.
    pub open spec fn mode_tried(self, mode: Mode, time: int) -> Attempt {
        if self.mode == Mode::Visual && mode == Mode::Normal && !self.cursor_on_line() {
            (self, false)
        } else if self.mode_refused(mode) is Some {
            (self, false)
        } else {
            (self.mode_set(mode, time), true)
        }
    }

    /// An attempt to type a key.
    pub open spec fn type_tried(self, key: Key, time: int) -> Attempt {
        if self.can_type(key) {
            (self.typed(key, time), true)
        } else {
            (self, false)
        }
    }

    /// An attempt to copy what is selected.
    pub open spec fn yank_tried(self) -> Attempt {
        if self.selection_in_text() {
            (
                BufferView {
                    clip: self.selected(),
                    clip_lines: self.mode == Mode::VisualLine,
                    ..self
                },
                true,
            )
        } else {
            (self, false)
        }
    }

    /// An attempt to take out what is selected.
    pub open spec fn unselect_tried(self, time: int) -> Attempt {
        if self.can_unselect() {
            (self.selection_removed(time), true)
        } else {
            (self, false)
        }
    }

    /// An attempt to paste what was last copied.
    pub open spec fn paste_tried(self, after: bool, time: int) -> Attempt {
        if self.can_paste(after) {
            (self.pasted(after, time), true)
        } else {
            (self, false)
        }
    }

    /// An attempt to replay an action.
    pub open spec fn replay_tried(self, a: ActionView) -> Attempt {
        if fits(self.text, a.steps()) {
            (self.replayed(a), true)
        } else {
            (self, false)
        }
    }
}

/// Moves the cursor up where that can bring it into view.
pub fn try_up(buf: &mut Buffer, rows: usize, cols: usize, n: usize, time: i128) -> (ok: bool)
    requires
        old(buf)@.wf(),
    ensures
        (final(buf)@, ok) == old(buf)@.up_tried(rows as int, cols as int, n as int, time as int),
        final(buf)@.wf(),
{
    if buf.cursor.0 > 1 {
        let at_first = buf.cursor;
        let by = if n <= buf.cursor.0 - 1 {
            n
        } else {
            buf.cursor.0 - 1
        };
        buf.cursor.0 -= by;
        let ok = buf.can_settle(rows, cols);
        buf.cursor = at_first;
        if !ok {
            return false;
        }
    }
    up_at(buf, rows, cols, n, time);
    true
}

/// Moves the cursor down where that can bring it into view.
pub fn try_down(buf: &mut Buffer, rows: usize, cols: usize, n: usize, time: i128) -> (ok: bool)
    requires
        old(buf)@.wf(),
    ensures
        (final(buf)@, ok) == old(buf)@.down_tried(rows as int, cols as int, n as int, time as int),
        final(buf)@.wf(),
{
    let len = buf.contents.len();
    if buf.cursor.0 < len {
        let at_first = buf.cursor;
        buf.cursor.0 = if n >= len - buf.cursor.0 {
            len
        } else {
            buf.cursor.0 + n
        };
        let ok = buf.can_settle(rows, cols);
        buf.cursor = at_first;
        if !ok {
            return false;
        }
    }
    down_at(buf, rows, cols, n, time);
    true
}

/// Moves the cursor to the left where that can scroll it into view.
pub fn try_left(buf: &mut Buffer, rows: usize, cols: usize, n: usize, time: i128) -> (ok: bool)
    requires
        old(buf)@.wf(),
    ensures
        (final(buf)@, ok) == old(buf)@.left_tried(rows as int, cols as int, n as int, time as int),
        final(buf)@.wf(),
{
    if buf.cursor.1 > 1 {
        let by = if n <= buf.cursor.1 - 1 {
            n
        } else {
            buf.cursor.1 - 1
        };
        let ok = crate::motion::scroll_guard(
            (buf.cursor.0, buf.cursor.1 - by),
            buf.scroll,
            rows,
            cols,
        );
        if !ok {
            return false;
        }
    }
    left_at(buf, rows, cols, n, time);
    true
}

/// Moves the cursor to the right where that can scroll it into view.
pub fn try_right(buf: &mut Buffer, rows: usize, cols: usize, n: usize, time: i128) -> (ok: bool)
    requires
        old(buf)@.wf(),
    ensures
        (final(buf)@, ok) == old(buf)@.right_tried(rows as int, cols as int, n as int, time as int),
        final(buf)@.wf(),
{
    broadcast use lemma_line_deep_view;

    if buf.cursor.0 < 1 || buf.cursor.0 > buf.contents.len() {
        return false;
    }
    let len = buf.contents[buf.cursor.0 - 1].len();
    assert(buf@.text[buf.cursor.0 - 1].len() < usize::MAX);
    let mx = len + if buf.mode == Mode::Normal {
        0
    } else {
        1
    };
    if buf.cursor.1 < mx {
        let col = if n >= mx - buf.cursor.1 {
            mx
        } else {
            buf.cursor.1 + n
        };
        let ok = crate::motion::scroll_guard((buf.cursor.0, col), buf.scroll, rows, cols);
        if !ok {
            return false;
        }
    }
    right_at(buf, rows, cols, n, time);
    true
}

/// Scrolls the cursor into view where that can be done.
pub fn try_scroll(buf: &mut Buffer, rows: usize, cols: usize) -> (ok: bool)
    ensures
        (final(buf)@, ok) == old(buf)@.scroll_tried(rows as int, cols as int),
{
    if buf.can_scroll(rows, cols) {
        update_scroll(buf, rows, cols);
        true
    } else {
        false
    }
}

/// Brings the cursor back into the text and into view where that can be done.
pub fn try_settle(buf: &mut Buffer, rows: usize, cols: usize) -> (ok: bool)
    requires
        old(buf)@.wf(),
    ensures
        (final(buf)@, ok) == old(buf)@.settle_tried(rows as int, cols as int),
        final(buf)@.wf(),
{
    if buf.can_settle(rows, cols) {
        update_cursor(buf, rows, cols);
        true
    } else {
        false
    }
}

/// Changes the mode where that is not refused.
pub fn try_mode(buf: &mut Buffer, mode: Mode, time: i128) -> (ok: bool)
    requires
        old(buf)@.wf(),
    ensures
        (final(buf)@, ok) == old(buf)@.mode_tried(mode, time as int),
        final(buf)@.wf(),
{
    if buf.mode == Mode::Visual && mode == Mode::Normal && (buf.cursor.0 < 1 || buf.cursor.0
        > buf.contents.len()) {
        return false;
    }
    buf.set_mode_at(mode, time).is_ok()
}

/// Whether both ends of the selection are positions in the text.
pub fn selection_guard(buf: &Buffer) -> (ok: bool)
    ensures
        ok == buf@.selection_in_text(),
{
    buf.holds(buf.selection_start) && buf.holds(buf.cursor)
}

/// Copies what is selected where the selection lies in the text.
pub fn try_yank(buf: &mut Buffer) -> (ok: bool)
    requires
        old(buf)@.wf(),
    ensures
        (final(buf)@, ok) == old(buf)@.yank_tried(),
        final(buf)@.wf(),
{
    if selection_guard(buf) {
        yank_selected(buf);
        true
    } else {
        false
    }
}

/// Replays `action` where it fits the text.
pub fn try_replay(buf: &mut Buffer, action: TextAction) -> (ok: bool)
    requires
        old(buf)@.wf(),
    ensures
        (final(buf)@, ok) == old(buf)@.replay_tried(action@),
        final(buf)@.wf(),
{
    if replayable(buf, &action) {
        do_text_action(buf, action);
        true
    } else {
        false
    }
}

/// Types `key` where it can be typed.
pub fn try_type(buf: &mut Buffer, key: Key, time: i128) -> (ok: bool)
    requires
        old(buf)@.wf(),
    ensures
        (final(buf)@, ok) == old(buf)@.type_tried(key, time as int),
        final(buf)@.wf(),
{
    broadcast use lemma_line_deep_view;

    if !buf.holds(buf.cursor) {
        return false;
    }
    let edit: Option<TextAction> = match key {
        Key::Char(cha) => Some(TextAction::InsertChar { pos: buf.cursor, cha }),
        Key::Backspace => if buf.cursor.0 > 1 || buf.cursor.1 > 1 {
            let pos = if buf.cursor.1 == 1 {
                assert(buf@.text[buf.cursor.0 - 2].len() < usize::MAX);
                (buf.cursor.0 - 1, buf.contents[buf.cursor.0 - 2].len() + 1)
            } else {
                (buf.cursor.0, buf.cursor.1 - 1)
            };
            Some(TextAction::RemoveChar { pos, cha: ' ' })
        } else {
            None
        },
        Key::Delete => if buf.cursor.0 < buf.contents.len() || buf.cursor.1
            <= buf.contents[buf.cursor.0 - 1].len() {
            Some(TextAction::RemoveChar { pos: buf.cursor, cha: ' ' })
        } else {
            None
        },
        _ => None,
    };
    match edit {
        Some(action) => {
            proof {
                lemma_single(buf@.text, action@);
            }
            if !replayable(buf, &action) {
                return false;
            }
        },
        None => {},
    }
    insert_key_at(buf, key, time);
    true
}

/// Takes out what is selected where that can be done.
pub fn try_unselect(buf: &mut Buffer, time: i128) -> (ok: bool)
    requires
        old(buf)@.wf(),
    ensures
        (final(buf)@, ok) == old(buf)@.unselect_tried(time as int),
        final(buf)@.wf(),
{
    if !selection_guard(buf) {
        return false;
    }
    let (start, stop) = selected_bounds(buf);
    let action = if buf.mode == Mode::VisualLine {
        TextAction::RemoveLines { start: start.0, stop: stop.0, lines: Vec::new() }
    } else {
        let end = position_behind(buf, stop);
        TextAction::Remove { start, stop: end, text: Vec::new() }
    };
    proof {
        lemma_single(buf@.text, action@);
    }
    if !replayable(buf, &action) {
        return false;
    }
    remove_selected_at(buf, time);
    true
}

/// Pastes what was last copied where that can be done.
pub fn try_paste(buf: &mut Buffer, after: bool, time: i128) -> (ok: bool)
    requires
        old(buf)@.wf(),
    ensures
        (final(buf)@, ok) == old(buf)@.paste_tried(after, time as int),
        final(buf)@.wf(),
{
    broadcast use lemma_line_deep_view;

    if buf.cursor.0 < 1 || buf.cursor.0 > buf.contents.len() {
        return false;
    }
    let action = if buf.clip_lines {
        if buf.clip.len() > usize::MAX - buf.cursor.0 {
            return false;
        }
        let row = buf.cursor.0 + if after {
            1
        } else {
            0
        };
        TextAction::InsertLines { start: row, stop: 0, lines: copy_lines(&buf.clip) }
    } else {
        let behind = after && buf.contents[buf.cursor.0 - 1].len() != 0;
        if behind && buf.cursor.1 == usize::MAX {
            assert(buf@.text[buf.cursor.0 - 1].len() < usize::MAX);
            return false;
        }
        let col = buf.cursor.1 + if behind {
            1
        } else {
            0
        };
        TextAction::Insert { start: (buf.cursor.0, col), stop: (0, 0), text: copy_lines(&buf.clip) }
    };
    proof {
        lemma_single(buf@.text, action@);
    }
    if !replayable(buf, &action) {
        return false;
    }
    paste_clip_at(buf, after, time);
    true
}

impl BufferView {
    /// The buffer after an empty line was opened at `time`, below the line of the
    /// cursor or in its place, with the cursor at its beginning.
    pub open spec fn line_opened(self, below: bool, time: int) -> BufferView {
        let row = self.cursor.0 + if below {
            1int
        } else {
            0int
        };
        BufferView {
            cursor: (row, 1),
            ..self.edited(lines_insertion(seq![Seq::empty()], row), time)
        }
    }

    /// An attempt to open an empty line. It is not carried out where the cursor is
    /// in no line of the text, or where a buffer cannot hold one line more.
    pub open spec fn open_tried(self, below: bool, time: int) -> Attempt {
        if self.cursor_on_line() && self.text.len() + 1 < usize::MAX {
            (self.line_opened(below, time), true)
        } else {
            (self, false)
        }
    }

    /// An attempt to take out the character at the cursor. In an empty line there
    /// is nothing to do. It is not carried out where the cursor is in no line of
    /// the text, or where nothing stands at the cursor that could be taken out, or
    /// where a buffer cannot hold the text that is left.
    pub open spec fn cut_tried(self, time: int) -> Attempt {
        if !self.cursor_on_line() {
            (self, false)
        } else if self.text[self.cursor.0 - 1].len() == 0 {
            (self, true)
        } else if step_fits(self.text, char_removal(self.text, self.cursor)) {
            (self.edited(char_removal(self.text, self.cursor), time), true)
        } else {
            (self, false)
        }
    }

    /// An attempt to put `new` in the place of what is selected.
    pub open spec fn replace_tried(self, new: Text, time: int) -> Attempt {
        if self.can_replace(new) {
            (self.selection_replaced(new, time), true)
        } else {
            (self, false)
        }
    }
}

/// Opens an empty line, below the line of the cursor or in its place, where that
/// can be done.
pub fn try_open(buf: &mut Buffer, below: bool, time: i128) -> (ok: bool)
    requires
        old(buf)@.wf(),
    ensures
        (final(buf)@, ok) == old(buf)@.open_tried(below, time as int),
        final(buf)@.wf(),
{
    broadcast use lemma_line_deep_view;

    if buf.cursor.0 < 1 || buf.cursor.0 > buf.contents.len() {
        return false;
    }
    if buf.contents.len() >= usize::MAX - 1 {
        return false;
    }
    let row = buf.cursor.0 + if below {
        1
    } else {
        0
    };
    let mut lines: Vec<String32> = Vec::new();
    lines.push(Vec::new());
    proof {
        let t = buf@.text;
        let new = lines.deep_view();
        assert(new =~~= seq![Seq::<char>::empty()]);
        let after = crate::text::lines_inserted(t, new, row as int);
        assert forall|i: int| 0 <= i < after.len() implies (#[trigger] after[i]).len()
            < usize::MAX by {
            if i < row - 1 {
                assert(after[i] == t[i]);
            } else if i > row - 1 {
                assert(after[i] == t[i - 1]);
            }
        }
    }
    insert_lines_at(buf, &lines, row, time);
    buf.cursor = (row, 1);
    true
}

/// Takes out the character at the cursor where that can be done.
pub fn try_cut(buf: &mut Buffer, time: i128) -> (ok: bool)
    requires
        old(buf)@.wf(),
    ensures
        (final(buf)@, ok) == old(buf)@.cut_tried(time as int),
        final(buf)@.wf(),
{
    broadcast use lemma_line_deep_view;

    if buf.cursor.0 < 1 || buf.cursor.0 > buf.contents.len() {
        return false;
    }
    if buf.contents[buf.cursor.0 - 1].len() == 0 {
        return true;
    }
    let action = TextAction::RemoveChar { pos: buf.cursor, cha: ' ' };
    proof {
        lemma_single(buf@.text, action@);
    }
    if !replayable(buf, &action) {
        return false;
    }
    let pos = buf.cursor;
    remove_char_at(buf, pos, time);
    true
}

/// Puts `text` in the place of what is selected where that can be done.
pub fn try_replace(buf: &mut Buffer, text: &Vec<String32>, time: i128) -> (ok: bool)
    requires
        old(buf)@.wf(),
    ensures
        (final(buf)@, ok) == old(buf)@.replace_tried(text.deep_view(), time as int),
        final(buf)@.wf(),
{
    if !selection_guard(buf) || text.len() < 1 {
        return false;
    }
    let (start, stop) = selected_bounds(buf);
    let taking = if buf.mode == Mode::VisualLine {
        TextAction::RemoveLines { start: start.0, stop: stop.0, lines: Vec::new() }
    } else {
        let end = position_behind(buf, stop);
        TextAction::Remove { start, stop: end, text: Vec::new() }
    };
    let putting = if buf.mode == Mode::Visual {
        TextAction::Insert { start, stop: (0, 0), text: copy_lines(text) }
    } else {
        TextAction::InsertLines { start: start.0, stop: 0, lines: copy_lines(text) }
    };
    let mut copy = copy_lines(&buf.contents);
    proof {
        lemma_single(buf@.text, taking@);
        lemma_single(step_result(buf@.text, taking@), putting@);
    }
    if !replay_on(&mut copy, &taking) {
        return false;
    }
    if !replay_on(&mut copy, &putting) {
        return false;
    }
    replace_selected_at(buf, text, time);
    true
}

impl BufferView {
    /// An attempt to replay `actions`, one after the other, as far as they fit.
    pub open spec fn replay_all_tried(self, actions: Seq<ActionView>) -> Attempt
        decreases actions.len(),
    {
        if actions.len() == 0 {
            (self, true)
        } else {
            and_then(
                self.replay_all_tried(actions.drop_last()),
                |s: BufferView| s.replay_tried(actions.last()),
            )
        }
    }

    /// The reaction to a key in the insert mode: the keys with arrows move the
    /// cursor, and every other key is typed, after which the cursor is scrolled
    /// into view.
    pub open spec fn insert_keyed(self, key: Key, rows: int, cols: int, time: int) -> (
        BufferView,
        ReactionView,
    ) {
        match key {
            Key::Up => react(self.up_tried(rows, cols, 1, time), ReactionView::Done),
            Key::Down => react(self.down_tried(rows, cols, 1, time), ReactionView::Done),
            Key::Left => react(self.left_tried(rows, cols, 1, time), ReactionView::Done),
            Key::Right => react(self.right_tried(rows, cols, 1, time), ReactionView::Done),
            _ => react(
                and_then(self.type_tried(key, time), |s: BufferView| s.scroll_tried(rows, cols)),
                ReactionView::Done,
            ),
        }
    }

    /// The reaction to a key in the two visual modes: `h`, `j`, `k` and `l` move
    /// the cursor, `y` copies what is selected, `d` copies it and takes it out,
    /// both on the way back to the normal mode, and `e` asks for what is selected
    /// in one line to be evaluated.
    pub open spec fn visual_keyed(self, key: Key, rows: int, cols: int, time: int) -> (
        BufferView,
        ReactionView,
    ) {
        if key == Key::Char('h') {
            react(self.left_tried(rows, cols, 1, time), ReactionView::Done)
        } else if key == Key::Char('l') {
            react(self.right_tried(rows, cols, 1, time), ReactionView::Done)
        } else if key == Key::Char('k') {
            react(self.up_tried(rows, cols, 1, time), ReactionView::Done)
        } else if key == Key::Char('j') {
            react(self.down_tried(rows, cols, 1, time), ReactionView::Done)
        } else if key == Key::Char('y') {
            react(
                and_then(self.yank_tried(), |s: BufferView| s.mode_tried(Mode::Normal, time)),
                ReactionView::Copied,
            )
        } else if key == Key::Char('d') {
            react(self.yank_tried().0.cut_out_tried(self.yank_tried().1, rows, cols, time),
                ReactionView::Copied,
            )
        } else if key == Key::Char('e') {
            if self.cursor.0 != self.selection_start.0 {
                (self, ReactionView::Done)
            } else if self.selection_in_text() {
                (self, ReactionView::Evaluate(joined(self.selected())))
            } else {
                (self, ReactionView::Refused)
            }
        } else {
            (self, ReactionView::Done)
        }
    }

    /// What follows the copying of what is selected where the selection is to be
    /// taken out: it is taken out, the normal mode is entered, and the cursor is
    /// brought back into the text and into view. Nothing follows where the copying
    /// was not `carried` out.
    pub open spec fn cut_out_tried(self, carried: bool, rows: int, cols: int, time: int) -> Attempt {
        and_then(
            and_then(
                and_then((self, carried), |s: BufferView| s.unselect_tried(time)),
                |s: BufferView| s.mode_tried(Mode::Normal, time),
            ),
            |s: BufferView| s.settle_tried(rows, cols),
        )
    }

    /// The reaction to undo or redo, where the history has moved to `history` and
    /// handed out `action`: the action is replayed, and the cursor brought back
    /// into the text and into view.
    pub open spec fn stepped(
        self,
        history: HistoryView,
        action: Option<ActionView>,
        rows: int,
        cols: int,
    ) -> (BufferView, ReactionView) {
        let moved = BufferView { history, ..self };
        match action {
            Some(a) => react(
                and_then(moved.replay_tried(a), |s: BufferView| s.settle_tried(rows, cols)),
                ReactionView::Done,
            ),
            None => (moved, ReactionView::Done),
        }
    }

    /// The reaction to a key in the normal mode.
    ///
    /// `q` ends the editor. `i` and `a` enter the insert mode, `a` one column to
    /// the right; `o` and `O` enter it in a new line below or above. `v` and `V`
    /// enter the visual modes. `H` shows or hides the history. `h`, `j`, `k` and
    /// `l` move the cursor. `x` takes out the character at the cursor. `d` copies
    /// the line of the cursor and takes it out, `y` copies it. `p` and `P` paste
    /// what the clipboard of the system holds, or what was last copied, after or
    /// at the cursor. `u` and `r` undo and redo.
    pub open spec fn normal_keyed(
        self,
        key: Key,
        clipboard: Option<Seq<char>>,
        rows: int,
        cols: int,
        time: int,
    ) -> (BufferView, ReactionView) {
        if key == Key::Char('q') {
            (self, ReactionView::Quit)
        } else if key == Key::Char('i') {
            react(self.mode_tried(Mode::Insert, time), ReactionView::Done)
        } else if key == Key::Char('a') {
            react(
                and_then(
                    self.mode_tried(Mode::Insert, time),
                    |s: BufferView| s.right_tried(rows, cols, 1, time),
                ),
                ReactionView::Done,
            )
        } else if key == Key::Char('o') {
            react(
                and_then(
                    self.open_tried(true, time),
                    |s: BufferView| s.mode_tried(Mode::Insert, time),
                ),
                ReactionView::Done,
            )
        } else if key == Key::Char('O') {
            react(
                and_then(
                    self.open_tried(false, time),
                    |s: BufferView| s.mode_tried(Mode::Insert, time),
                ),
                ReactionView::Done,
            )
        } else if key == Key::Char('v') {
            react(self.mode_tried(Mode::Visual, time), ReactionView::Done)
        } else if key == Key::Char('V') {
            react(self.mode_tried(Mode::VisualLine, time), ReactionView::Done)
        } else if key == Key::Char('H') {
            (BufferView { show_history: !self.show_history, ..self }, ReactionView::Done)
        } else if key == Key::Char('h') {
            react(self.left_tried(rows, cols, 1, time), ReactionView::Done)
        } else if key == Key::Char('l') {
            react(self.right_tried(rows, cols, 1, time), ReactionView::Done)
        } else if key == Key::Char('k') {
            react(self.up_tried(rows, cols, 1, time), ReactionView::Done)
        } else if key == Key::Char('j') {
            react(self.down_tried(rows, cols, 1, time), ReactionView::Done)
        } else if key == Key::Char('x') {
            react(self.cut_tried(time), ReactionView::Done)
        } else if key == Key::Char('d') {
            let picked = and_then(
                self.mode_tried(Mode::VisualLine, time),
                |s: BufferView| s.yank_tried(),
            );
            react(picked.0.cut_out_tried(picked.1, rows, cols, time), ReactionView::Copied)
        } else if key == Key::Char('y') {
            react(
                and_then(
                    and_then(
                        self.mode_tried(Mode::VisualLine, time),
                        |s: BufferView| s.yank_tried(),
                    ),
                    |s: BufferView| s.mode_tried(Mode::Normal, time),
                ),
                ReactionView::Copied,
            )
        } else if key == Key::Char('p') {
            react(
                and_then(
                    self.clipped(clipboard).paste_tried(true, time),
                    |s: BufferView| s.settle_tried(rows, cols),
                ),
                ReactionView::Done,
            )
        } else if key == Key::Char('P') {
            react(
                and_then(
                    self.clipped(clipboard).paste_tried(false, time),
                    |s: BufferView| s.settle_tried(rows, cols),
                ),
                ReactionView::Done,
            )
        } else if key == Key::Char('u') {
            self.stepped(self.history.undone(), self.history.undo_action(), rows, cols)
        } else if key == Key::Char('r') {
            self.stepped(self.history.redone(), self.history.redo_action(), rows, cols)
        } else {
            (self, ReactionView::Done)
        }
    }

    /// The reaction to a key: the key that leaves a mode enters the normal mode,
    /// and every other key means what it means in the mode that the buffer is in.
    pub open spec fn keyed(
        self,
        key: Key,
        clipboard: Option<Seq<char>>,
        rows: int,
        cols: int,
        time: int,
    ) -> (BufferView, ReactionView) {
        if key == Key::Esc {
            react(self.mode_tried(Mode::Normal, time), ReactionView::Done)
        } else {
            match self.mode {
                Mode::Insert => self.insert_keyed(key, rows, cols, time),
                Mode::Visual => self.visual_keyed(key, rows, cols, time),
                Mode::VisualLine => self.visual_keyed(key, rows, cols, time),
                Mode::Normal => self.normal_keyed(key, clipboard, rows, cols, time),
            }
        }
    }
}

/// Replays `actions`, one after the other, as far as they fit.
pub fn try_replay_all(buf: &mut Buffer, actions: &Vec<TextAction>) -> (ok: bool)
    requires
        old(buf)@.wf(),
    ensures
        (final(buf)@, ok) == old(buf)@.replay_all_tried(views(actions@)),
        final(buf)@.wf(),
{
    let ghost all = views(actions@);
    let mut i: usize = 0;
    assert(all.take(0) =~= Seq::empty());
    while i < actions.len()
        invariant
            i <= actions@.len(),
            all == views(actions@),
            (buf@, true) == old(buf)@.replay_all_tried(all.take(i as int)),
            buf@.wf(),
        decreases actions@.len() - i,
    {
        proof {
            assert(all.take(i + 1).drop_last() == all.take(i as int));
            assert(all.take(i + 1).last() == actions@[i as int]@);
        }
        let ok = try_replay(buf, actions[i].clone());
        proof {
            if !ok {
                old(buf)@.lemma_replay_all_stops(all, i + 1);
            }
        }
        if !ok {
            return false;
        }
        i += 1;
    }
    assert(all.take(all.len() as int) == all);
    true
}

impl BufferView {
    /// Where the first `n` of `actions` cannot all be replayed, the attempt to
    /// replay `actions` ends as the attempt to replay the first `n` does.
    pub proof fn lemma_replay_all_stops(self, actions: Seq<ActionView>, n: int)
        requires
            0 <= n <= actions.len(),
            !self.replay_all_tried(actions.take(n)).1,
        ensures
            self.replay_all_tried(actions) == self.replay_all_tried(actions.take(n)),
        decreases actions.len() - n,
    {
        if n == actions.len() {
            assert(actions.take(n) == actions);
        } else {
            assert(actions.take(n + 1).drop_last() == actions.take(n));
            self.lemma_replay_all_stops(actions, n + 1);
        }
    }
}

/// Reacts to a key in the insert mode.
pub fn insert_mode_key(buf: &mut Buffer, key: Key, rows: usize, cols: usize, time: i128) -> (reaction:
    Reaction)
    requires
        old(buf)@.wf(),
    ensures
        (final(buf)@, reaction@) == old(buf)@.insert_keyed(
            key,
            rows as int,
            cols as int,
            time as int,
        ),
        final(buf)@.wf(),
{
    let ok = match key {
        Key::Up => try_up(buf, rows, cols, 1, time),
        Key::Down => try_down(buf, rows, cols, 1, time),
        Key::Left => try_left(buf, rows, cols, 1, time),
        Key::Right => try_right(buf, rows, cols, 1, time),
        _ => try_type(buf, key, time) && try_scroll(buf, rows, cols),
    };
    if ok {
        Reaction::Done
    } else {
        Reaction::Refused
    }
}

/// Takes out what is selected, enters the normal mode, and brings the cursor back
/// into the text and into view, as far as that can be done.
pub fn try_cut_out(buf: &mut Buffer, rows: usize, cols: usize, time: i128) -> (ok: bool)
    requires
        old(buf)@.wf(),
    ensures
        (final(buf)@, ok) == old(buf)@.cut_out_tried(true, rows as int, cols as int, time as int),
        final(buf)@.wf(),
{
    try_unselect(buf, time) && try_mode(buf, Mode::Normal, time) && try_settle(buf, rows, cols)
}

/// Reacts to a key in one of the visual modes.
pub fn visual_mode_key(buf: &mut Buffer, key: Key, rows: usize, cols: usize, time: i128) -> (reaction:
    Reaction)
    requires
        old(buf)@.wf(),
    ensures
        (final(buf)@, reaction@) == old(buf)@.visual_keyed(
            key,
            rows as int,
            cols as int,
            time as int,
        ),
        final(buf)@.wf(),
{
    match key {
        Key::Char(cha) => {
            if cha == 'e' {
                if buf.cursor.0 != buf.selection_start.0 {
                    return Reaction::Done;
                }
                if !selection_guard(buf) {
                    return Reaction::Refused;
                }
                return Reaction::Evaluate(concat_lines(&get_selected_text(buf)));
            }
            let copied = cha == 'y' || cha == 'd';
            let ok = if cha == 'h' {
                try_left(buf, rows, cols, 1, time)
            } else if cha == 'l' {
                try_right(buf, rows, cols, 1, time)
            } else if cha == 'k' {
                try_up(buf, rows, cols, 1, time)
            } else if cha == 'j' {
                try_down(buf, rows, cols, 1, time)
            } else if cha == 'y' {
                try_yank(buf) && try_mode(buf, Mode::Normal, time)
            } else if cha == 'd' {
                try_yank(buf) && try_cut_out(buf, rows, cols, time)
            } else {
                return Reaction::Done;
            };
            if !ok {
                Reaction::Refused
            } else if copied {
                Reaction::Copied
            } else {
                Reaction::Done
            }
        },
        _ => Reaction::Done,
    }
}

/// Replays what undo or redo has handed out, and brings the cursor back into the
/// text and into view.
pub fn step_history(buf: &mut Buffer, action: Option<TextAction>, rows: usize, cols: usize) -> (reaction:
    Reaction)
    requires
        old(buf)@.wf(),
    ensures
        (final(buf)@, reaction@) == old(buf)@.stepped(
            old(buf)@.history,
            match action {
                Some(a) => Some(a@),
                None => None,
            },
            rows as int,
            cols as int,
        ),
        final(buf)@.wf(),
{
    match action {
        Some(a) => {
            if try_replay(buf, a) && try_settle(buf, rows, cols) {
                Reaction::Done
            } else {
                Reaction::Refused
            }
        },
        None => Reaction::Done,
    }
}

/// Reacts to a key in the normal mode.
pub fn normal_mode_key(
    buf: &mut Buffer,
    key: Key,
    clipboard: Option<&str>,
    rows: usize,
    cols: usize,
    time: i128,
) -> (reaction: Reaction)
    requires
        old(buf)@.wf(),
    ensures
        (final(buf)@, reaction@) == old(buf)@.normal_keyed(
            key,
            clipboard_view(clipboard),
            rows as int,
            cols as int,
            time as int,
        ),
        final(buf)@.wf(),
{
    match key {
        Key::Char(cha) => {
            if cha == 'q' {
                return Reaction::Quit;
            }
            if cha == 'H' {
                buf.show_history = !buf.show_history;
                return Reaction::Done;
            }
            if cha == 'u' {
                let back = buf.history.undo();
                return step_history(buf, back, rows, cols);
            }
            if cha == 'r' {
                let forth = buf.history.redo();
                return step_history(buf, forth, rows, cols);
            }
            let copied = cha == 'y' || cha == 'd';
            let ok = if cha == 'i' {
                try_mode(buf, Mode::Insert, time)
            } else if cha == 'a' {
                try_mode(buf, Mode::Insert, time) && try_right(buf, rows, cols, 1, time)
            } else if cha == 'o' {
                try_open(buf, true, time) && try_mode(buf, Mode::Insert, time)
            } else if cha == 'O' {
                try_open(buf, false, time) && try_mode(buf, Mode::Insert, time)
            } else if cha == 'v' {
                try_mode(buf, Mode::Visual, time)
            } else if cha == 'V' {
                try_mode(buf, Mode::VisualLine, time)
            } else if cha == 'h' {
                try_left(buf, rows, cols, 1, time)
            } else if cha == 'l' {
                try_right(buf, rows, cols, 1, time)
            } else if cha == 'k' {
                try_up(buf, rows, cols, 1, time)
            } else if cha == 'j' {
                try_down(buf, rows, cols, 1, time)
            } else if cha == 'x' {
                try_cut(buf, time)
            } else if cha == 'd' {
                try_mode(buf, Mode::VisualLine, time) && try_yank(buf) && try_cut_out(
                    buf,
                    rows,
                    cols,
                    time,
                )
            } else if cha == 'y' {
                try_mode(buf, Mode::VisualLine, time) && try_yank(buf) && try_mode(
                    buf,
                    Mode::Normal,
                    time,
                )
            } else if cha == 'p' {
                take_clipboard(buf, clipboard);
                try_paste(buf, true, time) && try_settle(buf, rows, cols)
            } else if cha == 'P' {
                take_clipboard(buf, clipboard);
                try_paste(buf, false, time) && try_settle(buf, rows, cols)
            } else {
                return Reaction::Done;
            };
            if !ok {
                Reaction::Refused
            } else if copied {
                Reaction::Copied
            } else {
                Reaction::Done
            }
        },
        _ => Reaction::Done,
    }
}

/// Reacts to a key.
pub fn handle_key(
    buf: &mut Buffer,
    key: Key,
    clipboard: Option<&str>,
    rows: usize,
    cols: usize,
    time: i128,
) -> (reaction: Reaction)
    requires
        old(buf)@.wf(),
    ensures
        (final(buf)@, reaction@) == old(buf)@.keyed(
            key,
            clipboard_view(clipboard),
            rows as int,
            cols as int,
            time as int,
        ),
        final(buf)@.wf(),
{
    match key {
        Key::Esc => {
            if try_mode(buf, Mode::Normal, time) {
                Reaction::Done
            } else {
                Reaction::Refused
            }
        },
        _ => match buf.mode {
            Mode::Insert => insert_mode_key(buf, key, rows, cols, time),
            Mode::Visual => visual_mode_key(buf, key, rows, cols, time),
            Mode::VisualLine => visual_mode_key(buf, key, rows, cols, time),
            Mode::Normal => normal_mode_key(buf, key, clipboard, rows, cols, time),
        },
    }
}

/// `a + b - c`, where that is a number that a `usize` can hold.
pub fn offset(a: u16, b: usize, c: usize) -> (sum: Option<usize>)
    ensures
        match sum {
            Some(n) => n == a + b - c,
            None => a + b - c < 0 || a + b - c > usize::MAX,
        },
{
    let up: u128 = a as u128 + b as u128;
    if up < c as u128 {
        None
    } else {
        let n: u128 = up - c as u128;
        if n > usize::MAX as u128 {
            None
        } else {
            Some(n as usize)
        }
    }
}

impl BufferView {
    /// An attempt to put the cursor at `row` and `col`, and to let it head for
    /// `col`. It is not carried out where these are no numbers that a `usize` can
    /// hold.
    pub open spec fn pointed(self, row: int, col: int) -> Attempt {
        if 0 <= row <= usize::MAX && 0 <= col <= usize::MAX {
            (BufferView { cursor: (row, col), cursor_col_goal: col, ..self }, true)
        } else {
            (self, false)
        }
    }

    /// The column of the text that is shown in column `col` of the part of the
    /// screen that shows the text, behind the line numbers.
    pub open spec fn text_col(self, col: int) -> int {
        if col <= 6 {
            1
        } else {
            col + self.scroll.1 - 7
        }
    }

    /// The reaction to a click on row `mrow` of the browser of the history: the
    /// history moves to the node in that row, the normal mode is entered, the
    /// actions that lead to the text at that node are replayed, and the cursor is
    /// brought back into the text and into view.
    pub open spec fn history_clicked(self, mrow: int, rows: int, cols: int, time: int) -> (
        BufferView,
        ReactionView,
    ) {
        let row = mrow + self.history.scroll - 1;
        if 0 <= row <= usize::MAX {
            let path = self.history.row_to_path(row);
            let moved = BufferView {
                history: match path {
                    Some(p) => self.history.gone_to(p),
                    None => self.history,
                },
                ..self
            };
            let way = match path {
                Some(p) => if self.history.root.has(p) {
                    self.history.way_to(p)
                } else {
                    Seq::empty()
                },
                None => Seq::empty(),
            };
            react(
                and_then(
                    and_then(
                        moved.mode_tried(Mode::Normal, time),
                        |s: BufferView| s.replay_all_tried(way),
                    ),
                    |s: BufferView| s.settle_tried(rows, cols),
                ),
                ReactionView::Done,
            )
        } else {
            (self, ReactionView::Refused)
        }
    }

    /// The reaction to a click on column `hcol` and row `mrow` of the part of the
    /// screen that shows the text: the visual mode is left, the session that is
    /// recorded is snipped, and the cursor goes to the place of the click, as far
    /// as the text reaches.
    pub open spec fn text_clicked(self, hcol: int, mrow: int, rows: int, cols: int, time: int) -> (
        BufferView,
        ReactionView,
    ) {
        let calm = if self.mode == Mode::Visual {
            self.mode_tried(Mode::Normal, time)
        } else {
            (self, true)
        };
        react(
            and_then(
                and_then(
                    calm,
                    |s: BufferView| s.pointed(mrow + s.scroll.0 - 1, s.text_col(hcol)),
                ),
                |s: BufferView| s.snipped(time).settle_tried(rows, cols),
            ),
            ReactionView::Done,
        )
    }

    /// The reaction to the wheel of the mouse turned up: the text scrolls up by
    /// three rows, as far as there are rows, the cursor stays in view, and the
    /// browser of the history scrolls up by one row.
    pub open spec fn wheeled_up(self, rows: int, cols: int) -> (BufferView, ReactionView) {
        let top = larger(4, self.scroll.0) - 3;
        let up = BufferView { scroll: (top, self.scroll.1), ..self };
        let bottom = top + rows - 12;
        if 12 <= top + rows <= usize::MAX {
            let kept = BufferView {
                cursor: (smaller(self.cursor.0, bottom), self.cursor.1),
                ..up
            };
            let settled = kept.settle_tried(rows, cols);
            if settled.1 {
                (
                    BufferView {
                        history: HistoryView {
                            scroll: if self.history.scroll > 1 {
                                self.history.scroll - 1
                            } else {
                                self.history.scroll
                            },
                            ..settled.0.history
                        },
                        ..settled.0
                    },
                    ReactionView::Done,
                )
            } else {
                (settled.0, ReactionView::Refused)
            }
        } else {
            (up, ReactionView::Refused)
        }
    }

    /// The reaction to the wheel of the mouse turned down, or to the left: the
    /// text scrolls down by three rows, as far as there are rows, and the cursor
    /// stays in view. Turned down, the wheel scrolls the browser of the history
    /// down by one row too.
    pub open spec fn wheeled_down(self, rows: int, cols: int, history_too: bool) -> (
        BufferView,
        ReactionView,
    ) {
        let top = smaller(self.text.len() as int, self.scroll.0 + 3);
        let down = BufferView { scroll: (top, self.scroll.1), ..self };
        let low = 10 + top;
        if low <= usize::MAX {
            let kept = BufferView { cursor: (larger(self.cursor.0, low), self.cursor.1), ..down };
            let settled = kept.settle_tried(rows, cols);
            if !settled.1 {
                (settled.0, ReactionView::Refused)
            } else if !history_too {
                (settled.0, ReactionView::Done)
            } else if self.history.scroll + 1 <= usize::MAX {
                (
                    BufferView {
                        history: HistoryView {
                            scroll: self.history.scroll + 1,
                            ..settled.0.history
                        },
                        ..settled.0
                    },
                    ReactionView::Done,
                )
            } else {
                (settled.0, ReactionView::Refused)
            }
        } else {
            (down, ReactionView::Refused)
        }
    }

    /// The reaction to the mouse moved with a button held down: the visual mode is
    /// entered, and the cursor goes to the place of the mouse, as far as the text
    /// reaches. Over the browser of the history only the mode is entered.
    pub open spec fn held(self, mcol: int, mrow: int, rows: int, cols: int, time: int) -> (
        BufferView,
        ReactionView,
    ) {
        let seeing = self.mode_tried(Mode::Visual, time);
        let col = seeing.0.text_col(mcol);
        if !seeing.1 || col > usize::MAX {
            (seeing.0, ReactionView::Refused)
        } else if self.show_history && col <= 40 {
            (seeing.0, ReactionView::Done)
        } else {
            react(
                and_then(
                    seeing.0.pointed(
                        mrow + seeing.0.scroll.0 - 1,
                        if self.show_history {
                            col - 39
                        } else {
                            col
                        },
                    ),
                    |s: BufferView| s.settle_tried(rows, cols),
                ),
                ReactionView::Done,
            )
        }
    }

    /// The reaction to the mouse.
    pub open spec fn moused(self, mouse: MouseEvent, rows: int, cols: int, time: int) -> (
        BufferView,
        ReactionView,
    ) {
        match mouse {
            MouseEvent::Press(MouseButton::Left, mcol, mrow) => if self.show_history && mcol <= 39 {
                self.history_clicked(mrow as int, rows, cols, time)
            } else {
                self.text_clicked(
                    if self.show_history {
                        mcol - 39
                    } else {
                        mcol as int
                    },
                    mrow as int,
                    rows,
                    cols,
                    time,
                )
            },
            MouseEvent::Press(MouseButton::WheelUp, mcol, mrow) => self.wheeled_up(rows, cols),
            MouseEvent::Press(MouseButton::WheelDown, mcol, mrow) => self.wheeled_down(
                rows,
                cols,
                true,
            ),
            MouseEvent::Press(MouseButton::WheelLeft, mcol, mrow) => self.wheeled_down(
                rows,
                cols,
                false,
            ),
            MouseEvent::Hold(mcol, mrow) => self.held(mcol as int, mrow as int, rows, cols, time),
            _ => (self, ReactionView::Done),
        }
    }

    /// The reaction to what the evaluation of the selected text has printed: what
    /// was printed, without the line break at its end, takes the place of what is
    /// selected, the normal mode is entered, and the cursor is scrolled into view.
    pub open spec fn evaluated(self, printed: Seq<char>, rows: int, cols: int, time: int) -> (
        BufferView,
        ReactionView,
    ) {
        if printed.len() == 0 {
            (self, ReactionView::Refused)
        } else {
            react(
                and_then(
                    and_then(
                        self.replace_tried(split(printed.drop_last()), time),
                        |s: BufferView| s.mode_tried(Mode::Normal, time),
                    ),
                    |s: BufferView| s.scroll_tried(rows, cols),
                ),
                ReactionView::Done,
            )
        }
    }

    /// The reaction to an event.
    pub open spec fn handled(
        self,
        evt: Event,
        clipboard: Option<Seq<char>>,
        rows: int,
        cols: int,
        time: int,
    ) -> (BufferView, ReactionView) {
        match evt {
            Event::Key(key) => self.keyed(key, clipboard, rows, cols, time),
            Event::Mouse(mouse) => self.moused(mouse, rows, cols, time),
            Event::Other => (self, ReactionView::Done),
        }
    }
}

/// Puts the cursor at `row` and `col`, where there are such numbers.
pub fn try_point(buf: &mut Buffer, row: Option<usize>, col: Option<usize>) -> (ok: bool)
    ensures
        match (row, col) {
            (Some(r), Some(c)) => ok && final(buf)@ == (BufferView {
                cursor: (r as int, c as int),
                cursor_col_goal: c as int,
                ..old(buf)@
            }),
            _ => !ok && final(buf)@ == old(buf)@,
        },
{
    match (row, col) {
        (Some(r), Some(c)) => {
            buf.cursor = (r, c);
            buf.cursor_col_goal = c;
            true
        },
        _ => false,
    }
}

/// The column of the text that is shown in column `col` of the part of the screen
/// that shows the text, where a `usize` can hold it.
pub fn text_column(buf: &Buffer, col: u16) -> (found: Option<usize>)
    ensures
        match found {
            Some(c) => c == buf@.text_col(col as int),
            None => buf@.text_col(col as int) < 0 || buf@.text_col(col as int) > usize::MAX,
        },
{
    if col <= 6 {
        Some(1)
    } else {
        offset(col, buf.scroll.1, 7)
    }
}

/// Reacts to a click on the browser of the history.
pub fn click_history(buf: &mut Buffer, mrow: u16, rows: usize, cols: usize, time: i128) -> (reaction:
    Reaction)
    requires
        old(buf)@.wf(),
    ensures
        (final(buf)@, reaction@) == old(buf)@.history_clicked(
            mrow as int,
            rows as int,
            cols as int,
            time as int,
        ),
        final(buf)@.wf(),
{
    let row = match offset(mrow, buf.history.scroll, 1) {
        Some(row) => row,
        None => {
            return Reaction::Refused;
        },
    };
    let way = buf.history.goto_row(row);
    let actions = match way {
        Some(actions) => actions,
        None => {
            let none: Vec<TextAction> = Vec::new();
            assert(views(none@) =~= Seq::empty());
            none
        },
    };
    if try_mode(buf, Mode::Normal, time) && try_replay_all(buf, &actions) && try_settle(
        buf,
        rows,
        cols,
    ) {
        Reaction::Done
    } else {
        Reaction::Refused
    }
}

/// Reacts to a click on the text.
pub fn click_text(buf: &mut Buffer, hcol: u16, mrow: u16, rows: usize, cols: usize, time: i128) -> (reaction:
    Reaction)
    requires
        old(buf)@.wf(),
    ensures
        (final(buf)@, reaction@) == old(buf)@.text_clicked(
            hcol as int,
            mrow as int,
            rows as int,
            cols as int,
            time as int,
        ),
        final(buf)@.wf(),
{
    if buf.mode == Mode::Visual {
        if !try_mode(buf, Mode::Normal, time) {
            return Reaction::Refused;
        }
    }
    let row = offset(mrow, buf.scroll.0, 1);
    let col = text_column(buf, hcol);
    if !try_point(buf, row, col) {
        return Reaction::Refused;
    }
    let _ = buf.history.snip_record_at(time);
    if try_settle(buf, rows, cols) {
        Reaction::Done
    } else {
        Reaction::Refused
    }
}

/// Reacts to the wheel of the mouse turned up.
pub fn wheel_up(buf: &mut Buffer, rows: usize, cols: usize) -> (reaction: Reaction)
    requires
        old(buf)@.wf(),
    ensures
        (final(buf)@, reaction@) == old(buf)@.wheeled_up(rows as int, cols as int),
        final(buf)@.wf(),
{
    buf.scroll.0 = if buf.scroll.0 >= 4 {
        buf.scroll.0 - 3
    } else {
        1
    };
    if rows > usize::MAX - buf.scroll.0 || buf.scroll.0 + rows < 12 {
        return Reaction::Refused;
    }
    let bottom = buf.scroll.0 + rows - 12;
    if buf.cursor.0 > bottom {
        buf.cursor.0 = bottom;
    }
    if !try_settle(buf, rows, cols) {
        return Reaction::Refused;
    }
    if buf.history.scroll > 1 {
        buf.history.scroll -= 1;
    }
    Reaction::Done
}

/// Reacts to the wheel of the mouse turned down, or to the left.
pub fn wheel_down(buf: &mut Buffer, rows: usize, cols: usize, history_too: bool) -> (reaction:
    Reaction)
    requires
        old(buf)@.wf(),
    ensures
        (final(buf)@, reaction@) == old(buf)@.wheeled_down(rows as int, cols as int, history_too),
        final(buf)@.wf(),
{
    let len = buf.contents.len();
    buf.scroll.0 = if buf.scroll.0 >= len || 3 >= len - buf.scroll.0 {
        len
    } else {
        buf.scroll.0 + 3
    };
    if buf.scroll.0 > usize::MAX - 10 {
        return Reaction::Refused;
    }
    let low = 10 + buf.scroll.0;
    if buf.cursor.0 < low {
        buf.cursor.0 = low;
    }
    if !try_settle(buf, rows, cols) {
        return Reaction::Refused;
    }
    if history_too {
        if buf.history.scroll == usize::MAX {
            return Reaction::Refused;
        }
        buf.history.scroll += 1;
    }
    Reaction::Done
}

/// Reacts to the mouse moved with a button held down.
pub fn hold(buf: &mut Buffer, mcol: u16, mrow: u16, rows: usize, cols: usize, time: i128) -> (reaction:
    Reaction)
    requires
        old(buf)@.wf(),
    ensures
        (final(buf)@, reaction@) == old(buf)@.held(
            mcol as int,
            mrow as int,
            rows as int,
            cols as int,
            time as int,
        ),
        final(buf)@.wf(),
{
    if !try_mode(buf, Mode::Visual, time) {
        return Reaction::Refused;
    }
    let mut col = text_column(buf, mcol);
    match col {
        Some(c) => {
            if buf.show_history {
                if c <= 40 {
                    return Reaction::Done;
                }
                col = Some(c - 39);
            }
        },
        None => {
            return Reaction::Refused;
        },
    }
    let row = offset(mrow, buf.scroll.0, 1);
    if try_point(buf, row, col) && try_settle(buf, rows, cols) {
        Reaction::Done
    } else {
        Reaction::Refused
    }
}

/// Reacts to the mouse.
pub fn handle_mouse_event(buf: &mut Buffer, mouse: MouseEvent, rows: usize, cols: usize, time: i128) -> (reaction:
    Reaction)
    requires
        old(buf)@.wf(),
    ensures
        (final(buf)@, reaction@) == old(buf)@.moused(
            mouse,
            rows as int,
            cols as int,
            time as int,
        ),
        final(buf)@.wf(),
{
    match mouse {
        MouseEvent::Press(MouseButton::Left, mcol, mrow) => {
            if buf.show_history && mcol <= 39 {
                click_history(buf, mrow, rows, cols, time)
            } else {
                let hcol = if buf.show_history {
                    mcol - 39
                } else {
                    mcol
                };
                click_text(buf, hcol, mrow, rows, cols, time)
            }
        },
        MouseEvent::Press(MouseButton::WheelUp, mcol, mrow) => wheel_up(buf, rows, cols),
        MouseEvent::Press(MouseButton::WheelDown, mcol, mrow) => wheel_down(buf, rows, cols, true),
        MouseEvent::Press(MouseButton::WheelLeft, mcol, mrow) => wheel_down(buf, rows, cols, false),
        MouseEvent::Hold(mcol, mrow) => hold(buf, mcol, mrow, rows, cols, time),
        _ => Reaction::Done,
    }
}

/// Reacts to what the evaluation of the selected text has printed, as of `time`.
pub fn evaluated_at(buf: &mut Buffer, printed: &str, rows: usize, cols: usize, time: i128) -> (reaction:
    Reaction)
    requires
        old(buf)@.wf(),
    ensures
        (final(buf)@, reaction@) == old(buf)@.evaluated(
            printed@,
            rows as int,
            cols as int,
            time as int,
        ),
        final(buf)@.wf(),
{
    if printed.is_empty() {
        return Reaction::Refused;
    }
    let lines = split_without_last(printed);
    if try_replace(buf, &lines, time) && try_mode(buf, Mode::Normal, time) && try_scroll(
        buf,
        rows,
        cols,
    ) {
        Reaction::Done
    } else {
        Reaction::Refused
    }
}

/// Reacts to what the evaluation of the selected text has printed, as of now.
pub fn evaluated(buf: &mut Buffer, printed: &str, rows: usize, cols: usize) -> (reaction: Reaction)
    requires
        old(buf)@.wf(),
    ensures
        exists|time: int|
            (final(buf)@, reaction@) == #[trigger] old(buf)@.evaluated(
                printed@,
                rows as int,
                cols as int,
                time,
            ),
        final(buf)@.wf(),
{
    let time = now();
    let reaction = evaluated_at(buf, printed, rows, cols, time);
    assert((buf@, reaction@) == old(buf)@.evaluated(
        printed@,
        rows as int,
        cols as int,
        time as int,
    ));
    reaction
}

/// Reacts to `evt` on a screen of `rows` rows and `cols` columns, as of `time`.
/// `clipboard` is what the clipboard of the system holds, where there is one to
/// paste from.
pub fn handle_event_at(
    buf: &mut Buffer,
    evt: Event,
    clipboard: Option<&str>,
    rows: usize,
    cols: usize,
    time: i128,
) -> (reaction: Reaction)
    requires
        old(buf)@.wf(),
    ensures
        (final(buf)@, reaction@) == old(buf)@.handled(
            evt,
            clipboard_view(clipboard),
            rows as int,
            cols as int,
            time as int,
        ),
        final(buf)@.wf(),
{
    match evt {
        Event::Key(key) => handle_key(buf, key, clipboard, rows, cols, time),
        Event::Mouse(mouse) => handle_mouse_event(buf, mouse, rows, cols, time),
        Event::Other => Reaction::Done,
    }
}

/// Reacts to `evt` on a screen of `rows` rows and `cols` columns, as of now.
/// `clipboard` is what the clipboard of the system holds, where there is one to
/// paste from.
pub fn handle_event(
    buf: &mut Buffer,
    evt: Event,
    clipboard: Option<&str>,
    rows: usize,
    cols: usize,
) -> (reaction: Reaction)
    requires
        old(buf)@.wf(),
    ensures
        exists|time: int|
            (final(buf)@, reaction@) == #[trigger] old(buf)@.handled(
                evt,
                clipboard_view(clipboard),
                rows as int,
                cols as int,
                time,
            ),
        final(buf)@.wf(),
{
    let time = now();
    let reaction = handle_event_at(buf, evt, clipboard, rows, cols, time);
    assert((buf@, reaction@) == old(buf)@.handled(
        evt,
        clipboard_view(clipboard),
        rows as int,
        cols as int,
        time as int,
    ));
    reaction
}

} // verus!
