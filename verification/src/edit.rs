use crate::action::{at, lemma_composite_view, views, ActionView, TextAction};
use crate::buffer::{Buffer, BufferView};
use crate::common::{copy_lines, lemma_line_deep_view, Coord, String32};
use crate::effect::{
    cursor_after, fits, goal_after, holdable, lemma_cursor_concat, lemma_fits_holdable,
    lemma_groups_split, lemma_result_concat, lemma_single, lemma_single_cursor, result,
    step_cursor, step_goal, step_groups, step_result,
};
use crate::undo::{now, HistoryView};
use crate::lines::{
    put_char, put_lines, put_text, take_char, take_lines, take_text, text_between,
};
use crate::text::{
    at_or_before, behind_char, char_at, char_inserted, char_removed, in_text, lines_inserted,
    lines_removed, removable, span, span_end, span_removed, text_inserted, Pos, Text,
};
use vstd::prelude::*;

verus! {

/// The action that records that what stands at `pos` in `t` is taken out.
pub open spec fn char_removal(t: Text, pos: Pos) -> ActionView {
    ActionView::RemoveChar { pos, cha: char_at(t, pos) }
}

/// The action that records that `text` is spliced in at `pos`.
pub open spec fn insertion(text: Text, pos: Pos) -> ActionView {
    ActionView::Insert { start: pos, stop: span_end(pos, text), text }
}

/// The action that records that what stands in `t` from `start` up to `stop` is
/// taken out.
pub open spec fn removal(t: Text, start: Pos, stop: Pos) -> ActionView {
    ActionView::Remove { start, stop, text: span(t, start, stop) }
}

/// The action that records that `lines` are put in from line `row` on.
pub open spec fn lines_insertion(lines: Text, row: int) -> ActionView {
    ActionView::InsertLines { start: row, stop: row + lines.len() - 1, lines }
}

/// The action that records that the lines `start` to `stop` of `t` are taken out.
pub open spec fn lines_removal(t: Text, start: int, stop: int) -> ActionView {
    ActionView::RemoveLines { start, stop, lines: t.subrange(start - 1, stop) }
}

impl BufferView {
    /// The buffer after the single edit `p` was made at `time`: the text is
    /// changed, the cursor is where the edit leaves it, and the edit was handed to
    /// the history.
    pub open spec fn edited(self, p: ActionView, time: int) -> BufferView {
        BufferView {
            text: step_result(self.text, p),
            cursor: step_cursor(self.cursor, p),
            cursor_col_goal: step_goal(self.cursor_col_goal, p),
            history: self.history.recorded(p, time),
            ..self
        }
    }
}

/// Puts `cha` into the text at `pos`, and records that as done at `time`. A line
/// break splits the line at `pos` in two. The cursor is left just behind what was
/// put in.
pub fn insert_char_at(buf: &mut Buffer, cha: char, pos: Coord, time: i128)
    requires
        old(buf)@.wf(),
        in_text(old(buf)@.text, at(pos)),
        holdable(char_inserted(old(buf)@.text, at(pos), cha)),
    ensures
        final(buf)@ == old(buf)@.edited(ActionView::InsertChar { pos: at(pos), cha }, time as int),
        final(buf)@.text == char_inserted(old(buf)@.text, at(pos), cha),
        final(buf)@.cursor == behind_char(at(pos), cha),
        final(buf)@.wf(),
{
    let action = TextAction::InsertChar { pos, cha };
    buf.history.add_node_at(action, time);
    put_char(&mut buf.contents, cha, pos);
    if cha == '\n' {
        buf.cursor = (pos.0 + 1, 1);
    } else {
        assert(buf@.text[pos.0 - 1].len() < usize::MAX);
        buf.cursor = (pos.0, pos.1 + 1);
    }
}

/// Puts `cha` into the text at `pos`, and records that as done now.
pub fn insert_char(buf: &mut Buffer, cha: char, pos: Coord)
    requires
        old(buf)@.wf(),
        in_text(old(buf)@.text, at(pos)),
        holdable(char_inserted(old(buf)@.text, at(pos), cha)),
    ensures
        exists|time: int|
            final(buf)@ == #[trigger] old(buf)@.edited(
                ActionView::InsertChar { pos: at(pos), cha },
                time,
            ),
        final(buf)@.wf(),
{
    let time = now();
    insert_char_at(buf, cha, pos, time);
    assert(buf@ == old(buf)@.edited(ActionView::InsertChar { pos: at(pos), cha }, time as int));
}

/// Takes out of the text what stands at `pos`, and records that as done at `time`.
/// Where `pos` is the end of a line, the line break goes and the line below is
/// joined to the line. The cursor is left at `pos`.
pub fn remove_char_at(buf: &mut Buffer, pos: Coord, time: i128)
    requires
        old(buf)@.wf(),
        removable(old(buf)@.text, at(pos)),
        holdable(char_removed(old(buf)@.text, at(pos))),
    ensures
        final(buf)@ == old(buf)@.edited(char_removal(old(buf)@.text, at(pos)), time as int),
        final(buf)@.text == char_removed(old(buf)@.text, at(pos)),
        final(buf)@.cursor == at(pos),
        final(buf)@.wf(),
{
    let cha = take_char(&mut buf.contents, pos);
    buf.cursor = pos;
    buf.history.add_node_at(TextAction::RemoveChar { pos, cha }, time);
}

/// Takes out of the text what stands at `pos`, and records that as done now.
pub fn remove_char(buf: &mut Buffer, pos: Coord)
    requires
        old(buf)@.wf(),
        removable(old(buf)@.text, at(pos)),
        holdable(char_removed(old(buf)@.text, at(pos))),
    ensures
        exists|time: int|
            final(buf)@ == #[trigger] old(buf)@.edited(char_removal(old(buf)@.text, at(pos)), time),
        final(buf)@.wf(),
{
    let time = now();
    remove_char_at(buf, pos, time);
    assert(buf@ == old(buf)@.edited(char_removal(old(buf)@.text, at(pos)), time as int));
}

/// The text from `start` up to `stop`, `stop` itself left out, as lines.
pub fn get_text(buf: &Buffer, start: Coord, stop: Coord) -> (text: Vec<String32>)
    requires
        in_text(buf@.text, at(start)),
        in_text(buf@.text, at(stop)),
        at_or_before(at(start), at(stop)),
    ensures
        text.deep_view() == span(buf@.text, at(start), at(stop)),
{
    text_between(&buf.contents, start, stop)
}

/// The lines `start` to `stop` of the text, both counted in.
pub fn get_lines(buf: &Buffer, start: usize, stop: usize) -> (lines: Vec<String32>)
    requires
        1 <= start,
        start - 1 <= stop <= buf@.text.len(),
    ensures
        lines.deep_view() == buf@.text.subrange(start - 1, stop as int),
{
    crate::common::lines_part(&buf.contents, start - 1, stop)
}

/// Splices `text` into the text at `pos`, and records that as done at `time`. The
/// line of `pos` is cut at `pos`; the first line of `text` goes behind its head,
/// the last line of `text` before its tail, and the lines of `text` between them
/// become lines of their own. The cursor is left at the end of what was spliced
/// in, and heads for that column.
pub fn insert_text_at(buf: &mut Buffer, text: &Vec<String32>, pos: Coord, time: i128)
    requires
        old(buf)@.wf(),
        in_text(old(buf)@.text, at(pos)),
        text@.len() >= 1,
        holdable(text_inserted(old(buf)@.text, text.deep_view(), at(pos))),
    ensures
        final(buf)@ == old(buf)@.edited(insertion(text.deep_view(), at(pos)), time as int),
        final(buf)@.text == text_inserted(old(buf)@.text, text.deep_view(), at(pos)),
        final(buf)@.cursor == span_end(at(pos), text.deep_view()),
        final(buf)@.cursor_col_goal == span_end(at(pos), text.deep_view()).1,
        final(buf)@.wf(),
{
    broadcast use lemma_line_deep_view;

    let n = text.len();
    put_text(&mut buf.contents, text, pos);
    assert(buf@.text.len() == old(buf)@.text.len() + n - 1);
    assert(buf@.text[pos.0 + n - 2].len() < usize::MAX);
    let stop = if n == 1 {
        (pos.0, pos.1 + text[0].len())
    } else {
        (pos.0 + n - 1, text[n - 1].len() + 1)
    };
    buf.cursor = stop;
    buf.cursor_col_goal = stop.1;
    let action = TextAction::Insert { start: pos, stop, text: copy_lines(text) };
    buf.history.add_node_at(action, time);
}

/// Splices `text` into the text at `pos`, and records that as done now.
pub fn insert_text(buf: &mut Buffer, text: &Vec<String32>, pos: Coord)
    requires
        old(buf)@.wf(),
        in_text(old(buf)@.text, at(pos)),
        text@.len() >= 1,
        holdable(text_inserted(old(buf)@.text, text.deep_view(), at(pos))),
    ensures
        exists|time: int|
            final(buf)@ == #[trigger] old(buf)@.edited(insertion(text.deep_view(), at(pos)), time),
        final(buf)@.wf(),
{
    let time = now();
    insert_text_at(buf, text, pos, time);
    assert(buf@ == old(buf)@.edited(insertion(text.deep_view(), at(pos)), time as int));
}

/// Takes out of the text what stands from `start` up to `stop`, `stop` itself left
/// in, and records that, with the text that was taken out, as done at `time`. What
/// is left of the line of `start` is joined with what is left of the line of
/// `stop`. The cursor stays where it is.
pub fn remove_text_at(buf: &mut Buffer, start: Coord, stop: Coord, time: i128)
    requires
        old(buf)@.wf(),
        in_text(old(buf)@.text, at(start)),
        in_text(old(buf)@.text, at(stop)),
        at_or_before(at(start), at(stop)),
        holdable(span_removed(old(buf)@.text, at(start), at(stop))),
    ensures
        final(buf)@ == old(buf)@.edited(
            removal(old(buf)@.text, at(start), at(stop)),
            time as int,
        ),
        final(buf)@.text == span_removed(old(buf)@.text, at(start), at(stop)),
        final(buf)@.cursor == old(buf)@.cursor,
        final(buf)@.wf(),
{
    let action = TextAction::Remove { start, stop, text: get_text(buf, start, stop) };
    buf.history.add_node_at(action, time);
    take_text(&mut buf.contents, start, stop);
}

/// Takes out of the text what stands from `start` up to `stop`, `stop` itself left
/// in, and records that as done now.
pub fn remove_text(buf: &mut Buffer, start: Coord, stop: Coord)
    requires
        old(buf)@.wf(),
        in_text(old(buf)@.text, at(start)),
        in_text(old(buf)@.text, at(stop)),
        at_or_before(at(start), at(stop)),
        holdable(span_removed(old(buf)@.text, at(start), at(stop))),
    ensures
        exists|time: int|
            final(buf)@ == #[trigger] old(buf)@.edited(
                removal(old(buf)@.text, at(start), at(stop)),
                time,
            ),
        final(buf)@.wf(),
{
    let time = now();
    remove_text_at(buf, start, stop, time);
    assert(buf@ == old(buf)@.edited(removal(old(buf)@.text, at(start), at(stop)), time as int));
}

/// Puts `lines` into the text as whole lines, the first of them becoming line
/// `row`, and records that as done at `time`. The cursor stays where it is.
pub fn insert_lines_at(buf: &mut Buffer, lines: &Vec<String32>, row: usize, time: i128)
    requires
        old(buf)@.wf(),
        1 <= row <= old(buf)@.text.len() + 1,
        holdable(lines_inserted(old(buf)@.text, lines.deep_view(), row as int)),
    ensures
        final(buf)@ == old(buf)@.edited(lines_insertion(lines.deep_view(), row as int), time as int),
        final(buf)@.text == lines_inserted(old(buf)@.text, lines.deep_view(), row as int),
        final(buf)@.cursor == old(buf)@.cursor,
        final(buf)@.wf(),
{
    assert(lines_inserted(buf@.text, lines.deep_view(), row as int).len() == buf@.text.len()
        + lines@.len());
    let action = TextAction::InsertLines {
        start: row,
        stop: row - 1 + lines.len(),
        lines: copy_lines(lines),
    };
    buf.history.add_node_at(action, time);
    put_lines(&mut buf.contents, lines, row);
}

/// Puts `lines` into the text as whole lines, the first of them becoming line
/// `row`, and records that as done now.
pub fn insert_lines(buf: &mut Buffer, lines: &Vec<String32>, row: usize)
    requires
        old(buf)@.wf(),
        1 <= row <= old(buf)@.text.len() + 1,
        holdable(lines_inserted(old(buf)@.text, lines.deep_view(), row as int)),
    ensures
        exists|time: int|
            final(buf)@ == #[trigger] old(buf)@.edited(
                lines_insertion(lines.deep_view(), row as int),
                time,
            ),
        final(buf)@.wf(),
{
    let time = now();
    insert_lines_at(buf, lines, row, time);
    assert(buf@ == old(buf)@.edited(lines_insertion(lines.deep_view(), row as int), time as int));
}

/// Takes the lines `start` to `stop`, both counted in, out of the text, and records
/// that, with the lines that were taken out, as done at `time`. Where every line
/// goes, one empty line is left. The cursor stays where it is.
pub fn remove_lines_at(buf: &mut Buffer, start: usize, stop: usize, time: i128)
    requires
        old(buf)@.wf(),
        1 <= start,
        start - 1 <= stop <= old(buf)@.text.len(),
    ensures
        final(buf)@ == old(buf)@.edited(
            lines_removal(old(buf)@.text, start as int, stop as int),
            time as int,
        ),
        final(buf)@.text == lines_removed(old(buf)@.text, start as int, stop as int),
        final(buf)@.cursor == old(buf)@.cursor,
        final(buf)@.wf(),
{
    let action = TextAction::RemoveLines { start, stop, lines: get_lines(buf, start, stop) };
    buf.history.add_node_at(action, time);
    take_lines(&mut buf.contents, start, stop);
}

/// Takes the lines `start` to `stop`, both counted in, out of the text, and records
/// that as done now.
pub fn remove_lines(buf: &mut Buffer, start: usize, stop: usize)
    requires
        old(buf)@.wf(),
        1 <= start,
        start - 1 <= stop <= old(buf)@.text.len(),
    ensures
        exists|time: int|
            final(buf)@ == #[trigger] old(buf)@.edited(
                lines_removal(old(buf)@.text, start as int, stop as int),
                time,
            ),
        final(buf)@.wf(),
{
    let time = now();
    remove_lines_at(buf, start, stop, time);
    assert(buf@ == old(buf)@.edited(
        lines_removal(old(buf)@.text, start as int, stop as int),
        time as int,
    ));
}

/// Replays `action` on the text while the history is locked: the edits that make
/// up the action are made one after the other, and nothing is recorded.
#[verifier::loop_isolation(false)]
pub fn replay(buf: &mut Buffer, action: &TextAction)
    requires
        old(buf)@.wf(),
        old(buf)@.history.locked,
        fits(old(buf)@.text, action@.steps()),
    ensures
        final(buf)@ == (BufferView {
            text: result(old(buf)@.text, action@.steps()),
            cursor: cursor_after(old(buf)@.cursor, action@.steps()),
            cursor_col_goal: goal_after(old(buf)@.cursor_col_goal, action@.steps()),
            ..old(buf)@
        }),
        final(buf)@.wf(),
    decreases action,
{
    let ghost start = buf@;
    proof {
        lemma_single(start.text, action@);
        if !(action@ is Composite) {
            lemma_single_cursor(start.cursor, start.cursor_col_goal, action@);
        }
        lemma_fits_holdable(start.text, action@.steps());
    }
    match action {
        TextAction::NoOp => {},
        TextAction::Insert { start, stop, text } => {
            insert_text_at(buf, text, *start, 0);
        },
        TextAction::Remove { start, stop, text } => {
            remove_text_at(buf, *start, *stop, 0);
        },
        TextAction::InsertLines { start, stop, lines } => {
            insert_lines_at(buf, lines, *start, 0);
        },
        TextAction::RemoveLines { start, stop, lines } => {
            remove_lines_at(buf, *start, *stop, 0);
        },
        TextAction::InsertChar { pos, cha } => {
            insert_char_at(buf, *cha, *pos, 0);
        },
        TextAction::RemoveChar { pos, cha } => {
            remove_char_at(buf, *pos, 0);
        },
        TextAction::Composite { actions, name } => {
            let ghost groups = step_groups(views(actions@));
            proof {
                lemma_composite_view(*action);
                assert(action@.steps() == groups.flatten());
                assert(groups.take(0) =~= Seq::empty());
            }
            let mut i: usize = 0;
            while i < actions.len()
                invariant
                    i <= actions@.len(),
                    groups.len() == actions@.len(),
                    buf@ == (BufferView {
                        text: result(start.text, groups.take(i as int).flatten()),
                        cursor: cursor_after(start.cursor, groups.take(i as int).flatten()),
                        cursor_col_goal: goal_after(
                            start.cursor_col_goal,
                            groups.take(i as int).flatten(),
                        ),
                        ..start
                    }),
                    buf@.wf(),
                decreases actions@.len() - i,
            {
                proof {
                    let done = groups.take(i as int).flatten();
                    let rest = groups.skip(i + 1).flatten();
                    lemma_groups_split(groups, i as int);
                    lemma_result_concat(start.text, done, groups[i as int] + rest);
                    lemma_result_concat(result(start.text, done), groups[i as int], rest);
                    lemma_result_concat(start.text, done, groups[i as int]);
                    lemma_cursor_concat(
                        start.cursor,
                        start.cursor_col_goal,
                        done,
                        groups[i as int],
                    );
                    assert(groups[i as int] == actions@[i as int]@.steps());
                }
                replay(buf, &actions[i]);
                i += 1;
            }
            proof {
                assert(groups.take(groups.len() as int) == groups);
            }
        },
    }
}

/// Replays `action` on the text without recording anything: the history is locked
/// while the edits of the action are made, and is unlocked afterwards.
pub fn do_text_action(buf: &mut Buffer, action: TextAction)
    requires
        old(buf)@.wf(),
        fits(old(buf)@.text, action@.steps()),
    ensures
        final(buf)@ == (BufferView {
            text: result(old(buf)@.text, action@.steps()),
            cursor: cursor_after(old(buf)@.cursor, action@.steps()),
            cursor_col_goal: goal_after(old(buf)@.cursor_col_goal, action@.steps()),
            history: HistoryView { locked: false, ..old(buf)@.history },
            ..old(buf)@
        }),
        final(buf)@.wf(),
{
    buf.history.locked = true;
    replay(buf, &action);
    buf.history.locked = false;
}

} // verus!
