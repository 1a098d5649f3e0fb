use crate::action::{at, lemma_composite_view, views, TextAction};
use crate::buffer::Buffer;
use crate::common::{copy_lines, lemma_line_deep_view, Coord, String32};
use crate::effect::{
    fits, holdable, lemma_groups_split, lemma_result_concat, lemma_single, result, step_groups,
};
use crate::lines::{put_char, put_lines, put_text, take_char, take_lines, take_text};
use crate::text::{
    char_inserted, char_removed, in_text, lines_inserted, span_removed, text_inserted,
};
use vstd::prelude::*;

verus! {

/// Whether `pos` addresses a character of `lines`, or the slot just behind the
/// last character of one of them.
pub fn lies_in(lines: &Vec<String32>, pos: Coord) -> (ok: bool)
    ensures
        ok == in_text(lines.deep_view(), at(pos)),
{
    broadcast use lemma_line_deep_view;

    if pos.0 < 1 || pos.0 > lines.len() || pos.1 < 1 {
        return false;
    }
    pos.1 - 1 <= lines[pos.0 - 1].len()
}

/// Whether a line of `a` characters and one of `b` characters, joined, leave room
/// for one more character.
pub fn joins(a: usize, b: usize) -> (ok: bool)
    ensures
        ok == (a + b < usize::MAX),
{
    a < usize::MAX && b < usize::MAX - a
}

/// Whether each of `lines` leaves room for one more character.
pub fn lines_short(lines: &Vec<String32>) -> (ok: bool)
    ensures
        ok == forall|i: int|
            0 <= i < lines.deep_view().len() ==> (#[trigger] lines.deep_view()[i]).len()
                < usize::MAX,
{
    broadcast use lemma_line_deep_view;

    let mut i: usize = 0;
    while i < lines.len()
        invariant
            i <= lines@.len(),
            forall|j: int| 0 <= j < i ==> (#[trigger] lines.deep_view()[j]).len() < usize::MAX,
        decreases lines@.len() - i,
    {
        if lines[i].len() >= usize::MAX {
            assert(lines.deep_view()[i as int].len() >= usize::MAX);
            return false;
        }
        i += 1;
    }
    true
}

/// Replays `action` on `lines` as far as its edits fit, and says whether all of
/// them did. Where they did not, `lines` is left as the edits that fit before the
/// first that did not have made it.
#[verifier::loop_isolation(false)]
pub(crate) fn replay_on(lines: &mut Vec<String32>, action: &TextAction) -> (ok: bool)
    requires
        holdable(old(lines).deep_view()),
    ensures
        ok == fits(old(lines).deep_view(), action@.steps()),
        ok ==> final(lines).deep_view() == result(old(lines).deep_view(), action@.steps()),
        holdable(final(lines).deep_view()),
    decreases action,
{
    broadcast use lemma_line_deep_view;

    let ghost t = lines.deep_view();
    proof {
        lemma_single(t, action@);
    }
    match action {
        TextAction::NoOp => true,
        TextAction::InsertChar { pos, cha } => {
            if !lies_in(lines, *pos) {
                return false;
            }
            let ghost after = char_inserted(t, at(*pos), *cha);
            if *cha == '\n' {
                if lines.len() >= usize::MAX - 1 {
                    return false;
                }
                proof {
                    assert forall|i: int| 0 <= i < after.len() implies (#[trigger] after[i]).len()
                        < usize::MAX by {
                        if i < pos.0 - 1 {
                            assert(after[i] == t[i]);
                        } else if i > pos.0 {
                            assert(after[i] == t[i - 1]);
                        }
                    }
                }
            } else {
                if lines[pos.0 - 1].len() >= usize::MAX - 1 {
                    assert(after[pos.0 - 1].len() >= usize::MAX);
                    return false;
                }
                proof {
                    assert forall|i: int| 0 <= i < after.len() implies (#[trigger] after[i]).len()
                        < usize::MAX by {
                        if i != pos.0 - 1 {
                            assert(after[i] == t[i]);
                        }
                    }
                }
            }
            put_char(lines, *cha, *pos);
            true
        },
        TextAction::RemoveChar { pos, cha } => {
            if !lies_in(lines, *pos) {
                return false;
            }
            let ghost after = char_removed(t, at(*pos));
            if pos.1 > lines[pos.0 - 1].len() {
                if pos.0 >= lines.len() {
                    return false;
                }
                if !joins(lines[pos.0 - 1].len(), lines[pos.0].len()) {
                    assert(after[pos.0 - 1].len() >= usize::MAX);
                    return false;
                }
                proof {
                    assert forall|i: int| 0 <= i < after.len() implies (#[trigger] after[i]).len()
                        < usize::MAX by {
                        if i < pos.0 - 1 {
                            assert(after[i] == t[i]);
                        } else if i > pos.0 - 1 {
                            assert(after[i] == t[i + 1]);
                        }
                    }
                }
            } else {
                proof {
                    assert forall|i: int| 0 <= i < after.len() implies (#[trigger] after[i]).len()
                        < usize::MAX by {
                        if i != pos.0 - 1 {
                            assert(after[i] == t[i]);
                        }
                    }
                }
            }
            let _ = take_char(lines, *pos);
            true
        },
        TextAction::Insert { start, stop, text } => {
            if !lies_in(lines, *start) || text.len() < 1 {
                return false;
            }
            let ghost new = text.deep_view();
            let ghost after = text_inserted(t, new, at(*start));
            let n = text.len();
            let row = start.0 - 1;
            assert(after.len() == t.len() + n - 1);
            if n - 1 >= usize::MAX - lines.len() {
                return false;
            }
            let head = start.1 - 1;
            let tail = lines[row].len() - head;
            if !lines_short(text) {
                proof {
                    let i = choose|i: int| 0 <= i < new.len() && new[i].len() >= usize::MAX;
                    assert(after[row + i].len() >= new[i].len());
                }
                return false;
            }
            if n == 1 {
                if !joins(head, text[0].len()) || !joins(head + text[0].len(), tail) {
                    assert(after[row as int].len() == head + new[0].len() + tail);
                    return false;
                }
            } else {
                if !joins(head, text[0].len()) {
                    assert(after[row as int].len() == head + new[0].len());
                    return false;
                }
                if !joins(text[n - 1].len(), tail) {
                    assert(after[row + n - 1].len() == new[n - 1].len() + tail);
                    return false;
                }
            }
            proof {
                assert forall|i: int| 0 <= i < after.len() implies (#[trigger] after[i]).len()
                    < usize::MAX by {
                    if i < row {
                        assert(after[i] == t[i]);
                    } else if i >= row + n {
                        assert(after[i] == t[i - n + 1]);
                    } else if row < i < row + n - 1 {
                        assert(after[i] == new[i - row]);
                    }
                }
            }
            put_text(lines, text, *start);
            true
        },
        TextAction::Remove { start, stop, text } => {
            if !lies_in(lines, *start) || !lies_in(lines, *stop) {
                return false;
            }
            if !(start.0 < stop.0 || (start.0 == stop.0 && start.1 <= stop.1)) {
                return false;
            }
            let ghost after = span_removed(t, at(*start), at(*stop));
            let head = start.1 - 1;
            let tail = lines[stop.0 - 1].len() - (stop.1 - 1);
            if !joins(head, tail) {
                assert(after[start.0 - 1].len() == head + tail);
                return false;
            }
            proof {
                assert forall|i: int| 0 <= i < after.len() implies (#[trigger] after[i]).len()
                    < usize::MAX by {
                    if i < start.0 - 1 {
                        assert(after[i] == t[i]);
                    } else if i > start.0 - 1 {
                        assert(after[i] == t[i + (stop.0 - start.0)]);
                    }
                }
            }
            take_text(lines, *start, *stop);
            true
        },
        TextAction::InsertLines { start, stop, lines: new_lines } => {
            if *start < 1 || *start - 1 > lines.len() {
                return false;
            }
            let ghost new = new_lines.deep_view();
            let ghost after = lines_inserted(t, new, *start as int);
            assert(after.len() == t.len() + new.len());
            if new_lines.len() >= usize::MAX - lines.len() {
                return false;
            }
            if !lines_short(new_lines) {
                proof {
                    let i = choose|i: int| 0 <= i < new.len() && new[i].len() >= usize::MAX;
                    assert(after[*start - 1 + i] == new[i]);
                }
                return false;
            }
            proof {
                assert forall|i: int| 0 <= i < after.len() implies (#[trigger] after[i]).len()
                    < usize::MAX by {
                    if i < *start - 1 {
                        assert(after[i] == t[i]);
                    } else if i >= *start - 1 + new.len() {
                        assert(after[i] == t[i - new.len()]);
                    } else {
                        assert(after[i] == new[i - (*start - 1)]);
                    }
                }
            }
            put_lines(lines, new_lines, *start);
            true
        },
        TextAction::RemoveLines { start, stop, lines: old_lines } => {
            if *start < 1 || *start - 1 > *stop || *stop > lines.len() {
                return false;
            }
            proof {
                let rest = t.take(*start - 1) + t.skip(*stop as int);
                assert forall|i: int| 0 <= i < rest.len() implies (#[trigger] rest[i]).len()
                    < usize::MAX by {
                    if i < *start - 1 {
                        assert(rest[i] == t[i]);
                    } else {
                        assert(rest[i] == t[i + (*stop - *start + 1)]);
                    }
                }
            }
            take_lines(lines, *start, *stop);
            true
        },
        TextAction::Composite { actions, name } => {
            let ghost groups = step_groups(views(actions@));
            proof {
                lemma_composite_view(*action);
                assert(groups.take(0) =~= Seq::empty());
            }
            let mut i: usize = 0;
            while i < actions.len()
                invariant
                    i <= actions@.len(),
                    groups.len() == actions@.len(),
                    fits(t, groups.take(i as int).flatten()),
                    lines.deep_view() == result(t, groups.take(i as int).flatten()),
                    holdable(lines.deep_view()),
                decreases actions@.len() - i,
            {
                proof {
                    let done = groups.take(i as int).flatten();
                    let rest = groups.skip(i + 1).flatten();
                    lemma_groups_split(groups, i as int);
                    lemma_result_concat(t, done, groups[i as int] + rest);
                    lemma_result_concat(result(t, done), groups[i as int], rest);
                    lemma_result_concat(t, done, groups[i as int]);
                    assert(groups[i as int] == actions@[i as int]@.steps());
                }
                if !replay_on(lines, &actions[i]) {
                    return false;
                }
                i += 1;
            }
            proof {
                assert(groups.take(groups.len() as int) == groups);
            }
            true
        },
    }
}

/// Whether `action` can be replayed on the text of `buf`: each of its edits names
/// places in the text that the edits before it have left, and leaves a text that a
/// buffer can hold.
pub fn replayable(buf: &Buffer, action: &TextAction) -> (ok: bool)
    requires
        holdable(buf@.text),
    ensures
        ok == fits(buf@.text, action@.steps()),
{
    let mut lines = copy_lines(&buf.contents);
    replay_on(&mut lines, action)
}

} // verus!
