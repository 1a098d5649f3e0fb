use crate::action::ActionView;
use crate::text::{
    at_or_before, behind_char, char_at, char_inserted, char_removed, in_text, lines_inserted,
    lines_removed, removable, span, span_end, span_removed, text_inserted, Pos, Text,
};
use vstd::prelude::*;

verus! {

/// A text that a buffer can hold: it has a line, and the count of its lines and of
/// the characters of each line leaves room for one more in a `usize`.
pub open spec fn holdable(t: Text) -> bool {
    &&& 1 <= t.len() < usize::MAX
    &&& forall|i: int| 0 <= i < t.len() ==> (#[trigger] t[i]).len() < usize::MAX
}

impl ActionView {
    /// The single edits that make up the action, in the order in which they are
    /// replayed: a run of actions gives the edits of its actions one after the
    /// other, and the action that changes nothing gives none.
    pub open spec fn steps(self) -> Seq<ActionView>
        decreases self,
    {
        match self {
            ActionView::NoOp => Seq::empty(),
            ActionView::Composite { actions, name } => step_groups(actions).flatten(),
            _ => seq![self],
        }
    }

    /// The action is a single edit: neither a run of actions nor the action that
    /// changes nothing.
    pub open spec fn is_step(self) -> bool {
        !(self is NoOp) && !(self is Composite)
    }
}

/// The single edits of each of `actions`, one group for each action.
pub open spec fn step_groups(actions: Seq<ActionView>) -> Seq<Seq<ActionView>>
    decreases actions,
{
    Seq::new(
        actions.len(),
        |i: int|
            if 0 <= i < actions.len() {
                actions[i].steps()
            } else {
                Seq::empty()
            },
    )
}

/// `t` after the single edit `p` was replayed on it. The edit is made at the places
/// that `p` names; the text that `p` carries along for its inverse is not consulted
/// where something is taken out.
pub open spec fn step_result(t: Text, p: ActionView) -> Text {
    match p {
        ActionView::InsertChar { pos, cha } => char_inserted(t, pos, cha),
        ActionView::RemoveChar { pos, cha } => char_removed(t, pos),
        ActionView::Insert { start, stop, text } => text_inserted(t, text, start),
        ActionView::Remove { start, stop, text } => span_removed(t, start, stop),
        ActionView::InsertLines { start, stop, lines } => lines_inserted(t, lines, start),
        ActionView::RemoveLines { start, stop, lines } => lines_removed(t, start, stop),
        _ => t,
    }
}

/// The places that the single edit `p` names lie in `t`.
pub open spec fn step_in_range(t: Text, p: ActionView) -> bool {
    match p {
        ActionView::InsertChar { pos, cha } => in_text(t, pos),
        ActionView::RemoveChar { pos, cha } => removable(t, pos),
        ActionView::Insert { start, stop, text } => in_text(t, start) && text.len() >= 1,
        ActionView::Remove { start, stop, text } => {
            &&& in_text(t, start)
            &&& in_text(t, stop)
            &&& at_or_before(start, stop)
        },
        ActionView::InsertLines { start, stop, lines } => 1 <= start <= t.len() + 1,
        ActionView::RemoveLines { start, stop, lines } => 1 <= start && start - 1 <= stop <= t.len(),
        _ => true,
    }
}

/// The single edit `p` can be replayed on `t`: its places lie in `t`, and a buffer
/// can hold what comes out.
pub open spec fn step_fits(t: Text, p: ActionView) -> bool {
    step_in_range(t, p) && holdable(step_result(t, p))
}

/// `t` after the single edits `ps` were replayed on it, one after the other.
pub open spec fn result(t: Text, ps: Seq<ActionView>) -> Text
    decreases ps.len(),
{
    if ps.len() == 0 {
        t
    } else {
        step_result(result(t, ps.drop_last()), ps.last())
    }
}

/// The single edits `ps` can be replayed on `t`, one after the other: each fits the
/// text that the edits before it have left.
pub open spec fn fits(t: Text, ps: Seq<ActionView>) -> bool
    decreases ps.len(),
{
    if ps.len() == 0 {
        true
    } else {
        fits(t, ps.drop_last()) && step_fits(result(t, ps.drop_last()), ps.last())
    }
}

/// Where the single edit `p` leaves a cursor that stood at `k`. A character or a
/// span that is put in leaves the cursor just behind itself, a character that is
/// taken out leaves it where the character stood, and nothing else moves it.
pub open spec fn step_cursor(k: Pos, p: ActionView) -> Pos {
    match p {
        ActionView::InsertChar { pos, cha } => behind_char(pos, cha),
        ActionView::RemoveChar { pos, cha } => pos,
        ActionView::Insert { start, stop, text } => span_end(start, text),
        _ => k,
    }
}

/// Where the single edits `ps`, replayed one after the other, leave a cursor that
/// stood at `k`.
pub open spec fn cursor_after(k: Pos, ps: Seq<ActionView>) -> Pos
    decreases ps.len(),
{
    if ps.len() == 0 {
        k
    } else {
        step_cursor(cursor_after(k, ps.drop_last()), ps.last())
    }
}

/// The column that the cursor heads for after the single edit `p`, where it headed
/// for `g` before: a span that is put in sets it to the column of its end.
pub open spec fn step_goal(g: int, p: ActionView) -> int {
    match p {
        ActionView::Insert { start, stop, text } => span_end(start, text).1,
        _ => g,
    }
}

/// The column that the cursor heads for after the single edits `ps`, where it
/// headed for `g` before.
pub open spec fn goal_after(g: int, ps: Seq<ActionView>) -> int
    decreases ps.len(),
{
    if ps.len() == 0 {
        g
    } else {
        step_goal(goal_after(g, ps.drop_last()), ps.last())
    }
}

/// The single edit `p` is one that was made on `t` and can be taken back: its
/// places lie in `t`, it carries what its inverse needs as `t` gives it, and it
/// does not take out every line of `t`.
pub open spec fn step_undoable(t: Text, p: ActionView) -> bool {
    match p {
        ActionView::InsertChar { pos, cha } => in_text(t, pos),
        ActionView::RemoveChar { pos, cha } => {
            &&& removable(t, pos)
            &&& cha == char_at(t, pos)
            &&& (pos.1 <= t[pos.0 - 1].len() ==> cha != '\n')
        },
        ActionView::Insert { start, stop, text } => {
            &&& in_text(t, start)
            &&& text.len() >= 1
            &&& stop == span_end(start, text)
        },
        ActionView::Remove { start, stop, text } => {
            &&& in_text(t, start)
            &&& in_text(t, stop)
            &&& at_or_before(start, stop)
            &&& text == span(t, start, stop)
        },
        ActionView::InsertLines { start, stop, lines } => {
            &&& 1 <= start <= t.len() + 1
            &&& stop == start + lines.len() - 1
        },
        ActionView::RemoveLines { start, stop, lines } => {
            &&& 1 <= start
            &&& start - 1 <= stop <= t.len()
            &&& lines == t.subrange(start - 1, stop)
            &&& !(start == 1 && stop == t.len())
        },
        _ => false,
    }
}

/// Each of the single edits `ps` is one that was made on the text that the edits
/// before it left of `t`, and can be taken back.
pub open spec fn undoable(t: Text, ps: Seq<ActionView>) -> bool
    decreases ps.len(),
{
    if ps.len() == 0 {
        true
    } else {
        undoable(t, ps.drop_last()) && step_undoable(result(t, ps.drop_last()), ps.last())
    }
}

/// The single edits that take `ps` back: the inverse of each, last edit first.
pub open spec fn taken_back(ps: Seq<ActionView>) -> Seq<ActionView> {
    Seq::new(ps.len(), |i: int| ps[ps.len() - 1 - i].inverse())
}

/// The edits of groups put one after the other, cut before and behind group `i`.
pub proof fn lemma_groups_split(groups: Seq<Seq<ActionView>>, i: int)
    requires
        0 <= i < groups.len(),
    ensures
        groups.flatten() == groups.take(i).flatten() + (groups[i] + groups.skip(i + 1).flatten()),
        groups.take(i + 1).flatten() == groups.take(i).flatten() + groups[i],
{
    let a = groups.take(i);
    let b = groups.skip(i);
    assert(groups == a + b);
    vstd::seq_lib::lemma_flatten_concat(a, b);
    assert(b == seq![groups[i]] + groups.skip(i + 1));
    vstd::seq_lib::lemma_flatten_concat(seq![groups[i]], groups.skip(i + 1));
    seq![groups[i]].lemma_flatten_one_element();
    assert(groups.take(i + 1) == a.push(groups[i]));
    a.lemma_flatten_push(groups[i]);
}

/// Edits that fit a text that a buffer can hold leave a text that a buffer can
/// hold.
pub proof fn lemma_fits_holdable(t: Text, ps: Seq<ActionView>)
    requires
        holdable(t),
        fits(t, ps),
    ensures
        holdable(result(t, ps)),
{
}

/// `t` after `a` was replayed on it.
pub open spec fn replayed(t: Text, a: ActionView) -> Text {
    result(t, a.steps())
}

/// `a` is an action that was made on `t` and can be taken back: each of its single
/// edits is.
pub open spec fn can_undo(t: Text, a: ActionView) -> bool {
    undoable(t, a.steps())
}

/// Edits replayed one after the other: first `a`, then `b`.
pub proof fn lemma_result_concat(t: Text, a: Seq<ActionView>, b: Seq<ActionView>)
    ensures
        result(t, a + b) == result(result(t, a), b),
        fits(t, a + b) == (fits(t, a) && fits(result(t, a), b)),
        undoable(t, a + b) == (undoable(t, a) && undoable(result(t, a), b)),
    decreases b.len(),
{
    if b.len() == 0 {
        assert(a + b == a);
    } else {
        assert((a + b).drop_last() == a + b.drop_last());
        assert((a + b).last() == b.last());
        lemma_result_concat(t, a, b.drop_last());
    }
}

/// The cursor after edits replayed one after the other: first `a`, then `b`.
pub proof fn lemma_cursor_concat(k: Pos, g: int, a: Seq<ActionView>, b: Seq<ActionView>)
    ensures
        cursor_after(k, a + b) == cursor_after(cursor_after(k, a), b),
        goal_after(g, a + b) == goal_after(goal_after(g, a), b),
    decreases b.len(),
{
    if b.len() == 0 {
        assert(a + b == a);
    } else {
        assert((a + b).drop_last() == a + b.drop_last());
        assert((a + b).last() == b.last());
        lemma_cursor_concat(k, g, a, b.drop_last());
    }
}

/// One edit replayed alone.
pub proof fn lemma_single(t: Text, p: ActionView)
    ensures
        result(t, seq![p]) == step_result(t, p),
        fits(t, seq![p]) == step_fits(t, p),
        undoable(t, seq![p]) == step_undoable(t, p),
{
    reveal_with_fuel(result, 2);
    reveal_with_fuel(fits, 2);
    reveal_with_fuel(undoable, 2);
    assert(seq![p].drop_last() =~= Seq::empty());
}

/// The cursor after the single edits of one action that is no run of actions.
pub proof fn lemma_single_cursor(k: Pos, g: int, a: ActionView)
    requires
        !(a is Composite),
    ensures
        a is NoOp ==> a.steps() == Seq::<ActionView>::empty(),
        !(a is NoOp) ==> a.steps() == seq![a],
        cursor_after(k, a.steps()) == step_cursor(k, a),
        goal_after(g, a.steps()) == step_goal(g, a),
{
    reveal_with_fuel(cursor_after, 2);
    reveal_with_fuel(goal_after, 2);
    assert(seq![a].drop_last() =~= Seq::empty());
}

/// A single edit that was made on `t`, followed by its inverse, leaves `t` as it
/// was, and the inverse is then itself an edit that can be taken back.
pub proof fn lemma_step_inverse(t: Text, p: ActionView)
    requires
        t.len() >= 1,
        step_undoable(t, p),
    ensures
        step_result(t, p).len() >= 1,
        p.inverse().is_step(),
        step_undoable(step_result(t, p), p.inverse()),
        step_result(step_result(t, p), p.inverse()) == t,
{
    match p {
        ActionView::InsertChar { pos, cha } => {
            crate::text::lemma_char_inserted_removed(t, pos, cha);
            let u = char_inserted(t, pos, cha);
            if cha == '\n' {
                assert(u[pos.0 - 1] == t[pos.0 - 1].take(pos.1 - 1));
            }
        },
        ActionView::RemoveChar { pos, cha } => {
            crate::text::lemma_char_removed_inserted(t, pos);
        },
        ActionView::Insert { start, stop, text } => {
            crate::text::lemma_text_inserted_removed(t, text, start);
        },
        ActionView::Remove { start, stop, text } => {
            crate::text::lemma_span_removed_inserted(t, start, stop);
        },
        ActionView::InsertLines { start, stop, lines } => {
            crate::text::lemma_lines_inserted_removed(t, lines, start);
        },
        ActionView::RemoveLines { start, stop, lines } => {
            crate::text::lemma_lines_removed_inserted(t, start, stop);
        },
        _ => {},
    }
}

/// Single edits that were made on `t` one after the other, followed by their
/// inverses last edit first, leave `t` as it was, and the inverses are then
/// themselves edits that can be taken back.
pub proof fn lemma_steps_taken_back(t: Text, ps: Seq<ActionView>)
    requires
        t.len() >= 1,
        undoable(t, ps),
    ensures
        result(t, ps).len() >= 1,
        undoable(result(t, ps), taken_back(ps)),
        result(result(t, ps), taken_back(ps)) == t,
    decreases ps.len(),
{
    if ps.len() == 0 {
        assert(taken_back(ps) =~= Seq::empty());
    } else {
        let qs = ps.drop_last();
        let p = ps.last();
        let mid = result(t, qs);
        lemma_steps_taken_back(t, qs);
        lemma_step_inverse(mid, p);
        let back = seq![p.inverse()];
        assert(taken_back(ps) =~= back + taken_back(qs));
        lemma_single(result(t, ps), p.inverse());
        lemma_result_concat(result(t, ps), back, taken_back(qs));
    }
}

/// Taking back what one sequence of edits followed by another has done takes back
/// the second, then the first.
pub proof fn lemma_taken_back_concat(a: Seq<ActionView>, b: Seq<ActionView>)
    ensures
        taken_back(a + b) == taken_back(b) + taken_back(a),
{
    assert(taken_back(a + b) =~= taken_back(b) + taken_back(a));
}

/// The groups `ss` as they are taken back: last group first, each taken back.
pub open spec fn groups_taken_back(ss: Seq<Seq<ActionView>>) -> Seq<Seq<ActionView>> {
    Seq::new(ss.len(), |i: int| taken_back(ss[ss.len() - 1 - i]))
}

/// Taking back the edits of several groups, put one after the other, takes back
/// the groups last group first.
pub proof fn lemma_flatten_taken_back(ss: Seq<Seq<ActionView>>)
    ensures
        taken_back(ss.flatten()) == groups_taken_back(ss).flatten(),
    decreases ss.len(),
{
    let back = groups_taken_back(ss);
    if ss.len() == 0 {
        assert(taken_back(ss.flatten()) =~= back.flatten());
    } else {
        let init = ss.drop_last();
        let last = ss.last();
        assert(ss == init.push(last));
        init.lemma_flatten_push(last);
        lemma_taken_back_concat(init.flatten(), last);
        lemma_flatten_taken_back(init);
        assert(back.first() == taken_back(last));
        assert(back.drop_first() =~= groups_taken_back(init));
    }
}

/// The single edits of the inverse of an action are the single edits of the action
/// taken back.
pub proof fn lemma_inverse_steps(a: ActionView)
    ensures
        a.inverse().steps() == taken_back(a.steps()),
    decreases a,
{
    match a {
        ActionView::NoOp => {
            assert(a.inverse().steps() =~= taken_back(a.steps()));
        },
        ActionView::Composite { actions, name } => {
            let n = actions.len();
            let ss = step_groups(actions);
            let inv = a.inverse()->Composite_actions;
            let tt = step_groups(inv);
            assert(a.steps() == ss.flatten());
            assert(a.inverse().steps() == tt.flatten());
            assert forall|i: int| 0 <= i < n implies tt[i] == groups_taken_back(ss)[i] by {
                lemma_inverse_steps(actions[n - 1 - i]);
            }
            assert(tt =~= groups_taken_back(ss));
            lemma_flatten_taken_back(ss);
        },
        _ => {
            assert(a.inverse().steps() =~= taken_back(a.steps()));
        },
    }
}

/// Replaying an action that was made on `t` and then its inverse leaves `t` exactly
/// as it was. The inverse is then itself an action that can be taken back, so the
/// same holds of the inverse followed by the inverse of the inverse.
///
/// An action that takes out every line of the text is left out: what it leaves is
/// one empty line, and putting the lines back in front of it gives one line more
/// than there was.
pub proof fn lemma_inverse_undoes(t: Text, a: ActionView)
    requires
        t.len() >= 1,
        can_undo(t, a),
    ensures
        replayed(t, a).len() >= 1,
        can_undo(replayed(t, a), a.inverse()),
        replayed(replayed(t, a), a.inverse()) == t,
{
    lemma_inverse_steps(a);
    lemma_steps_taken_back(t, a.steps());
}

} // verus!
