use crate::action::ActionView;
use crate::browse::{
    lemma_rows_cover, lemma_rows_differ, lemma_rows_rooted, rooted, shows, spread,
};
use crate::effect::{
    can_undo, cursor_after, lemma_inverse_steps, lemma_inverse_undoes, lemma_steps_taken_back,
    replayed, result, step_groups, taken_back, undoable,
};
use crate::text::{behind_char, span_end, Pos, Text};
use crate::undo::{begins_with, session_name, HistoryView, NodeView};
use vstd::prelude::*;

verus! {

/// Each of `ps` is a single edit.
pub open spec fn all_steps(ps: Seq<ActionView>) -> bool {
    forall|i: int| 0 <= i < ps.len() ==> (#[trigger] ps[i]).is_step()
}

/// The single edits of an action are single edits.
pub proof fn lemma_steps_are_steps(a: ActionView)
    ensures
        all_steps(a.steps()),
    decreases a,
{
    match a {
        ActionView::Composite { actions, name } => {
            let groups = step_groups(actions);
            assert forall|j: int| 0 <= j < groups.len() implies all_steps(#[trigger] groups[j]) by {
                lemma_steps_are_steps(actions[j]);
            }
            lemma_flatten_all_steps(groups);
        },
        _ => {},
    }
}

/// Where every edit of every group is a single edit, so is every edit of the
/// groups put one after the other.
pub proof fn lemma_flatten_all_steps(groups: Seq<Seq<ActionView>>)
    requires
        forall|j: int| 0 <= j < groups.len() ==> all_steps(#[trigger] groups[j]),
    ensures
        all_steps(groups.flatten()),
    decreases groups.len(),
{
    if groups.len() > 0 {
        let rest = groups.drop_first();
        assert forall|j: int| 0 <= j < rest.len() implies all_steps(#[trigger] rest[j]) by {
            assert(rest[j] == groups[j + 1]);
        }
        lemma_flatten_all_steps(rest);
        assert(groups.flatten() == groups[0] + rest.flatten());
        assert(all_steps(groups[0]));
    }
}

/// Single edits that are taken back, and then taken back again, are the edits
/// that they were.
pub proof fn lemma_taken_back_twice(ps: Seq<ActionView>)
    requires
        all_steps(ps),
    ensures
        taken_back(taken_back(ps)) == ps,
{
    assert forall|i: int| 0 <= i < ps.len() implies taken_back(taken_back(ps))[i] == ps[i] by {
        assert(ps[i].is_step());
    }
    assert(taken_back(taken_back(ps)) =~= ps);
}

/// Where the single edit `p` leaves the cursor, wherever it stood; `None` where it
/// does not move the cursor.
pub open spec fn step_rest(p: ActionView) -> Option<Pos> {
    match p {
        ActionView::InsertChar { pos, cha } => Some(behind_char(pos, cha)),
        ActionView::RemoveChar { pos, cha } => Some(pos),
        ActionView::Insert { start, stop, text } => Some(span_end(start, text)),
        _ => None,
    }
}

/// Where the single edits `ps`, replayed one after the other, leave the cursor,
/// wherever it stood: where the last of them that moves it leaves it. `None`
/// where none of them moves the cursor.
pub open spec fn rest(ps: Seq<ActionView>) -> Option<Pos>
    decreases ps.len(),
{
    if ps.len() == 0 {
        None
    } else {
        match step_rest(ps.last()) {
            Some(k) => Some(k),
            None => rest(ps.drop_last()),
        }
    }
}

/// Edits leave the cursor where the last of them that moves it leaves it, and
/// where it stood if none moves it.
pub proof fn lemma_rest(k: Pos, ps: Seq<ActionView>)
    ensures
        cursor_after(k, ps) == match rest(ps) {
            Some(r) => r,
            None => k,
        },
    decreases ps.len(),
{
    if ps.len() > 0 {
        lemma_rest(k, ps.drop_last());
    }
}

/// The cursor at `k` is one that undo and then redo of `a` bring back to `k`: the
/// replay of `a` leaves the cursor at `k`, or it leaves the cursor alone and the
/// replay of the inverse of `a` leaves it at `k` or alone.
pub open spec fn comes_back(a: ActionView, k: Pos) -> bool {
    match rest(a.steps()) {
        Some(r) => r == k,
        None => match rest(a.inverse().steps()) {
            Some(r) => r == k,
            None => true,
        },
    }
}

/// Undo and then redo, as the text and the cursor see them.
///
/// `t` is the text and `k` the cursor before the undo, and `a` is the action of the
/// node that the history is at, so that `t` is what `a` has left: the inverse of
/// `a` is an action that `t` can take. Replaying the inverse of `a`, which is what
/// undo hands out, and then `a`, which is what redo hands out, leaves the text
/// exactly as it was. It leaves the cursor where it was in just the cases that
/// `comes_back` names: a cursor that was moved away from where `a` left it is not
/// brought back.
pub proof fn lemma_undo_redo_restores(t: Text, k: Pos, a: ActionView)
    requires
        t.len() >= 1,
        can_undo(t, a.inverse()),
    ensures
        replayed(replayed(t, a.inverse()), a) == t,
        cursor_after(cursor_after(k, a.inverse().steps()), a.steps()) == k <==> comes_back(a, k),
{
    lemma_inverse_undoes(t, a.inverse());
    lemma_inverse_steps(a.inverse());
    lemma_inverse_steps(a);
    lemma_steps_are_steps(a);
    lemma_taken_back_twice(a.steps());
    assert(a.inverse().inverse().steps() == a.steps());
    lemma_rest(k, a.inverse().steps());
    lemma_rest(cursor_after(k, a.inverse().steps()), a.steps());
}

/// Undo and then redo, as the history sees them.
///
/// Away from the root, undo moves the location up and hands out the inverse of the
/// action of the node that it leaves, and redo right after it moves the location
/// back to that node and hands out that action. The tree is untouched, and the
/// place that was remembered for redo stays remembered; where none was, the node
/// that undo left is remembered from then on.
pub proof fn lemma_undo_then_redo(h: HistoryView)
    requires
        h.wf(),
        h.location.len() > 0,
    ensures
        h.undo_action() == Some(h.current().action.inverse()),
        h.undone().redo_action() == Some(h.current().action),
        h.undone().redone() == (HistoryView {
            latest_leaf: if h.latest_leaf is None {
                Some(h.location)
            } else {
                h.latest_leaf
            },
            ..h
        }),
        h.undone().redone().wf(),
{
    let u = h.undone();
    let n = h.location.len() as int;
    let leaf = u.latest_leaf->0;
    let i = h.location[n - 1];
    assert(h.location.drop_last().push(i) =~= h.location);
    h.root.lemma_has_take(h.location, n - 1);
    h.root.lemma_at_push(h.location.drop_last(), i);
    assert(leaf.take(n)[n - 1] == h.location[n - 1]);
    assert(leaf.take(n - 1) =~= leaf.take(n).take(n - 1));
    assert(h.location.take(n - 1) =~= h.location.drop_last());
    assert(h.location.take(n) =~= h.location);
}

/// A new edit after an undo makes a new branch.
///
/// After undo from a node that is not the root, an action that is handed to the
/// history, unlocked and with no session being recorded, becomes a new child of
/// the node that undo moved to, behind the child that undo came from, as long as
/// that node can take one more child. The history is then at the new child. The
/// node that undo came from is still in the tree, unchanged with all that hangs
/// below it; a move to it arrives there, and it stands in a row of the browser.
/// Redo no longer leads anywhere: it hands out nothing and leaves the history as
/// it is.
pub proof fn lemma_edit_after_undo_branches(h: HistoryView, a: ActionView, time: int)
    requires
        h.wf(),
        h.location.len() > 0,
        !h.locked,
        h.recording is None,
        h.undone().has_room(),
    ensures
        ({
            let branched = h.undone().recorded(a, time);
            let parent = h.location.drop_last();
            let fresh = branched.location.last();
            &&& branched.wf()
            &&& branched.location == parent.push(fresh)
            &&& fresh == h.root.at(parent).children.len()
            &&& h.location.last() < fresh
            &&& branched.current() == (NodeView { action: a, children: Seq::empty(), time })
            &&& branched.root.has(h.location)
            &&& branched.root.at(h.location) == h.root.at(h.location)
            &&& branched.gone_to(h.location).location == h.location
            &&& exists|row: int|
                1 <= row <= branched.rows().len() && #[trigger] branched.row_to_path(row) == Some(
                    h.location,
                )
            &&& branched.redo_action() is None
            &&& branched.redone() == branched
        }),
{
    let u = h.undone();
    let branched = u.recorded(a, time);
    let parent = h.location.drop_last();
    let n = h.location.len() as int;
    let i = h.location[n - 1];
    let child = NodeView { action: a, children: Seq::empty(), time };
    assert(parent.push(i) =~= h.location);
    assert(h.location.take(n - 1) =~= parent);
    h.root.lemma_has_take(h.location, n - 1);
    h.root.lemma_at_push(parent, i);
    let k = h.root.at(parent).children.len() as usize;
    h.root.lemma_grown(parent, child, parent);
    h.root.lemma_grown(parent, child, h.location);
    h.root.lemma_grown_sized(parent, child);
    branched.root.lemma_at_push(parent, k);
    assert(!begins_with(parent, h.location));
    lemma_every_node_has_a_row(branched, h.location);
}

/// A session that is snipped becomes two nodes, an empty session none.
///
/// With the history unlocked, no session being recorded, and room for one more
/// child at the node that the history is at: a session in which `a` is recorded,
/// which is then snipped, and in which `b` is recorded before it is ended, leaves
/// two runs of actions in the tree, not one. The first holds `a` and
/// is a new last child of the node at which the session began; the second holds
/// `b` and is the only child of the first; the history is at the second. A session
/// that is ended with nothing recorded in it leaves the tree and the location as
/// they were.
pub proof fn lemma_snip_splits(
    h: HistoryView,
    a: ActionView,
    b: ActionView,
    times: (int, int, int, int),
)
    requires
        h.wf(),
        !h.locked,
        h.recording is None,
        h.has_room(),
    ensures
        ({
            let snipped = h.started().recorded(a, times.0).stopped(times.1).started();
            let ended = snipped.recorded(b, times.2).stopped(times.3);
            let first = NodeView {
                action: ActionView::Composite { actions: seq![a], name: session_name(a) },
                children: Seq::empty(),
                time: times.1,
            };
            let second = NodeView {
                action: ActionView::Composite { actions: seq![b], name: session_name(b) },
                children: Seq::empty(),
                time: times.3,
            };
            let fresh = h.current().children.len() as usize;
            &&& snipped.recording == Some(Seq::<ActionView>::empty())
            &&& snipped.location == h.location.push(fresh)
            &&& snipped.root == h.root.grown(h.location, first)
            &&& ended.recording is None
            &&& ended.location == h.location.push(fresh).push(0)
            &&& ended.root == h.root.grown(h.location, first).grown(h.location.push(fresh), second)
            &&& ended.wf()
            &&& ended.current() == second
            &&& ended.root.at(h.location.push(fresh)).action == first.action
            &&& ended.root.at(h.location.push(fresh)).children == seq![second]
        }),
        h.started().stopped(times.0) == h,
{
    let snipped = h.started().recorded(a, times.0).stopped(times.1).started();
    let first = NodeView {
        action: ActionView::Composite { actions: seq![a], name: session_name(a) },
        children: Seq::empty(),
        time: times.1,
    };
    let second = NodeView {
        action: ActionView::Composite { actions: seq![b], name: session_name(b) },
        children: Seq::empty(),
        time: times.3,
    };
    let fresh = h.current().children.len() as usize;
    let at_first = h.location.push(fresh);
    assert(Seq::<ActionView>::empty().push(a) =~= seq![a]);
    assert(Seq::<ActionView>::empty().push(b) =~= seq![b]);
    h.root.lemma_grown(h.location, first, h.location);
    h.root.lemma_grown_sized(h.location, first);
    let grown = h.root.grown(h.location, first);
    grown.lemma_at_push(h.location, fresh);
    assert(grown.at(at_first) == first);
    grown.lemma_grown(at_first, second, at_first);
    grown.lemma_grown_sized(at_first, second);
    let both = grown.grown(at_first, second);
    both.lemma_at_push(at_first, 0);
    assert(both.at(at_first).children =~= seq![second]);
}

/// A row of the browser leads to the node that it shows.
///
/// Whatever row of the browser holds a node, the path that the row gives leads to
/// a node of the tree, and a move to that path arrives at that node. A row behind
/// the last, and a row that fills up between the rows of two nodes, gives no path.
pub proof fn lemma_row_leads_to_node(h: HistoryView, row: int)
    requires
        h.wf(),
    ensures
        match h.row_to_path(row) {
            Some(path) => {
                &&& shows(h.rows(), row - 1, path)
                &&& h.root.has(path)
                &&& h.gone_to(path).location == path
                &&& h.gone_to(path).current() == h.root.at(path)
                &&& h.gone_to(path).wf()
            },
            None => row < 1 || row > h.rows().len() || !(h.rows()[row - 1] is Node),
        },
{
    let first = seq![(h.root, Seq::<usize>::empty())];
    assert(rooted(h.root, first));
    if let Some(path) = h.row_to_path(row) {
        lemma_rows_rooted(h.root, first, row - 1);
    }
}

/// Every node of the tree stands in a row of the browser, so that every node can
/// be reached by the choice of a row.
pub proof fn lemma_every_node_has_a_row(h: HistoryView, path: Seq<usize>)
    requires
        h.wf(),
        h.root.has(path),
    ensures
        exists|row: int| 1 <= row <= h.rows().len() && #[trigger] h.row_to_path(row) == Some(path),
{
    let first = seq![(h.root, Seq::<usize>::empty())];
    assert(rooted(h.root, first));
    lemma_rows_cover(h.root, first, 0, path);
    let r = choose|r: int| shows(h.rows(), r, first[0].1 + path);
    assert(first[0].1 + path =~= path);
    assert(h.row_to_path(r + 1) == Some(path));
}

/// No node of the tree stands in two rows of the browser: two rows that hold a
/// node hold two nodes.
pub proof fn lemma_rows_hold_different_nodes(h: HistoryView, a: int, b: int)
    requires
        h.wf(),
        a != b,
        h.row_to_path(a) is Some,
        h.row_to_path(b) is Some,
    ensures
        h.row_to_path(a) != h.row_to_path(b),
{
    let first = seq![(h.root, Seq::<usize>::empty())];
    assert(rooted(h.root, first));
    assert(spread(first));
    if a < b {
        lemma_rows_differ(h.root, first, a - 1, b - 1);
    } else {
        lemma_rows_differ(h.root, first, b - 1, a - 1);
    }
}

/// The actions of the nodes on the way from `root` along `path`, the root itself
/// left out.
pub open spec fn trail(root: NodeView, path: Seq<usize>) -> Seq<ActionView> {
    Seq::new(path.len(), |i: int| root.at(path.take(i + 1)).action)
}

impl HistoryView {
    /// The history after `actions` were handed to it one after the other, action
    /// `i` at time `times[i]`.
    pub open spec fn recorded_all(self, actions: Seq<ActionView>, times: Seq<int>) -> HistoryView
        decreases actions.len(),
    {
        if actions.len() == 0 {
            self
        } else {
            self.recorded_all(actions.drop_last(), times).recorded(
                actions.last(),
                times[actions.len() - 1],
            )
        }
    }

    /// The history after `n` undos.
    pub open spec fn undone_times(self, n: nat) -> HistoryView
        decreases n,
    {
        if n == 0 {
            self
        } else {
            self.undone().undone_times((n - 1) as nat)
        }
    }

    /// The actions that `n` undos hand out, in the order in which they hand them
    /// out.
    pub open spec fn undo_actions(self, n: nat) -> Seq<ActionView>
        decreases n,
    {
        if n == 0 {
            Seq::empty()
        } else {
            match self.undo_action() {
                Some(a) => seq![a] + self.undone().undo_actions((n - 1) as nat),
                None => self.undone().undo_actions((n - 1) as nat),
            }
        }
    }
}

/// Undos walk the way back: `n` undos, where the location is at least `n` steps
/// below the root, move the location up by `n` steps, leave the tree untouched,
/// and hand out the inverses of the actions of the last `n` nodes on the way to the
/// location, the last node first.
pub proof fn lemma_undos(h: HistoryView, n: nat)
    requires
        h.placed(),
        n <= h.location.len(),
    ensures
        h.undone_times(n).root == h.root,
        h.undone_times(n).location == h.location.take(h.location.len() - n),
        h.undone_times(n).placed(),
        h.undo_actions(n) == Seq::new(
            n,
            |j: int| trail(h.root, h.location)[h.location.len() - 1 - j].inverse(),
        ),
    decreases n,
{
    let len = h.location.len() as int;
    if n == 0 {
        assert(h.location.take(len) =~= h.location);
        assert(h.undo_actions(n) =~= Seq::new(
            n,
            |j: int| trail(h.root, h.location)[len - 1 - j].inverse(),
        ));
    } else {
        let u = h.undone();
        h.root.lemma_has_take(h.location, len - 1);
        lemma_undos(u, (n - 1) as nat);
        assert(h.location.take(len) =~= h.location);
        assert(u.location.take(len - 1 - (n - 1)) =~= h.location.take(len - n));
        assert forall|i: int| 0 <= i < len - 1 implies trail(u.root, u.location)[i] == trail(
            h.root,
            h.location,
        )[i] by {
            assert(u.location.take(i + 1) =~= h.location.take(i + 1));
        }
        assert(h.undo_actions(n) =~= Seq::new(
            n,
            |j: int| trail(h.root, h.location)[len - 1 - j].inverse(),
        ));
    }
}

/// Actions that are handed to a history, unlocked, with no session being recorded
/// and with room for one more child, make the way longer: each becomes a node below the one before, the
/// first of them a child of the node that the history was at.
pub proof fn lemma_records(h: HistoryView, actions: Seq<ActionView>, times: Seq<int>)
    requires
        h.wf(),
        !h.locked,
        h.recording is None,
        h.has_room(),
    ensures
        ({
            let edited = h.recorded_all(actions, times);
            &&& edited.wf()
            &&& !edited.locked
            &&& edited.recording is None
            &&& edited.has_room()
            &&& edited.location.len() == h.location.len() + actions.len()
            &&& edited.location.take(h.location.len() as int) == h.location
            &&& trail(edited.root, edited.location) == trail(h.root, h.location) + actions
        }),
    decreases actions.len(),
{
    let edited = h.recorded_all(actions, times);
    if actions.len() == 0 {
        assert(h.location.take(h.location.len() as int) =~= h.location);
        assert(trail(h.root, h.location) + actions =~= trail(h.root, h.location));
    } else {
        let before = h.recorded_all(actions.drop_last(), times);
        lemma_records(h, actions.drop_last(), times);
        let a = actions.last();
        let child = NodeView {
            action: a,
            children: Seq::empty(),
            time: times[actions.len() - 1],
        };
        let fresh = before.current().children.len() as usize;
        let len = before.location.len() as int;
        before.root.lemma_grown(before.location, child, before.location);
        before.root.lemma_grown_sized(before.location, child);
        edited.root.lemma_at_push(before.location, fresh);
        assert(edited.location.take(h.location.len() as int) =~= before.location.take(
            h.location.len() as int,
        ));
        assert(edited.location.take(len + 1) =~= edited.location);
        assert forall|i: int| 0 <= i < len implies trail(edited.root, edited.location)[i] == trail(
            before.root,
            before.location,
        )[i] by {
            assert(edited.location.take(i + 1) =~= before.location.take(i + 1));
            before.root.lemma_has_take(before.location, i + 1);
            before.root.lemma_grown(before.location, child, before.location.take(i + 1));
        }
        assert(trail(edited.root, edited.location) =~= trail(h.root, h.location) + actions);
    }
}

/// Edits and as many undos lead back to the text as it was.
///
/// `actions` are single edits that were made on the text `t` one after the other,
/// each recorded in the history as it was made, with the history unlocked, no
/// session being recorded, and room for one more child at the node that the
/// history was at. As many undos as there were edits then hand out the
/// inverses of the edits, the last edit first, and bring the history back to the
/// node that it was at. Replayed in that order on the text that the edits have
/// left, they leave `t`, exactly.
///
/// An edit that takes out every line of the text is left out: see
/// `lemma_inverse_undoes`.
pub proof fn lemma_round_trip(h: HistoryView, t: Text, actions: Seq<ActionView>, times: Seq<int>)
    requires
        h.wf(),
        !h.locked,
        h.recording is None,
        h.has_room(),
        t.len() >= 1,
        undoable(t, actions),
    ensures
        ({
            let edited = h.recorded_all(actions, times);
            &&& edited.undo_actions(actions.len()) == taken_back(actions)
            &&& edited.undone_times(actions.len()).location == h.location
            &&& edited.undone_times(actions.len()).root == edited.root
            &&& result(result(t, actions), taken_back(actions)) == t
        }),
{
    let edited = h.recorded_all(actions, times);
    lemma_records(h, actions, times);
    lemma_undos(edited, actions.len());
    lemma_steps_taken_back(t, actions);
    assert(edited.undo_actions(actions.len()) =~= taken_back(actions));
}

} // verus!
