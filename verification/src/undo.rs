use crate::action::{lemma_composite_view, views, ActionView, TextAction};
use crate::common::push_decimal;
use time::OffsetDateTime;
use vstd::prelude::*;
use vstd::string::StringExecFns;

verus! {

/// One action in the tree of all that was done, with the actions that were done
/// after it, each in a branch of its own, and the time at which it was recorded.
#[derive(Debug, PartialEq, Eq)]
pub struct UndoNode {
    pub action: TextAction,
    pub children: Vec<UndoNode>,
    /// Nanoseconds since the Unix epoch.
    pub time: i128,
}

/// An `UndoNode` in the abstract.
pub struct NodeView {
    pub action: ActionView,
    pub children: Seq<NodeView>,
    pub time: int,
}

impl UndoNode {
    /// The node in the abstract.
    pub open spec fn model(self) -> NodeView
        decreases self,
    {
        NodeView {
            action: self.action@,
            children: child_models(self.children@),
            time: self.time as int,
        }
    }
}

/// The nodes `children` in the abstract, one for one.
pub open spec fn child_models(children: Seq<UndoNode>) -> Seq<NodeView>
    decreases children,
{
    Seq::new(
        children.len(),
        |i: int|
            if 0 <= i < children.len() {
                children[i].model()
            } else {
                arbitrary()
            },
    )
}

impl View for UndoNode {
    type V = NodeView;

    open spec fn view(&self) -> NodeView {
        self.model()
    }
}

impl NodeView {
    /// No node of the tree has more children than a `usize` can count.
    pub open spec fn sized(self) -> bool
        decreases self,
    {
        &&& self.children.len() <= usize::MAX
        &&& forall|i: int| 0 <= i < self.children.len() ==> (#[trigger] self.children[i]).sized()
    }

    /// `path` leads from this node to a node below it, or is empty: each of its
    /// steps is the index of a child of the node that the steps before it lead to.
    pub open spec fn has(self, path: Seq<usize>) -> bool
        decreases path.len(),
    {
        path.len() == 0 || (path[0] < self.children.len() && self.children[path[0] as int].has(
            path.drop_first(),
        ))
    }

    /// The node that `path` leads to from this node.
    pub open spec fn at(self, path: Seq<usize>) -> NodeView
        decreases path.len(),
    {
        if path.len() == 0 {
            self
        } else {
            self.children[path[0] as int].at(path.drop_first())
        }
    }

    /// This node, with `child` as one more child, behind the others, of the node
    /// that `path` leads to. Nothing else is changed.
    pub open spec fn grown(self, path: Seq<usize>, child: NodeView) -> NodeView
        decreases path.len(),
    {
        if path.len() == 0 {
            NodeView { children: self.children.push(child), ..self }
        } else {
            NodeView {
                children: self.children.update(
                    path[0] as int,
                    self.children[path[0] as int].grown(path.drop_first(), child),
                ),
                ..self
            }
        }
    }
}

/// The clock of the machine, through `OffsetDateTime::now_utc` and
/// `OffsetDateTime::unix_timestamp_nanos` of the crate `time`: the nanoseconds
/// that have passed since the Unix epoch. Nothing is claimed of the number.
#[verifier::external_body]
pub(crate) fn now() -> i128 {
    OffsetDateTime::now_utc().unix_timestamp_nanos()
}

impl UndoNode {
    /// No node of a tree that is held in memory has more children than a `usize`
    /// can count.
    pub proof fn lemma_sized(self)
        ensures
            self@.sized(),
        decreases self,
    {
        assert(self.children@.len() == self.children.len());
        assert forall|i: int| 0 <= i < self@.children.len() implies (
        #[trigger] self@.children[i]).sized() by {
            self.children@[i].lemma_sized();
            assert(self@.children[i] == self.children@[i]@);
        }
    }

    /// The root of a new tree: no action, no children, recorded now.
    pub fn empty_root() -> (root: Self)
        ensures
            root@.action == ActionView::NoOp,
            root@.children.len() == 0,
    {
        UndoNode::at_time(TextAction::NoOp, now())
    }

    /// A node for `action` without children, recorded now.
    pub fn new(action: TextAction) -> (node: Self)
        ensures
            node@.action == action@,
            node@.children.len() == 0,
    {
        UndoNode::at_time(action, now())
    }

    /// A node for `action` without children, recorded at `time`.
    pub fn at_time(action: TextAction, time: i128) -> (node: Self)
        ensures
            node@ == (NodeView { action: action@, children: Seq::empty(), time: time as int }),
    {
        let node = UndoNode { action, children: Vec::new(), time };
        assert(node@.children =~= Seq::empty());
        node
    }

    /// Whether `path`, from its step `from` on, leads from this node to a node.
    pub fn has_node(&self, path: &Vec<usize>, from: usize) -> (found: bool)
        requires
            from <= path@.len(),
        ensures
            found == self@.has(path@.skip(from as int)),
        decreases path@.len() - from,
    {
        if from == path.len() {
            true
        } else {
            let i = path[from];
            proof {
                assert(path@.skip(from as int).drop_first() == path@.skip(from + 1));
            }
            if i < self.children.len() {
                self.children[i].has_node(path, from + 1)
            } else {
                false
            }
        }
    }

    /// The node that `path`, from its step `from` on, leads to from this node.
    pub fn node_at(&self, path: &Vec<usize>, from: usize) -> (node: &UndoNode)
        requires
            from <= path@.len(),
            self@.has(path@.skip(from as int)),
        ensures
            node@ == self@.at(path@.skip(from as int)),
        decreases path@.len() - from,
    {
        if from == path.len() {
            self
        } else {
            let i = path[from];
            proof {
                assert(path@.skip(from as int).drop_first() == path@.skip(from + 1));
            }
            self.children[i].node_at(path, from + 1)
        }
    }

    /// Gives the node that `path`, from its step `from` on, leads to `child` as one
    /// more child, behind the others.
    pub fn grow(&mut self, path: &Vec<usize>, from: usize, child: UndoNode)
        requires
            from <= path@.len(),
            old(self)@.has(path@.skip(from as int)),
        ensures
            final(self)@ == old(self)@.grown(path@.skip(from as int), child@),
        decreases path@.len() - from,
    {
        if from == path.len() {
            self.children.push(child);
            assert(final(self)@.children =~= old(self)@.children.push(child@));
        } else {
            let i = path[from];
            proof {
                assert(path@.skip(from as int).drop_first() == path@.skip(from + 1));
            }
            let ghost before = self.children@[i as int]@;
            self.children[i].grow(path, from + 1, child);
            assert(self@.children =~= old(self)@.children.update(
                i as int,
                before.grown(path@.skip(from + 1), child@),
            ));
        }
    }
}

/// `a` begins with `b`, or is `b`.
pub open spec fn begins_with(a: Seq<usize>, b: Seq<usize>) -> bool {
    b.len() <= a.len() && a.take(b.len() as int) == b
}

/// What a misuse of the recording of a session is called.
#[derive(Debug, Clone, Copy, PartialEq, Eq, Structural)]
pub enum RecordError {
    /// A session was to be started while one was being recorded.
    AlreadyRecording,
    /// A session was to be ended while none was being recorded.
    NotRecording,
}

/// The tree of all actions that were done on a text, with the place in it that the
/// text is at.
///
/// `location` is the path from the root to the node whose action was the last one
/// done to reach the text as it is now; at the root nothing has been done.
/// `latest_leaf` remembers the place that the first of a run of undos left, so that
/// redo finds its way back. While `locked`, nothing is recorded. While `recording`
/// holds a list, actions are collected in it and not in the tree. `scroll` is the
/// first row that the browser of the tree shows.
pub struct History {
    pub root: UndoNode,
    pub location: Vec<usize>,
    pub latest_leaf: Option<Vec<usize>>,
    pub scroll: usize,
    pub locked: bool,
    pub recording: Option<Vec<TextAction>>,
}

/// A `History` in the abstract.
pub struct HistoryView {
    pub root: NodeView,
    pub location: Seq<usize>,
    pub latest_leaf: Option<Seq<usize>>,
    pub scroll: int,
    pub locked: bool,
    pub recording: Option<Seq<ActionView>>,
}

impl View for History {
    type V = HistoryView;

    open spec fn view(&self) -> HistoryView {
        HistoryView {
            root: self.root@,
            location: self.location@,
            latest_leaf: match self.latest_leaf {
                Some(leaf) => Some(leaf@),
                None => None,
            },
            scroll: self.scroll as int,
            locked: self.locked,
            recording: match self.recording {
                Some(actions) => Some(views(actions@)),
                None => None,
            },
        }
    }
}

/// The name of a session whose first action is `first`: "Edit text at line " and
/// the row of `first` where that is a single character put in or taken out, and
/// "-1" in place of the row where it is anything else.
pub open spec fn session_name(first: ActionView) -> Seq<char> {
    "Edit text at line "@ + match first {
        ActionView::InsertChar { pos, cha } => crate::common::decimal(pos.0 as nat),
        ActionView::RemoveChar { pos, cha } => crate::common::decimal(pos.0 as nat),
        _ => seq!['-', '1'],
    }
}

impl HistoryView {
    /// The location leads to a node of the tree.
    pub open spec fn placed(self) -> bool {
        self.root.has(self.location)
    }

    /// The location leads to a node of the tree, and the place that is remembered
    /// for redo, if there is one, is a node of the tree at or below the location.
    pub open spec fn wf(self) -> bool {
        &&& self.root.sized()
        &&& self.placed()
        &&& match self.latest_leaf {
            Some(leaf) => self.root.has(leaf) && begins_with(leaf, self.location),
            None => true,
        }
    }

    /// The node that the text is at.
    pub open spec fn current(self) -> NodeView {
        self.root.at(self.location)
    }

    /// The node that the text is at can take one more child: it has fewer than
    /// a `usize` can count.
    pub open spec fn has_room(self) -> bool {
        self.current().children.len() < usize::MAX
    }

    /// The history after `a` was handed to it at `time`. Locked, it is unchanged.
    /// While a session is recorded, `a` goes to the end of the session's list.
    /// Else `a` becomes a new last child of the current node, the location moves
    /// on to that child, and no place is remembered for redo any more.
    pub open spec fn recorded(self, a: ActionView, time: int) -> HistoryView {
        if self.locked {
            self
        } else if let Some(actions) = self.recording {
            HistoryView { recording: Some(actions.push(a)), ..self }
        } else {
            HistoryView {
                root: self.root.grown(
                    self.location,
                    NodeView { action: a, children: Seq::empty(), time },
                ),
                location: self.location.push(self.current().children.len() as usize),
                latest_leaf: None,
                ..self
            }
        }
    }

    /// The action that undo hands out: the inverse of the action of the current
    /// node. At the root there is none.
    pub open spec fn undo_action(self) -> Option<ActionView> {
        if self.location.len() == 0 {
            None
        } else {
            Some(self.current().action.inverse())
        }
    }

    /// The history after undo. At the root it is unchanged. Else the location
    /// moves up to the parent, and the place that it leaves is remembered for
    /// redo unless a place is remembered already.
    pub open spec fn undone(self) -> HistoryView {
        if self.location.len() == 0 {
            self
        } else {
            HistoryView {
                location: self.location.drop_last(),
                latest_leaf: if self.latest_leaf is None {
                    Some(self.location)
                } else {
                    self.latest_leaf
                },
                ..self
            }
        }
    }

    /// The child of the current node that redo moves to: the next step on the way
    /// to the remembered place. There is none unless a place is remembered, lies
    /// below the location, and that step is a child of the current node.
    pub open spec fn redo_step(self) -> Option<usize> {
        match self.latest_leaf {
            Some(leaf) => if leaf.len() > self.location.len() && begins_with(leaf, self.location)
                && leaf[self.location.len() as int] < self.current().children.len() {
                Some(leaf[self.location.len() as int])
            } else {
                None
            },
            None => None,
        }
    }

    /// The history after a move down to child `i` of the current node, or
    /// unchanged where the current node has no child `i`.
    pub open spec fn moved_down(self, i: usize) -> HistoryView {
        if i < self.current().children.len() {
            HistoryView { location: self.location.push(i), ..self }
        } else {
            self
        }
    }

    /// The action that a move down to child `i` of the current node hands out: the
    /// action of that child.
    pub open spec fn down_action(self, i: usize) -> Option<ActionView> {
        if i < self.current().children.len() {
            Some(self.current().children[i as int].action)
        } else {
            None
        }
    }

    /// The action that redo hands out: the action of the child it moves to.
    pub open spec fn redo_action(self) -> Option<ActionView> {
        match self.redo_step() {
            Some(i) => self.down_action(i),
            None => None,
        }
    }

    /// The history after redo: moved down to the child that is the next step on
    /// the way to the remembered place, which stays remembered.
    pub open spec fn redone(self) -> HistoryView {
        match self.redo_step() {
            Some(i) => self.moved_down(i),
            None => self,
        }
    }

    /// The history after the session that is recorded was ended at `time`. The
    /// actions of the session become one run of actions, which is handed to the
    /// history as one action; an empty session leaves nothing behind.
    pub open spec fn stopped(self, time: int) -> HistoryView {
        match self.recording {
            Some(actions) => {
                let idle = HistoryView { recording: None, ..self };
                if actions.len() == 0 {
                    idle
                } else {
                    idle.recorded(
                        ActionView::Composite { actions, name: session_name(actions[0]) },
                        time,
                    )
                }
            },
            None => self,
        }
    }

    /// The history after the session that is recorded, if one is, was ended at
    /// `time` and a new one begun. With no session being recorded the history
    /// stays as it is.
    pub open spec fn snipped(self, time: int) -> HistoryView {
        if self.recording is Some {
            self.stopped(time).started()
        } else {
            self
        }
    }

    /// The history with a new, empty session being recorded.
    pub open spec fn started(self) -> HistoryView {
        HistoryView { recording: Some(Seq::empty()), ..self }
    }
}

impl NodeView {
    /// A path that leads to a node leads to a node at each of its steps.
    pub proof fn lemma_has_take(self, path: Seq<usize>, k: int)
        requires
            self.has(path),
            0 <= k <= path.len(),
        ensures
            self.has(path.take(k)),
        decreases path.len(),
    {
        if k > 0 {
            let child = self.children[path[0] as int];
            child.lemma_has_take(path.drop_first(), k - 1);
            assert(path.take(k).drop_first() == path.drop_first().take(k - 1));
        }
    }

    /// One step more: a path with one more step leads to a node where the path
    /// leads to a node that has a child with the index of that step, and the node
    /// that it leads to is that child.
    pub proof fn lemma_at_push(self, path: Seq<usize>, i: usize)
        ensures
            self.has(path.push(i)) == (self.has(path) && i < self.at(path).children.len()),
            self.has(path.push(i)) ==> self.at(path.push(i)) == self.at(path).children[i as int],
        decreases path.len(),
    {
        reveal_with_fuel(NodeView::has, 2);
        reveal_with_fuel(NodeView::at, 2);
        if path.len() == 0 {
            assert(path.push(i).drop_first() == path);
        } else {
            assert(path.push(i).drop_first() == path.drop_first().push(i));
            if path[0] < self.children.len() {
                self.children[path[0] as int].lemma_at_push(path.drop_first(), i);
            }
        }
    }

    /// A tree that has grown a child still holds every node that it held, with
    /// its action and its time, and each node that does not lie on the way to the
    /// new child is as it was. The new child is the last child of the node that
    /// it was given to, behind the children that were there.
    pub proof fn lemma_grown(self, path: Seq<usize>, child: NodeView, q: Seq<usize>)
        requires
            self.has(path),
            self.has(q),
        ensures
            self.grown(path, child).has(q),
            self.grown(path, child).at(q).action == self.at(q).action,
            self.grown(path, child).at(q).time == self.at(q).time,
            !begins_with(path, q) ==> self.grown(path, child).at(q) == self.at(q),
            self.grown(path, child).at(path).children == self.at(path).children.push(child),
        decreases path.len() + q.len(),
    {
        let g = self.grown(path, child);
        if path.len() == 0 {
            if q.len() > 0 {
                assert(g.children[q[0] as int] == self.children[q[0] as int]);
            } else {
                assert(path.take(0) =~= q);
            }
        } else {
            let i = path[0];
            let sub = self.children[i as int];
            if q.len() == 0 {
                sub.lemma_grown(path.drop_first(), child, Seq::empty());
                assert(path.take(0) =~= q);
            } else if q[0] == i {
                sub.lemma_grown(path.drop_first(), child, q.drop_first());
                if !begins_with(path, q) {
                    if q.len() <= path.len() {
                        assert(path.take(q.len() as int).drop_first() == path.drop_first().take(
                            q.len() - 1,
                        ));
                        assert(path.take(q.len() as int) =~= seq![i] + path.drop_first().take(
                            q.len() - 1,
                        ));
                        assert(q =~= seq![i] + q.drop_first());
                    }
                }
            } else {
                sub.lemma_grown(path.drop_first(), child, Seq::empty());
                assert(g.children[q[0] as int] == self.children[q[0] as int]);
                if q.len() <= path.len() {
                    assert(path.take(q.len() as int)[0] == i);
                }
            }
        }
    }
}

impl NodeView {
    /// In a tree of nodes with room for their children, every node is the root of
    /// such a tree.
    pub proof fn lemma_at_sized(self, path: Seq<usize>)
        requires
            self.sized(),
            self.has(path),
        ensures
            self.at(path).sized(),
        decreases path.len(),
    {
        if path.len() > 0 {
            self.children[path[0] as int].lemma_at_sized(path.drop_first());
        }
    }

    /// A tree that has grown a child that is a tree of nodes with room for their
    /// children, at a node that had room for one more child, is such a tree.
    pub proof fn lemma_grown_sized(self, path: Seq<usize>, child: NodeView)
        requires
            self.sized(),
            self.has(path),
            child.sized(),
            self.at(path).children.len() < usize::MAX,
        ensures
            self.grown(path, child).sized(),
        decreases path.len(),
    {
        let g = self.grown(path, child);
        if path.len() > 0 {
            let i = path[0] as int;
            self.children[i].lemma_grown_sized(path.drop_first(), child);
            assert forall|j: int| 0 <= j < g.children.len() implies (#[trigger] g.children[j]).sized() by {
                if j != i {
                    assert(g.children[j] == self.children[j]);
                }
            }
        } else {
            assert forall|j: int| 0 <= j < g.children.len() implies (#[trigger] g.children[j]).sized() by {
                if j < self.children.len() {
                    assert(g.children[j] == self.children[j]);
                }
            }
        }
    }
}

impl History {
    /// The history of a text to which nothing has been done.
    pub fn new() -> (hist: Self)
        ensures
            hist@.wf(),
            hist@.root.action == ActionView::NoOp,
            hist@.root.children.len() == 0,
            hist@.location.len() == 0,
            hist@.latest_leaf is None,
            hist@.scroll == 1,
            !hist@.locked,
            hist@.recording is None,
    {
        let hist = History {
            root: UndoNode::empty_root(),
            location: Vec::new(),
            latest_leaf: None,
            scroll: 1,
            locked: false,
            recording: None,
        };
        proof {
            hist.root.lemma_sized();
        }
        hist
    }

    /// Whether `path` leads from the root to a node of the tree.
    pub fn has_node(&self, path: &Vec<usize>) -> (found: bool)
        ensures
            found == self@.root.has(path@),
    {
        assert(path@.skip(0) == path@);
        self.root.has_node(path, 0)
    }

    /// The node that `indices` leads to from the root.
    pub fn get_node(&self, indices: &Vec<usize>) -> (node: &UndoNode)
        requires
            self@.root.has(indices@),
        ensures
            node@ == self@.root.at(indices@),
    {
        assert(indices@.skip(0) == indices@);
        self.root.node_at(indices, 0)
    }

    /// The node that the text is at.
    pub fn get_current_node(&self) -> (node: &UndoNode)
        requires
            self@.placed(),
        ensures
            node@ == self@.current(),
    {
        self.get_node(&self.location)
    }

    /// Hands `action` to the history as done at `time`.
    pub fn add_node_at(&mut self, action: TextAction, time: i128)
        requires
            old(self)@.wf(),
        ensures
            final(self)@ == old(self)@.recorded(action@, time as int),
            final(self)@.wf(),
    {
        if self.locked {
            return ;
        }
        match &mut self.recording {
            Some(record) => {
                let ghost before = views(record@);
                record.push(action);
                assert(views(record@) =~= before.push(action@));
                return ;
            },
            None => {},
        }
        let node = UndoNode::at_time(action, time);
        assert(self.location@.skip(0) == self.location@);
        let k = self.root.node_at(&self.location, 0).children.len();
        proof {
            self.root@.lemma_grown(self.location@, node@, self.location@);
            self.root@.grown(self.location@, node@).lemma_at_push(self.location@, k);
        }
        self.root.grow(&self.location, 0, node);
        self.location.push(k);
        self.latest_leaf = None;
        proof {
            self.root.lemma_sized();
        }
    }

    /// Hands `action` to the history as done now.
    pub fn add_node(&mut self, action: TextAction)
        requires
            old(self)@.wf(),
        ensures
            exists|time: int| final(self)@ == #[trigger] old(self)@.recorded(action@, time),
            final(self)@.wf(),
    {
        let time = now();
        self.add_node_at(action, time);
        assert(self@ == old(self)@.recorded(action@, time as int));
    }

    /// Moves up to the parent of the current node and hands out the action that
    /// takes back what the current node has done. At the root nothing is done and
    /// nothing handed out.
    pub fn undo(&mut self) -> (back: Option<TextAction>)
        requires
            old(self)@.wf(),
        ensures
            final(self)@ == old(self)@.undone(),
            final(self)@.wf(),
            match back {
                Some(action) => old(self)@.undo_action() == Some(action@),
                None => old(self)@.undo_action() is None,
            },
    {
        if self.location.len() > 0 {
            if self.latest_leaf.is_none() {
                let leaf = self.location.clone();
                assert(leaf@ =~= self.location@);
                self.latest_leaf = Some(leaf);
            }
            let action = self.get_current_node().action.inverse();
            proof {
                let n = self.location@.len() as int;
                self@.root.lemma_has_take(self.location@, n - 1);
                let leaf = self@.latest_leaf->0;
                assert(leaf.take(n - 1) =~= leaf.take(n).take(n - 1));
            }
            self.location.pop();
            Some(action)
        } else {
            None
        }
    }

    /// Moves down to child `i` of the current node and hands out its action. Where
    /// the current node has no child `i`, nothing is done and nothing handed out.
    fn goto_child(&mut self, i: usize) -> (forth: Option<TextAction>)
        requires
            old(self)@.placed(),
        ensures
            final(self)@ == old(self)@.moved_down(i),
            final(self)@.placed(),
            match forth {
                Some(action) => old(self)@.down_action(i) == Some(action@),
                None => old(self)@.down_action(i) is None,
            },
    {
        let node = self.get_current_node();
        if i < node.children.len() {
            let action = node.children[i].action.clone();
            proof {
                self@.root.lemma_at_push(self.location@, i);
                assert(node@.children[i as int] == node.children@[i as int]@);
            }
            self.location.push(i);
            Some(action)
        } else {
            None
        }
    }

    /// Moves one step down towards the place that undo has remembered, and hands
    /// out the action of the node it moves to. Where no place is remembered, or
    /// the remembered place does not lie below the current node, nothing is done
    /// and nothing handed out.
    pub fn redo(&mut self) -> (forth: Option<TextAction>)
        requires
            old(self)@.wf(),
        ensures
            final(self)@ == old(self)@.redone(),
            final(self)@.wf(),
            match forth {
                Some(action) => old(self)@.redo_action() == Some(action@),
                None => old(self)@.redo_action() is None,
            },
    {
        let mut step: Option<usize> = None;
        match &self.latest_leaf {
            Some(leaf_path) => {
                if leaf_path.len() > self.location.len() && starts_with(leaf_path, &self.location) {
                    step = Some(leaf_path[self.location.len()]);
                }
            },
            None => {},
        }
        proof {
            if let Some(i) = step {
                let leaf = self@.latest_leaf->0;
                let n = self@.location.len() as int;
                assert(leaf.take(n + 1) =~= self@.location.push(i));
                self@.root.lemma_has_take(leaf, n + 1);
                self@.root.lemma_at_push(self@.location, i);
            }
        }
        match step {
            Some(i) => self.goto_child(i),
            None => None,
        }
    }

    /// Whether the location leads to a node of the tree and the place that is
    /// remembered for redo, if there is one, is a node of the tree at or below
    /// the location.
    pub fn is_wf(&self) -> (ok: bool)
        ensures
            ok == self@.wf(),
    {
        proof {
            self.root.lemma_sized();
        }
        if !self.has_node(&self.location) {
            return false;
        }
        match &self.latest_leaf {
            Some(leaf) => self.has_node(leaf) && starts_with(leaf, &self.location),
            None => true,
        }
    }

    /// Whether a session is being recorded.
    pub fn is_recording(&self) -> (recording: bool)
        ensures
            recording == self@.recording is Some,
    {
        self.recording.is_some()
    }

    /// Begins to record a session. While one is being recorded this is refused,
    /// and the history is left as it is.
    pub fn start_record(&mut self) -> (started: Result<(), RecordError>)
        ensures
            old(self)@.recording is None ==> started is Ok && final(self)@ == old(
                self,
            )@.started(),
            old(self)@.recording is Some ==> started == Err::<(), RecordError>(
                RecordError::AlreadyRecording,
            ) && final(self)@ == old(self)@,
    {
        if self.is_recording() {
            return Err(RecordError::AlreadyRecording);
        }
        let session: Vec<TextAction> = Vec::new();
        assert(views(session@) =~= Seq::empty());
        self.recording = Some(session);
        Ok(())
    }

    /// Ends the session that is being recorded, as of `time`. While none is being
    /// recorded this is refused, and the history is left as it is.
    pub fn stop_record_at(&mut self, time: i128) -> (stopped: Result<(), RecordError>)
        requires
            old(self)@.wf(),
        ensures
            final(self)@ == old(self)@.stopped(time as int),
            final(self)@.wf(),
            stopped is Ok <==> old(self)@.recording is Some,
            stopped is Err ==> stopped == Err::<(), RecordError>(RecordError::NotRecording),
    {
        match self.recording.take() {
            Some(records) => {
                if records.len() == 0 {
                    assert(views(records@) =~= Seq::empty());
                    return Ok(());
                }
                let mut name = String::from_str("Edit text at line ");
                match &records[0] {
                    TextAction::InsertChar { pos, cha } => {
                        push_decimal(&mut name, pos.0);
                    },
                    TextAction::RemoveChar { pos, cha } => {
                        push_decimal(&mut name, pos.0);
                    },
                    _ => {
                        name.push('-');
                        name.push('1');
                    },
                }
                assert(name@ =~= session_name(records@[0]@));
                let action = TextAction::Composite { actions: records, name };
                proof {
                    lemma_composite_view(action);
                }
                self.add_node_at(action, time);
                Ok(())
            },
            None => Err(RecordError::NotRecording),
        }
    }

    /// Ends the session that is being recorded, as of now. While none is being
    /// recorded this is refused, and the history is left as it is.
    pub fn stop_record(&mut self) -> (stopped: Result<(), RecordError>)
        requires
            old(self)@.wf(),
        ensures
            exists|time: int| final(self)@ == #[trigger] old(self)@.stopped(time),
            final(self)@.wf(),
            stopped is Ok <==> old(self)@.recording is Some,
            stopped is Err ==> stopped == Err::<(), RecordError>(RecordError::NotRecording),
    {
        let time = now();
        let stopped = self.stop_record_at(time);
        assert(self@ == old(self)@.stopped(time as int));
        stopped
    }

    /// Ends the session that is being recorded, as of `time`, and begins a new
    /// one. While none is being recorded this is refused, and the history is left
    /// as it is.
    pub fn snip_record_at(&mut self, time: i128) -> (snipped: Result<(), RecordError>)
        requires
            old(self)@.wf(),
        ensures
            final(self)@ == old(self)@.snipped(time as int),
            old(self)@.recording is Some ==> snipped is Ok,
            old(self)@.recording is None ==> snipped == Err::<(), RecordError>(
                RecordError::NotRecording,
            ),
            final(self)@.wf(),
    {
        if self.is_recording() {
            let _ = self.stop_record_at(time);
            self.start_record()
        } else {
            Err(RecordError::NotRecording)
        }
    }

    /// Ends the session that is being recorded, as of now, and begins a new one.
    /// While none is being recorded this is refused, and the history is left as it
    /// is.
    pub fn snip_record(&mut self) -> (snipped: Result<(), RecordError>)
        requires
            old(self)@.wf(),
        ensures
            exists|time: int| final(self)@ == #[trigger] old(self)@.snipped(time),
            old(self)@.recording is Some ==> snipped is Ok,
            old(self)@.recording is None ==> snipped == Err::<(), RecordError>(
                RecordError::NotRecording,
            ),
            final(self)@.wf(),
    {
        let time = now();
        let snipped = self.snip_record_at(time);
        assert(self@ == old(self)@.snipped(time as int));
        snipped
    }
}

/// How many steps `a` and `b` have in common at their beginning.
pub open spec fn shared(a: Seq<usize>, b: Seq<usize>) -> nat
    decreases a.len(),
{
    if a.len() == 0 || b.len() == 0 || a[0] != b[0] {
        0
    } else {
        1 + shared(a.drop_first(), b.drop_first())
    }
}

/// `a` and `b` have their first `shared(a, b)` steps in common and no more: `b`
/// begins with the first `n` steps of `a` just where `n` is at most that number.
pub proof fn lemma_shared(a: Seq<usize>, b: Seq<usize>, n: int)
    requires
        0 <= n <= a.len(),
    ensures
        shared(a, b) <= a.len(),
        shared(a, b) <= b.len(),
        begins_with(b, a.take(n)) <==> n <= shared(a, b),
    decreases a.len(),
{
    if n == 0 {
        assert(b.take(0) =~= a.take(0));
    }
    if a.len() == 0 || b.len() == 0 || a[0] != b[0] {
        if 0 < n <= b.len() {
            assert(a.take(n)[0] == a[0]);
            assert(b.take(n)[0] == b[0]);
        }
    } else {
        if n > 0 {
            lemma_shared(a.drop_first(), b.drop_first(), n - 1);
            assert(a.drop_first().take(n - 1) == a.take(n).drop_first());
            if n <= b.len() {
                assert(b.drop_first().take(n - 1) == b.take(n).drop_first());
                assert(b.take(n) =~= seq![b[0]] + b.take(n).drop_first());
                assert(a.take(n) =~= seq![a[0]] + a.take(n).drop_first());
            }
        } else {
            lemma_shared(a.drop_first(), b.drop_first(), 0);
        }
    }
}

impl HistoryView {
    /// The actions that lead from the text at the location to the text at
    /// `target`, in the order in which they are to be replayed: first the inverses
    /// of the actions on the way up from the location to the last node that both
    /// ways have in common, then the actions on the way down from there to
    /// `target`.
    pub open spec fn way_to(self, target: Seq<usize>) -> Seq<ActionView> {
        let common = shared(self.location, target) as int;
        Seq::new(
            (self.location.len() - common) as nat,
            |k: int| self.root.at(self.location.take(self.location.len() - k)).action.inverse(),
        ) + Seq::new(
            (target.len() - common) as nat,
            |k: int| self.root.at(target.take(common + 1 + k)).action,
        )
    }

    /// The history after a move to `target`: the location is `target`, and no
    /// place is remembered for redo. Where `target` leads to no node, the history
    /// is unchanged.
    pub open spec fn gone_to(self, target: Seq<usize>) -> HistoryView {
        if self.root.has(target) {
            HistoryView { location: target, latest_leaf: None, ..self }
        } else {
            self
        }
    }
}

impl History {
    /// Moves to the node that `new_loc` leads to and hands out the actions that
    /// bring the text there. Where `new_loc` leads to no node, nothing is done and
    /// nothing handed out.
    pub fn goto_node(&mut self, new_loc: Vec<usize>) -> (way: Option<Vec<TextAction>>)
        requires
            old(self)@.wf(),
        ensures
            final(self)@ == old(self)@.gone_to(new_loc@),
            final(self)@.wf(),
            match way {
                Some(actions) => old(self)@.root.has(new_loc@) && views(actions@) == old(
                    self,
                )@.way_to(new_loc@),
                None => !old(self)@.root.has(new_loc@),
            },
    {
        if !self.has_node(&new_loc) {
            return None;
        }
        let ghost start = self@;
        let ghost common = shared(start.location, new_loc@) as int;
        let ghost ups = Seq::new(
            (start.location.len() - common) as nat,
            |k: int| start.root.at(start.location.take(start.location.len() - k)).action.inverse(),
        );
        let ghost downs = Seq::new(
            (new_loc@.len() - common) as nat,
            |k: int| start.root.at(new_loc@.take(common + 1 + k)).action,
        );
        proof {
            lemma_shared(start.location, new_loc@, 0);
            assert(start.location.take(start.location.len() as int) == start.location);
        }
        let mut actions: Vec<TextAction> = Vec::new();
        while !starts_with(&new_loc, &self.location)
            invariant
                self@.wf(),
                self@.root == start.root,
                self@.scroll == start.scroll,
                self@.locked == start.locked,
                self@.recording == start.recording,
                start.root.has(start.location),
                common <= self@.location.len() <= start.location.len(),
                common == shared(start.location, new_loc@),
                self@.location == start.location.take(self@.location.len() as int),
                views(actions@) =~= ups.take(start.location.len() - self@.location.len()),
                ups.len() == start.location.len() - common,
                forall|k: int|
                    0 <= k < ups.len() ==> ups[k] == start.root.at(
                        start.location.take(start.location.len() - k),
                    ).action.inverse(),
            decreases self@.location.len(),
        {
            let ghost n = self@.location.len() as int;
            proof {
                lemma_shared(start.location, new_loc@, n);
            }
            let back = self.undo();
            let ghost before = views(actions@);
            match back {
                Some(action) => {
                    actions.push(action);
                    proof {
                        assert(start.location.take(n).drop_last() == start.location.take(n - 1));
                        assert(views(actions@) =~= before.push(action@));
                    }
                },
                None => {},
            }
        }
        proof {
            lemma_shared(start.location, new_loc@, self@.location.len() as int);
            assert(views(actions@) =~= ups);
        }
        while self.location.len() < new_loc.len()
            invariant
                self@.placed(),
                self@.root == start.root,
                self@.scroll == start.scroll,
                self@.locked == start.locked,
                self@.recording == start.recording,
                start.root.has(new_loc@),
                common <= self@.location.len() <= new_loc@.len(),
                self@.location == new_loc@.take(self@.location.len() as int),
                views(actions@) =~= ups + downs.take(self@.location.len() - common),
                downs.len() == new_loc@.len() - common,
                forall|k: int|
                    0 <= k < downs.len() ==> downs[k] == start.root.at(
                        new_loc@.take(common + 1 + k),
                    ).action,
            decreases new_loc@.len() - self@.location.len(),
        {
            let ghost n = self@.location.len() as int;
            let i = new_loc[self.location.len()];
            proof {
                start.root.lemma_has_take(new_loc@, n + 1);
                assert(new_loc@.take(n + 1) == new_loc@.take(n).push(i));
                start.root.lemma_at_push(new_loc@.take(n), i);
            }
            let forth = self.goto_child(i);
            let ghost before = views(actions@);
            match forth {
                Some(action) => {
                    actions.push(action);
                    proof {
                        assert(views(actions@) =~= before.push(action@));
                    }
                },
                None => {},
            }
        }
        proof {
            assert(new_loc@.take(new_loc@.len() as int) == new_loc@);
            assert(views(actions@) =~= ups + downs);
        }
        self.latest_leaf = None;
        Some(actions)
    }
}

/// Whether `a` begins with `b`, or is `b`.
pub fn starts_with(a: &Vec<usize>, b: &Vec<usize>) -> (found: bool)
    ensures
        found == begins_with(a@, b@),
{
    if b.len() > a.len() {
        return false;
    }
    let mut i: usize = 0;
    while i < b.len()
        invariant
            i <= b@.len() <= a@.len(),
            a@.take(i as int) == b@.take(i as int),
        decreases b@.len() - i,
    {
        if a[i] != b[i] {
            assert(a@.take(b@.len() as int)[i as int] != b@[i as int]);
            return false;
        }
        assert(a@.take(i + 1) =~= a@.take(i as int).push(a@[i as int]));
        assert(b@.take(i + 1) =~= b@.take(i as int).push(b@[i as int]));
        i += 1;
    }
    assert(b@.take(b@.len() as int) == b@);
    true
}

} // verus!
