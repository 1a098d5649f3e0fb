use crate::action::TextAction;
use crate::undo::{begins_with, History, HistoryView, NodeView, UndoNode};
use vstd::prelude::*;

verus! {

/// The nodes that wait to be shown, each with the path that leads to it from the
/// root, in the abstract.
pub type Frontier = Seq<(NodeView, Seq<usize>)>;

/// One row of the browser of the tree.
#[derive(Debug, Clone, PartialEq, Eq)]
pub enum HistoryRow {
    /// The row of a node: the path to the node, the column in which it is drawn,
    /// and how many columns the row has.
    Node { path: Vec<usize>, column: usize, width: usize },
    /// The row behind a node without children that is not drawn in the last
    /// column: its branch ends in `column`, and the branches to its right close
    /// up.
    Join { column: usize, width: usize },
    /// One row for each child but the first of a node with several children: a
    /// new branch leaves `column` and becomes the last of `width` columns.
    Fork { column: usize, width: usize },
}

/// A `HistoryRow` in the abstract.
pub enum RowView {
    Node { path: Seq<usize>, column: int, width: int },
    Join { column: int, width: int },
    Fork { column: int, width: int },
}

impl View for HistoryRow {
    type V = RowView;

    open spec fn view(&self) -> RowView {
        match self {
            HistoryRow::Node { path, column, width } => RowView::Node {
                path: path@,
                column: *column as int,
                width: *width as int,
            },
            HistoryRow::Join { column, width } => RowView::Join {
                column: *column as int,
                width: *width as int,
            },
            HistoryRow::Fork { column, width } => RowView::Fork {
                column: *column as int,
                width: *width as int,
            },
        }
    }
}

/// The rows `rows` in the abstract, one for one.
pub open spec fn row_views(rows: Seq<HistoryRow>) -> Seq<RowView> {
    Seq::new(rows.len(), |i: int| rows[i]@)
}

/// The sum of the numbers `s`.
pub open spec fn sum(s: Seq<nat>) -> nat
    decreases s.len(),
{
    if s.len() == 0 {
        0
    } else {
        sum(s.drop_last()) + s.last()
    }
}

impl NodeView {
    /// How many nodes the tree below and with this node has.
    pub open spec fn weight(self) -> nat
        decreases self,
    {
        1 + sum(weights(self.children))
    }
}

/// The weight of each of `nodes`.
pub open spec fn weights(nodes: Seq<NodeView>) -> Seq<nat>
    decreases nodes,
{
    Seq::new(
        nodes.len(),
        |i: int|
            if 0 <= i < nodes.len() {
                nodes[i].weight()
            } else {
                0
            },
    )
}

/// How many nodes wait to be shown in and below `frontier`.
pub open spec fn load(frontier: Frontier) -> nat {
    sum(Seq::new(frontier.len(), |i: int| frontier[i].0.weight()))
}

/// The index of the node of `frontier` that was recorded first; of several that
/// were recorded at the same time, the one that comes first in `frontier`.
pub open spec fn earliest(frontier: Frontier) -> int
    decreases frontier.len(),
{
    if frontier.len() <= 1 {
        0
    } else {
        let k = earliest(frontier.drop_last());
        if frontier.last().0.time < frontier[k].0.time {
            frontier.len() - 1
        } else {
            k
        }
    }
}

/// The children of the node that `path` leads to, each with the path that leads
/// to it.
pub open spec fn branches(node: NodeView, path: Seq<usize>) -> Frontier {
    Seq::new(node.children.len(), |i: int| (node.children[i], path.push(i as usize)))
}

/// `frontier` with its node `k` replaced by the children of that node, in their
/// order.
pub open spec fn expanded(frontier: Frontier, k: int) -> Frontier {
    frontier.take(k) + branches(frontier[k].0, frontier[k].1) + frontier.skip(k + 1)
}

/// The rows that follow the row of node `k` of `frontier` before the next node is
/// shown: one where the node has no children and is not the last of the frontier,
/// and one for each child but the first where it has several.
pub open spec fn fillers(frontier: Frontier, k: int) -> Seq<RowView> {
    let children = frontier[k].0.children.len();
    let width = frontier.len() as int;
    if children == 0 {
        if k != width - 1 {
            seq![RowView::Join { column: k, width }]
        } else {
            Seq::empty()
        }
    } else {
        Seq::new((children - 1) as nat, |j: int| RowView::Fork { column: k, width: width + j + 1 })
    }
}

/// The sum of numbers put one after the other.
pub proof fn lemma_sum_concat(a: Seq<nat>, b: Seq<nat>)
    ensures
        sum(a + b) == sum(a) + sum(b),
    decreases b.len(),
{
    if b.len() == 0 {
        assert(a + b == a);
    } else {
        assert((a + b).drop_last() == a + b.drop_last());
        lemma_sum_concat(a, b.drop_last());
    }
}

/// The earliest node of a frontier is one of its nodes, none was recorded before
/// it, and those that come before it were recorded after it.
pub proof fn lemma_earliest(frontier: Frontier)
    requires
        frontier.len() > 0,
    ensures
        0 <= earliest(frontier) < frontier.len(),
        forall|j: int|
            0 <= j < frontier.len() ==> frontier[earliest(frontier)].0.time <= (
            #[trigger] frontier[j]).0.time,
        forall|j: int|
            0 <= j < earliest(frontier) ==> frontier[earliest(frontier)].0.time < (
            #[trigger] frontier[j]).0.time,
    decreases frontier.len(),
{
    if frontier.len() > 1 {
        lemma_earliest(frontier.drop_last());
        let k = earliest(frontier.drop_last());
        assert(forall|j: int|
            0 <= j < frontier.len() - 1 ==> frontier[j] == frontier.drop_last()[j]);
    }
}

/// A frontier in which a node was replaced by its children waits with one node
/// fewer.
pub proof fn lemma_expanded_lighter(frontier: Frontier, k: int)
    requires
        0 <= k < frontier.len(),
    ensures
        load(expanded(frontier, k)) + 1 == load(frontier),
{
    let all = Seq::new(frontier.len(), |i: int| frontier[i].0.weight());
    let next = expanded(frontier, k);
    let after = Seq::new(next.len(), |i: int| next[i].0.weight());
    let node = frontier[k].0;
    let left = all.take(k);
    let right = all.skip(k + 1);
    assert(all =~= left + seq![node.weight()] + right);
    assert(after =~= left + weights(node.children) + right);
    lemma_sum_concat(left, seq![node.weight()]);
    lemma_sum_concat(left + seq![node.weight()], right);
    lemma_sum_concat(left, weights(node.children));
    lemma_sum_concat(left + weights(node.children), right);
    assert(seq![node.weight()].drop_last() =~= Seq::<nat>::empty());
    reveal_with_fuel(sum, 2);
    assert(sum(seq![node.weight()]) == node.weight());
}

/// The rows in which the nodes of `frontier` and all nodes below them are shown:
/// always the earliest node of the frontier next, then the rows that fill up
/// behind it, and then the rest, with the children of the node in its place.
pub open spec fn rows_of(frontier: Frontier) -> Seq<RowView>
    decreases load(frontier),
{
    if frontier.len() == 0 {
        Seq::empty()
    } else {
        let k = earliest(frontier);
        proof {
            lemma_earliest(frontier);
            lemma_expanded_lighter(frontier, k);
        }
        seq![RowView::Node { path: frontier[k].1, column: k, width: frontier.len() as int }]
            + fillers(frontier, k) + rows_of(expanded(frontier, k))
    }
}

impl HistoryView {
    /// The rows of the browser of the tree, from the first row on.
    pub open spec fn rows(self) -> Seq<RowView> {
        rows_of(seq![(self.root, Seq::empty())])
    }

    /// The path to the node that stands in row `row`, the rows counted from 1.
    /// There is none where the row shows no node, or where the tree has no such
    /// row.
    pub open spec fn row_to_path(self, row: int) -> Option<Seq<usize>> {
        if 1 <= row <= self.rows().len() {
            match self.rows()[row - 1] {
                RowView::Node { path, column, width } => Some(path),
                _ => None,
            }
        } else {
            None
        }
    }
}

/// Each node of `frontier` is the node of the tree below `root` that its path leads
/// to.
pub open spec fn rooted(root: NodeView, frontier: Frontier) -> bool {
    forall|i: int|
        0 <= i < frontier.len() ==> root.has((#[trigger] frontier[i]).1) && root.at(frontier[i].1)
            == frontier[i].0
}

/// Row `r` of `rows` is the row of the node that `path` leads to.
pub open spec fn shows(rows: Seq<RowView>, r: int, path: Seq<usize>) -> bool {
    &&& 0 <= r < rows.len()
    &&& rows[r] is Node
    &&& rows[r]->path == path
}

/// Where each node of a frontier is the node that its path leads to, the same
/// holds after one of them was replaced by its children.
pub proof fn lemma_expanded_rooted(root: NodeView, frontier: Frontier, k: int)
    requires
        root.sized(),
        rooted(root, frontier),
        0 <= k < frontier.len(),
    ensures
        rooted(root, expanded(frontier, k)),
{
    let next = expanded(frontier, k);
    let node = frontier[k].0;
    let path = frontier[k].1;
    let kids = branches(node, path);
    root.lemma_at_sized(path);
    assert forall|i: int| 0 <= i < next.len() implies root.has((#[trigger] next[i]).1) && root.at(
        next[i].1,
    ) == next[i].0 by {
        if i < k {
            assert(next[i] == frontier[i]);
        } else if i < k + kids.len() {
            assert(next[i] == kids[i - k]);
            root.lemma_at_push(path, (i - k) as usize);
        } else {
            assert(next[i] == frontier[i - kids.len() + 1]);
        }
    }
}

/// Every row of a node shows a node of the tree: where each node of the frontier
/// is the node of the tree that its path leads to, the path of each such row leads
/// to a node of the tree.
pub proof fn lemma_rows_rooted(root: NodeView, frontier: Frontier, r: int)
    requires
        root.sized(),
        rooted(root, frontier),
        0 <= r < rows_of(frontier).len(),
        rows_of(frontier)[r] is Node,
    ensures
        root.has(rows_of(frontier)[r]->path),
    decreases load(frontier),
{
    if frontier.len() > 0 {
        let k = earliest(frontier);
        lemma_earliest(frontier);
        lemma_expanded_lighter(frontier, k);
        lemma_expanded_rooted(root, frontier, k);
        let fill = fillers(frontier, k);
        if r == 0 {
        } else if r < 1 + fill.len() {
            assert(rows_of(frontier)[r] == fill[r - 1]);
        } else {
            assert(rows_of(frontier)[r] == rows_of(expanded(frontier, k))[r - 1 - fill.len()]);
            lemma_rows_rooted(root, expanded(frontier, k), r - 1 - fill.len());
        }
    }
}

/// Every node has a row: for each node of the frontier, and each node below it,
/// one of the rows is the row of that node.
pub proof fn lemma_rows_cover(root: NodeView, frontier: Frontier, i: int, below: Seq<usize>)
    requires
        root.sized(),
        rooted(root, frontier),
        0 <= i < frontier.len(),
        frontier[i].0.has(below),
    ensures
        exists|r: int| shows(rows_of(frontier), r, frontier[i].1 + below),
    decreases load(frontier),
{
    let k = earliest(frontier);
    lemma_earliest(frontier);
    lemma_expanded_lighter(frontier, k);
    lemma_expanded_rooted(root, frontier, k);
    let next = expanded(frontier, k);
    let fill = fillers(frontier, k);
    let node = frontier[k].0;
    let path = frontier[k].1;
    let kids = branches(node, path);
    let target = frontier[i].1 + below;
    root.lemma_at_sized(path);
    if i == k && below.len() == 0 {
        assert(target =~= path);
        assert(shows(rows_of(frontier), 0, target));
    } else {
        let j = if i < k {
            i
        } else if i == k {
            k + below[0]
        } else {
            i - 1 + kids.len()
        };
        let rest = if i == k {
            below.drop_first()
        } else {
            below
        };
        if i == k {
            assert(next[j] == kids[below[0] as int]);
            assert(path.push(below[0]) + below.drop_first() =~= path + below);
        } else if i < k {
            assert(next[j] == frontier[i]);
        } else {
            assert(next[j] == frontier[i]);
        }
        lemma_rows_cover(root, next, j, rest);
        let r = choose|r: int| shows(rows_of(next), r, next[j].1 + rest);
        assert(rows_of(frontier)[1 + fill.len() + r] == rows_of(next)[r]);
        assert(shows(rows_of(frontier), 1 + fill.len() + r, target));
    }
}

/// Neither of `a` and `b` begins with the other.
pub open spec fn apart(a: Seq<usize>, b: Seq<usize>) -> bool {
    !begins_with(a, b) && !begins_with(b, a)
}

/// No path of `frontier` begins with another: no node of the frontier lies at or
/// below another.
pub open spec fn spread(frontier: Frontier) -> bool {
    forall|i: int, j: int|
        0 <= i < frontier.len() && 0 <= j < frontier.len() && i != j ==> apart(
            (#[trigger] frontier[i]).1,
            (#[trigger] frontier[j]).1,
        )
}

/// A path that begins with a path begins with every beginning of that path.
pub proof fn lemma_begins_with_shorter(a: Seq<usize>, b: Seq<usize>, n: int)
    requires
        begins_with(a, b),
        0 <= n <= b.len(),
    ensures
        begins_with(a, b.take(n)),
{
    assert(a.take(n) =~= a.take(b.len() as int).take(n));
}

/// A path with one more step lies apart from every path that lies apart from the
/// path without that step.
pub proof fn lemma_apart_push(p: Seq<usize>, c: usize, q: Seq<usize>)
    requires
        apart(p, q),
    ensures
        apart(p.push(c), q),
{
    let longer = p.push(c);
    assert(longer.take(p.len() as int) =~= p);
    if begins_with(longer, q) {
        if q.len() <= p.len() {
            assert(p.take(q.len() as int) =~= longer.take(q.len() as int));
        } else {
            assert(q =~= longer.take(q.len() as int));
            assert(q.take(p.len() as int) =~= p);
        }
    }
    if begins_with(q, longer) {
        lemma_begins_with_shorter(q, longer, p.len() as int);
    }
}

/// Where no node of a frontier lies at or below another, the same holds after one
/// of them was replaced by its children.
pub proof fn lemma_expanded_spread(frontier: Frontier, k: int)
    requires
        spread(frontier),
        0 <= k < frontier.len(),
        frontier[k].0.children.len() <= usize::MAX,
    ensures
        spread(expanded(frontier, k)),
{
    let next = expanded(frontier, k);
    let node = frontier[k].0;
    let path = frontier[k].1;
    let kids = branches(node, path);
    let n = kids.len() as int;
    assert forall|i: int, j: int| 0 <= i < next.len() && 0 <= j < next.len() && i != j implies apart(
        (#[trigger] next[i]).1,
        (#[trigger] next[j]).1,
    ) by {
        let back = |x: int|
            if x < k {
                x
            } else {
                x - n + 1
            };
        let i_kid = k <= i < k + n;
        let j_kid = k <= j < k + n;
        if i_kid {
            assert(next[i] == kids[i - k]);
        } else {
            assert(next[i] == frontier[back(i)]);
        }
        if j_kid {
            assert(next[j] == kids[j - k]);
        } else {
            assert(next[j] == frontier[back(j)]);
        }
        if i_kid && j_kid {
            let a = path.push((i - k) as usize);
            let b = path.push((j - k) as usize);
            assert(a.take(a.len() as int) =~= a);
            assert(b.take(b.len() as int) =~= b);
            assert(a[path.len() as int] != b[path.len() as int]);
        } else if i_kid {
            assert(apart(frontier[k].1, frontier[back(j)].1));
            lemma_apart_push(path, (i - k) as usize, frontier[back(j)].1);
        } else if j_kid {
            assert(apart(frontier[k].1, frontier[back(i)].1));
            lemma_apart_push(path, (j - k) as usize, frontier[back(i)].1);
        } else {
            assert(apart(frontier[back(i)].1, frontier[back(j)].1));
        }
    }
}

/// Every row of a node shows a node of the frontier or a node below one: its path
/// begins with the path of a node of the frontier.
pub proof fn lemma_rows_below(frontier: Frontier, r: int) -> (i: int)
    requires
        0 <= r < rows_of(frontier).len(),
        rows_of(frontier)[r] is Node,
    ensures
        0 <= i < frontier.len(),
        begins_with(rows_of(frontier)[r]->path, frontier[i].1),
    decreases load(frontier),
{
    let k = earliest(frontier);
    lemma_earliest(frontier);
    lemma_expanded_lighter(frontier, k);
    let fill = fillers(frontier, k);
    let next = expanded(frontier, k);
    let path = frontier[k].1;
    if r == 0 {
        assert(path.take(path.len() as int) =~= path);
        k
    } else if r < 1 + fill.len() {
        assert(rows_of(frontier)[r] == fill[r - 1]);
        k
    } else {
        assert(rows_of(frontier)[r] == rows_of(next)[r - 1 - fill.len()]);
        let j = lemma_rows_below(next, r - 1 - fill.len());
        let kids = branches(frontier[k].0, path);
        if j < k {
            assert(next[j] == frontier[j]);
            j
        } else if j < k + kids.len() {
            assert(next[j] == kids[j - k]);
            lemma_begins_with_shorter(rows_of(frontier)[r]->path, next[j].1, path.len() as int);
            assert(next[j].1.take(path.len() as int) =~= path);
            k
        } else {
            assert(next[j] == frontier[j - kids.len() + 1]);
            j - kids.len() + 1
        }
    }
}

/// No node has two rows: where no node of the frontier lies at or below another,
/// two rows of nodes show two nodes.
pub proof fn lemma_rows_differ(root: NodeView, frontier: Frontier, a: int, b: int)
    requires
        root.sized(),
        rooted(root, frontier),
        spread(frontier),
        0 <= a < b < rows_of(frontier).len(),
        rows_of(frontier)[a] is Node,
        rows_of(frontier)[b] is Node,
    ensures
        rows_of(frontier)[a]->path != rows_of(frontier)[b]->path,
    decreases load(frontier),
{
    let k = earliest(frontier);
    lemma_earliest(frontier);
    lemma_expanded_lighter(frontier, k);
    lemma_expanded_rooted(root, frontier, k);
    root.lemma_at_sized(frontier[k].1);
    lemma_expanded_spread(frontier, k);
    let fill = fillers(frontier, k);
    let next = expanded(frontier, k);
    let path = frontier[k].1;
    let kids = branches(frontier[k].0, path);
    if b < 1 + fill.len() {
        assert(rows_of(frontier)[b] == fill[b - 1]);
    } else {
        let other = rows_of(frontier)[b]->path;
        assert(rows_of(frontier)[b] == rows_of(next)[b - 1 - fill.len()]);
        if a == 0 {
            let j = lemma_rows_below(next, b - 1 - fill.len());
            if other == path {
                if j < k {
                    assert(next[j] == frontier[j]);
                    assert(apart(frontier[k].1, frontier[j].1));
                } else if j < k + kids.len() {
                    assert(next[j] == kids[j - k]);
                } else {
                    assert(next[j] == frontier[j - kids.len() + 1]);
                    assert(apart(frontier[k].1, frontier[j - kids.len() + 1].1));
                }
            }
        } else if a < 1 + fill.len() {
            assert(rows_of(frontier)[a] == fill[a - 1]);
        } else {
            assert(rows_of(frontier)[a] == rows_of(next)[a - 1 - fill.len()]);
            lemma_rows_differ(root, next, a - 1 - fill.len(), b - 1 - fill.len());
        }
    }
}

/// The nodes that wait to be shown, each with the path that leads to it from the
/// root, in the abstract.
pub open spec fn frontier_view(frontier: Seq<(&UndoNode, Vec<usize>)>) -> Frontier {
    Seq::new(frontier.len(), |i: int| (frontier[i].0@, frontier[i].1@))
}

/// The index of the node of `frontier` that was recorded first; of several that
/// were recorded at the same time, the one that comes first in `frontier`.
pub fn earliest_index(frontier: &Vec<(&UndoNode, Vec<usize>)>) -> (k: usize)
    requires
        frontier@.len() > 0,
    ensures
        k == earliest(frontier_view(frontier@)),
        k < frontier@.len(),
{
    let ghost f = frontier_view(frontier@);
    let mut k: usize = 0;
    let mut i: usize = 1;
    proof {
        lemma_earliest(f.take(1));
    }
    while i < frontier.len()
        invariant
            1 <= i <= frontier@.len(),
            f == frontier_view(frontier@),
            k == earliest(f.take(i as int)),
            k < i,
        decreases frontier@.len() - i,
    {
        proof {
            assert(f.take(i + 1).drop_last() == f.take(i as int));
            lemma_earliest(f.take(i + 1));
        }
        if frontier[i].0.time < frontier[k].0.time {
            k = i;
        }
        i += 1;
    }
    proof {
        assert(f.take(f.len() as int) == f);
    }
    k
}

/// Replaces node `k` of `frontier` by the children of that node, in their order.
pub fn expand<'a>(frontier: &mut Vec<(&'a UndoNode, Vec<usize>)>, k: usize)
    requires
        k < old(frontier)@.len(),
    ensures
        frontier_view(final(frontier)@) == expanded(frontier_view(old(frontier)@), k as int),
{
    let ghost before = frontier_view(frontier@);
    let (node, path) = frontier.remove(k);
    let ghost kids = branches(node@, path@);
    assert(frontier_view(frontier@) =~= before.take(k as int) + before.skip(k + 1));
    let mut i: usize = 0;
    while i < node.children.len()
        invariant
            i <= node.children@.len(),
            k + i <= frontier@.len(),
            kids == branches(node@, path@),
            before[k as int] == (node@, path@),
            k < before.len(),
            frontier_view(frontier@) == before.take(k as int) + kids.take(i as int) + before.skip(
                k + 1,
            ),
        decreases node.children@.len() - i,
    {
        let mut child_path = path.clone();
        assert(child_path@ =~= path@);
        child_path.push(i);
        let ghost earlier = frontier_view(frontier@);
        assert(node@.children[i as int] == node.children@[i as int]@);
        let len = frontier.len();
        assert(k + i <= len);
        frontier.insert(k + i, (&node.children[i], child_path));
        assert(frontier_view(frontier@) =~= earlier.insert(k + i, kids[i as int]));
        assert(earlier.insert(k + i, kids[i as int]) =~= before.take(k as int) + kids.take(i + 1)
            + before.skip(k + 1));
        i += 1;
    }
    assert(kids.take(kids.len() as int) == kids);
}

/// How many rows fill up behind the row of a node with `children` children that is
/// drawn in column `k` of `width`.
pub fn filler_count(children: usize, k: usize, width: usize) -> (extra: usize)
    requires
        k < width,
    ensures
        extra == if children == 0 {
            if k != width - 1 {
                1int
            } else {
                0int
            }
        } else {
            children - 1
        },
{
    if children == 0 {
        if k != width - 1 {
            1
        } else {
            0
        }
    } else {
        children - 1
    }
}

impl History {
    /// The path to the node that stands in row `row` of the browser, the rows
    /// counted from 1.
    pub fn node_at_row(&self, row: usize) -> (found: Option<Vec<usize>>)
        ensures
            match found {
                Some(path) => self@.row_to_path(row as int) == Some(path@),
                None => self@.row_to_path(row as int) is None,
            },
    {
        let mut next_nodes: Vec<(&UndoNode, Vec<usize>)> = Vec::new();
        next_nodes.push((&self.root, Vec::new()));
        let mut cur_row: usize = 1;
        let ghost mut shown: Seq<RowView> = Seq::empty();
        proof {
            assert(frontier_view(next_nodes@) =~= seq![(self@.root, Seq::empty())]);
        }
        while next_nodes.len() > 0 && cur_row <= row
            invariant
                cur_row >= 1,
                shown.len() == cur_row - 1,
                self@.rows() == shown + rows_of(frontier_view(next_nodes@)),
                forall|i: int| 0 <= i < shown.len() && row - 1 <= i ==> !(shown[i] is Node),
            decreases load(frontier_view(next_nodes@)),
        {
            let ghost f = frontier_view(next_nodes@);
            let k = earliest_index(&next_nodes);
            let width = next_nodes.len();
            let children = next_nodes[k].0.children.len();
            let ghost head = seq![
                RowView::Node { path: f[k as int].1, column: k as int, width: width as int },
            ];
            proof {
                lemma_earliest(f);
                lemma_expanded_lighter(f, k as int);
                assert(rows_of(f) == head + fillers(f, k as int) + rows_of(
                    expanded(f, k as int),
                ));
            }
            if cur_row == row {
                let path = next_nodes[k].1.clone();
                assert(path@ =~= f[k as int].1);
                assert(self@.rows()[row - 1] == head[0]);
                return Some(path);
            }
            let extra = filler_count(children, k, width);
            assert(extra == fillers(f, k as int).len());
            if extra >= row - cur_row {
                proof {
                    let filler = fillers(f, k as int)[row - 1 - cur_row];
                    assert(self@.rows()[row - 1] == filler);
                    assert(!(filler is Node));
                }
                return None;
            }
            expand(&mut next_nodes, k);
            proof {
                let more = head + fillers(f, k as int);
                assert(forall|i: int| 1 <= i < more.len() ==> more[i] == fillers(f, k as int)[i - 1]);
                assert(shown + (more + rows_of(expanded(f, k as int))) =~= (shown + more) + rows_of(
                    expanded(f, k as int),
                ));
                shown = shown + more;
            }
            cur_row = cur_row + 1 + extra;
        }
        proof {
            if next_nodes.len() == 0 {
                assert(rows_of(frontier_view(next_nodes@)) =~= Seq::empty());
                assert(self@.rows() =~= shown);
            } else if row >= 1 {
                assert(self@.rows()[row - 1] == shown[row - 1]);
            }
        }
        None
    }

    /// The rows of the browser of the tree, from the first row on.
    pub fn rows(&self) -> (rows: Vec<HistoryRow>)
        ensures
            row_views(rows@) == self@.rows(),
    {
        let mut next_nodes: Vec<(&UndoNode, Vec<usize>)> = Vec::new();
        next_nodes.push((&self.root, Vec::new()));
        let mut rows: Vec<HistoryRow> = Vec::new();
        proof {
            assert(frontier_view(next_nodes@) =~= seq![(self@.root, Seq::empty())]);
            assert(row_views(rows@) =~= Seq::empty());
        }
        while next_nodes.len() > 0
            invariant
                self@.rows() == row_views(rows@) + rows_of(frontier_view(next_nodes@)),
            decreases load(frontier_view(next_nodes@)),
        {
            let ghost f = frontier_view(next_nodes@);
            let ghost shown = row_views(rows@);
            let k = earliest_index(&next_nodes);
            let width = next_nodes.len();
            let children = next_nodes[k].0.children.len();
            let path = next_nodes[k].1.clone();
            let ghost head = seq![
                RowView::Node { path: f[k as int].1, column: k as int, width: width as int },
            ];
            proof {
                lemma_earliest(f);
                lemma_expanded_lighter(f, k as int);
                assert(rows_of(f) == head + fillers(f, k as int) + rows_of(
                    expanded(f, k as int),
                ));
                assert(path@ =~= f[k as int].1);
            }
            expand(&mut next_nodes, k);
            rows.push(HistoryRow::Node { path, column: k, width });
            assert(row_views(rows@) =~= shown + head);
            if children == 0 {
                if k != width - 1 {
                    rows.push(HistoryRow::Join { column: k, width });
                }
                assert(row_views(rows@) =~= shown + head + fillers(f, k as int));
            } else {
                let total = next_nodes.len();
                let mut j: usize = 0;
                while j < children - 1
                    invariant
                        total == width - 1 + children,
                        j <= children - 1,
                        children >= 1,
                        children == f[k as int].0.children.len(),
                        width == f.len(),
                        k < width,
                        next_nodes@.len() == width - 1 + children,
                        row_views(rows@) == shown + head + fillers(f, k as int).take(j as int),
                    decreases children - 1 - j,
                {
                    let ghost earlier = row_views(rows@);
                    rows.push(HistoryRow::Fork { column: k, width: width + j + 1 });
                    assert(row_views(rows@) =~= earlier.push(fillers(f, k as int)[j as int]));
                    assert(earlier.push(fillers(f, k as int)[j as int]) =~= shown + head + fillers(
                        f,
                        k as int,
                    ).take(j + 1));
                    j += 1;
                }
                assert(fillers(f, k as int).take(children - 1) == fillers(f, k as int));
            }
            assert(shown + (head + fillers(f, k as int) + rows_of(expanded(f, k as int))) =~= (shown
                + head + fillers(f, k as int)) + rows_of(expanded(f, k as int)));
        }
        assert(rows_of(frontier_view(next_nodes@)) =~= Seq::empty());
        rows
    }

    /// Moves to the node that stands in row `row` of the browser, the rows
    /// counted from 1, and hands out the actions that bring the text there.
    /// Where the row shows no node, nothing is done and nothing handed out.
    pub fn goto_row(&mut self, row: usize) -> (way: Option<Vec<TextAction>>)
        requires
            old(self)@.wf(),
        ensures
            final(self)@.wf(),
            match old(self)@.row_to_path(row as int) {
                Some(path) => final(self)@ == old(self)@.gone_to(path) && match way {
                    Some(actions) => old(self)@.root.has(path) && crate::action::views(actions@)
                        == old(self)@.way_to(path),
                    None => !old(self)@.root.has(path),
                },
                None => final(self)@ == old(self)@ && way is None,
            },
    {
        match self.node_at_row(row) {
            Some(new_loc) => self.goto_node(new_loc),
            None => None,
        }
    }
}

} // verus!
