use rvim::action::TextAction;
use rvim::browse::HistoryRow;
use rvim::undo::History;

fn act(n: usize) -> TextAction {
    TextAction::InsertLines { start: n, stop: n, lines: vec![vec![]] }
}

/// root -> a (time 1) -> a1 (time 3)
///      -> b (time 2)
fn two_branches() -> History {
    let mut hist = History::new();
    hist.add_node_at(act(1), 1);
    hist.add_node_at(act(3), 3);
    hist.undo();
    hist.undo();
    hist.add_node_at(act(2), 2);
    hist
}

#[test]
fn rows_of_a_tree_with_two_branches() {
    let hist = two_branches();
    assert_eq!(
        hist.rows(),
        vec![
            HistoryRow::Node { path: vec![], column: 0, width: 1 },
            HistoryRow::Fork { column: 0, width: 2 },
            HistoryRow::Node { path: vec![0], column: 0, width: 2 },
            HistoryRow::Node { path: vec![1], column: 1, width: 2 },
            HistoryRow::Node { path: vec![0, 0], column: 0, width: 1 },
        ]
    );
}

#[test]
fn node_at_row_follows_the_rows() {
    let hist = two_branches();
    assert_eq!(hist.node_at_row(0), None);
    assert_eq!(hist.node_at_row(1), Some(vec![]));
    assert_eq!(hist.node_at_row(2), None);
    assert_eq!(hist.node_at_row(3), Some(vec![0]));
    assert_eq!(hist.node_at_row(4), Some(vec![1]));
    assert_eq!(hist.node_at_row(5), Some(vec![0, 0]));
    assert_eq!(hist.node_at_row(6), None);
    assert_eq!(hist.node_at_row(usize::MAX), None);
}

#[test]
fn a_leaf_that_is_not_last_is_followed_by_a_row_of_its_own() {
    let mut hist = History::new();
    hist.add_node_at(act(1), 1);
    hist.undo();
    hist.add_node_at(act(2), 2);
    hist.undo();
    hist.add_node_at(act(3), 3);
    assert_eq!(
        hist.rows(),
        vec![
            HistoryRow::Node { path: vec![], column: 0, width: 1 },
            HistoryRow::Fork { column: 0, width: 2 },
            HistoryRow::Fork { column: 0, width: 3 },
            HistoryRow::Node { path: vec![0], column: 0, width: 3 },
            HistoryRow::Join { column: 0, width: 3 },
            HistoryRow::Node { path: vec![1], column: 0, width: 2 },
            HistoryRow::Join { column: 0, width: 2 },
            HistoryRow::Node { path: vec![2], column: 0, width: 1 },
        ]
    );
    assert_eq!(hist.node_at_row(4), Some(vec![0]));
    assert_eq!(hist.node_at_row(5), None);
    assert_eq!(hist.node_at_row(6), Some(vec![1]));
    assert_eq!(hist.node_at_row(8), Some(vec![2]));
    assert_eq!(hist.node_at_row(9), None);
}

#[test]
fn nodes_of_the_same_time_are_shown_in_the_order_of_the_frontier() {
    let mut hist = History::new();
    hist.add_node_at(act(1), 5);
    hist.undo();
    hist.add_node_at(act(2), 5);
    hist.undo();
    hist.add_node_at(act(3), 4);
    let paths: Vec<Vec<usize>> = hist
        .rows()
        .into_iter()
        .filter_map(|row| match row {
            HistoryRow::Node { path, .. } => Some(path),
            _ => None,
        })
        .collect();
    assert_eq!(paths, vec![vec![], vec![2], vec![0], vec![1]]);
}

#[test]
fn every_row_of_a_node_leads_to_that_node() {
    let hist = two_branches();
    let rows = hist.rows();
    let mut seen = Vec::new();
    for (i, row) in rows.iter().enumerate() {
        match row {
            HistoryRow::Node { path, .. } => {
                assert_eq!(hist.node_at_row(i + 1).as_ref(), Some(path));
                let mut copy = two_branches();
                let expected = copy.get_node(path).action.clone();
                assert!(copy.goto_row(i + 1).is_some());
                assert_eq!(&copy.location, path);
                assert_eq!(copy.get_current_node().action, expected);
                assert_eq!(copy.latest_leaf, None);
                seen.push(path.clone());
            }
            _ => {
                assert_eq!(hist.node_at_row(i + 1), None);
                let mut copy = two_branches();
                assert_eq!(copy.goto_row(i + 1), None);
                assert_eq!(copy.location, vec![1]);
            }
        }
    }
    seen.sort();
    assert_eq!(seen, vec![vec![], vec![0], vec![0, 0], vec![1]]);
}

#[test]
fn goto_row_hands_out_the_way() {
    let mut hist = two_branches();
    assert_eq!(hist.location, vec![1]);
    let way = hist.goto_row(5);
    assert_eq!(way, Some(vec![act(2).inverse(), act(1), act(3)]));
    assert_eq!(hist.location, vec![0, 0]);
}
