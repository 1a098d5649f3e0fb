use rvim::action::TextAction;
use rvim::undo::{History, RecordError, UndoNode};

fn put(cha: char, col: usize) -> TextAction {
    TextAction::InsertChar { pos: (1, col), cha }
}

fn take(cha: char, col: usize) -> TextAction {
    TextAction::RemoveChar { pos: (1, col), cha }
}

#[test]
fn a_new_history_is_at_its_root() {
    let hist = History::new();
    assert!(hist.is_wf());
    assert_eq!(hist.root.action, TextAction::NoOp);
    assert!(hist.root.children.is_empty());
    assert!(hist.location.is_empty());
    assert_eq!(hist.latest_leaf, None);
    assert_eq!(hist.scroll, 1);
    assert!(!hist.locked);
    assert!(!hist.is_recording());
}

#[test]
fn the_clock_gives_a_time_after_the_epoch() {
    let first = UndoNode::new(put('a', 1));
    let second = UndoNode::empty_root();
    assert!(first.time > 0);
    assert!(second.time > 0);
    assert_eq!(first.action, put('a', 1));
    assert!(first.children.is_empty());
    assert_eq!(second.action, TextAction::NoOp);
}

#[test]
fn add_node_appends_below_the_location() {
    let mut hist = History::new();
    hist.add_node(put('a', 1));
    hist.add_node(put('b', 2));
    assert_eq!(hist.location, vec![0, 0]);
    assert_eq!(hist.root.children.len(), 1);
    assert_eq!(hist.root.children[0].action, put('a', 1));
    assert_eq!(hist.root.children[0].children[0].action, put('b', 2));
    assert_eq!(hist.get_current_node().action, put('b', 2));
    assert!(hist.has_node(&vec![0, 0]));
    assert!(!hist.has_node(&vec![0, 1]));
    assert!(!hist.has_node(&vec![1]));
    assert_eq!(hist.get_node(&vec![0]).action, put('a', 1));
}

#[test]
fn add_node_at_keeps_the_time() {
    let mut hist = History::new();
    hist.add_node_at(put('a', 1), 42);
    assert_eq!(hist.get_current_node().time, 42);
}

#[test]
fn undo_hands_out_inverses_and_remembers_the_first_leaf() {
    let mut hist = History::new();
    hist.add_node(put('a', 1));
    hist.add_node(put('b', 2));
    assert_eq!(hist.undo(), Some(take('b', 2)));
    assert_eq!(hist.location, vec![0]);
    assert_eq!(hist.latest_leaf, Some(vec![0, 0]));
    assert_eq!(hist.undo(), Some(take('a', 1)));
    assert_eq!(hist.location, Vec::<usize>::new());
    assert_eq!(hist.latest_leaf, Some(vec![0, 0]));
    assert_eq!(hist.undo(), None);
    assert_eq!(hist.latest_leaf, Some(vec![0, 0]));
    assert_eq!(hist.root.children.len(), 1);
}

#[test]
fn redo_walks_back_to_the_remembered_leaf() {
    let mut hist = History::new();
    hist.add_node(put('a', 1));
    hist.add_node(put('b', 2));
    assert_eq!(hist.redo(), None);
    hist.undo();
    hist.undo();
    assert_eq!(hist.redo(), Some(put('a', 1)));
    assert_eq!(hist.location, vec![0]);
    assert_eq!(hist.latest_leaf, Some(vec![0, 0]));
    assert_eq!(hist.redo(), Some(put('b', 2)));
    assert_eq!(hist.location, vec![0, 0]);
    assert_eq!(hist.redo(), None);
    assert_eq!(hist.location, vec![0, 0]);
}

#[test]
fn redo_does_not_leave_the_way_to_the_remembered_leaf() {
    let mut hist = History::new();
    hist.add_node(put('a', 1));
    hist.undo();
    hist.add_node(put('b', 1));
    hist.undo();
    assert_eq!(hist.latest_leaf, Some(vec![1]));
    hist.latest_leaf = Some(vec![0, 5]);
    assert_eq!(hist.redo(), Some(put('a', 1)));
    assert_eq!(hist.redo(), None);
    hist.location = vec![1];
    assert_eq!(hist.redo(), None);
    assert_eq!(hist.location, vec![1]);
}

#[test]
fn an_edit_after_undo_makes_a_new_branch() {
    let mut hist = History::new();
    hist.add_node(put('a', 1));
    hist.add_node(put('b', 2));
    hist.undo();
    hist.add_node(put('c', 2));
    assert_eq!(hist.location, vec![0, 1]);
    assert_eq!(hist.latest_leaf, None);
    assert_eq!(hist.root.children[0].children.len(), 2);
    assert_eq!(hist.get_node(&vec![0, 0]).action, put('b', 2));
    assert_eq!(hist.get_node(&vec![0, 1]).action, put('c', 2));
    assert_eq!(hist.redo(), None);
    assert_eq!(hist.goto_node(vec![0, 0]), Some(vec![take('c', 2), put('b', 2)]));
    assert_eq!(hist.location, vec![0, 0]);
    assert!(hist.is_wf());
}

#[test]
fn goto_takes_the_shortest_way() {
    let mut hist = History::new();
    hist.add_node(put('a', 1));
    hist.add_node(put('b', 2));
    hist.add_node(put('c', 3));
    hist.undo();
    hist.undo();
    hist.add_node(put('x', 2));
    hist.add_node(put('y', 3));
    assert_eq!(hist.location, vec![0, 1, 0]);
    let way = hist.goto_node(vec![0, 0, 0]);
    assert_eq!(way, Some(vec![take('y', 3), take('x', 2), put('b', 2), put('c', 3)]));
    assert_eq!(hist.location, vec![0, 0, 0]);
    assert_eq!(hist.latest_leaf, None);
    assert_eq!(hist.goto_node(vec![0, 0, 0]), Some(vec![]));
    assert_eq!(hist.goto_node(vec![0]), Some(vec![take('c', 3), take('b', 2)]));
    assert_eq!(hist.goto_node(vec![]), Some(vec![take('a', 1)]));
    assert_eq!(hist.goto_node(vec![0, 1]), Some(vec![put('a', 1), put('x', 2)]));
}

#[test]
fn goto_to_a_path_without_a_node_does_nothing() {
    let mut hist = History::new();
    hist.add_node(put('a', 1));
    hist.undo();
    assert_eq!(hist.goto_node(vec![3]), None);
    assert_eq!(hist.goto_node(vec![0, 0]), None);
    assert_eq!(hist.location, Vec::<usize>::new());
    assert_eq!(hist.latest_leaf, Some(vec![0]));
}

#[test]
fn recording_collects_a_session_into_one_node() {
    let mut hist = History::new();
    assert_eq!(hist.start_record(), Ok(()));
    assert!(hist.is_recording());
    hist.add_node(TextAction::InsertChar { pos: (7, 1), cha: 'a' });
    hist.add_node(TextAction::InsertChar { pos: (7, 2), cha: 'b' });
    assert!(hist.root.children.is_empty());
    assert_eq!(hist.stop_record(), Ok(()));
    assert!(!hist.is_recording());
    assert_eq!(hist.location, vec![0]);
    assert_eq!(
        hist.get_current_node().action,
        TextAction::Composite {
            actions: vec![
                TextAction::InsertChar { pos: (7, 1), cha: 'a' },
                TextAction::InsertChar { pos: (7, 2), cha: 'b' },
            ],
            name: "Edit text at line 7".to_string(),
        }
    );
    assert_eq!(
        hist.undo(),
        Some(TextAction::Composite {
            actions: vec![
                TextAction::RemoveChar { pos: (7, 2), cha: 'b' },
                TextAction::RemoveChar { pos: (7, 1), cha: 'a' },
            ],
            name: "Undo Edit text at line 7".to_string(),
        })
    );
}

#[test]
fn a_session_is_named_after_its_first_action() {
    let mut hist = History::new();
    hist.start_record().unwrap();
    hist.add_node(TextAction::RemoveChar { pos: (120, 3), cha: 'q' });
    hist.stop_record().unwrap();
    match &hist.get_current_node().action {
        TextAction::Composite { name, .. } => assert_eq!(name, "Edit text at line 120"),
        other => panic!("{:?}", other),
    }
    hist.start_record().unwrap();
    hist.add_node(TextAction::RemoveLines { start: 2, stop: 2, lines: vec![vec!['x']] });
    hist.stop_record().unwrap();
    match &hist.get_current_node().action {
        TextAction::Composite { name, .. } => assert_eq!(name, "Edit text at line -1"),
        other => panic!("{:?}", other),
    }
}

#[test]
fn an_empty_session_leaves_no_node() {
    let mut hist = History::new();
    hist.start_record().unwrap();
    assert_eq!(hist.stop_record(), Ok(()));
    assert!(!hist.is_recording());
    assert!(hist.root.children.is_empty());
    assert!(hist.location.is_empty());
}

#[test]
fn snip_makes_two_nodes_of_one_session() {
    let mut hist = History::new();
    hist.start_record().unwrap();
    hist.add_node(put('a', 1));
    assert_eq!(hist.snip_record(), Ok(()));
    assert!(hist.is_recording());
    hist.add_node(put('b', 2));
    hist.stop_record().unwrap();
    assert_eq!(hist.location, vec![0, 0]);
    assert_eq!(
        hist.get_node(&vec![0]).action,
        TextAction::Composite { actions: vec![put('a', 1)], name: "Edit text at line 1".to_string() }
    );
    assert_eq!(
        hist.get_node(&vec![0, 0]).action,
        TextAction::Composite { actions: vec![put('b', 2)], name: "Edit text at line 1".to_string() }
    );
    assert_eq!(hist.root.children.len(), 1);
    assert_eq!(hist.root.children[0].children.len(), 1);
}

#[test]
fn misuse_of_recording_is_refused() {
    let mut hist = History::new();
    assert_eq!(hist.stop_record(), Err(RecordError::NotRecording));
    assert_eq!(hist.snip_record(), Err(RecordError::NotRecording));
    assert!(!hist.is_recording());
    hist.start_record().unwrap();
    hist.add_node(put('a', 1));
    assert_eq!(hist.start_record(), Err(RecordError::AlreadyRecording));
    assert_eq!(hist.recording, Some(vec![put('a', 1)]));
}

#[test]
fn a_session_that_ends_while_locked_is_dropped() {
    let mut hist = History::new();
    hist.start_record().unwrap();
    hist.add_node(put('a', 1));
    hist.locked = true;
    hist.add_node(put('b', 2));
    assert_eq!(hist.recording, Some(vec![put('a', 1)]));
    hist.stop_record().unwrap();
    assert!(hist.root.children.is_empty());
    assert!(!hist.is_recording());
}

#[test]
fn is_wf_refuses_a_location_without_a_node() {
    let mut hist = History::new();
    hist.add_node(put('a', 1));
    hist.location = vec![1];
    assert!(!hist.is_wf());
    hist.location = vec![0];
    hist.latest_leaf = Some(vec![0, 0]);
    assert!(!hist.is_wf());
    hist.latest_leaf = Some(vec![]);
    assert!(!hist.is_wf());
    hist.latest_leaf = Some(vec![0]);
    assert!(hist.is_wf());
}

#[test]
fn inverse_of_each_kind_of_action() {
    let text = vec![vec!['a'], vec!['b']];
    assert_eq!(TextAction::NoOp.inverse(), TextAction::NoOp);
    assert_eq!(
        TextAction::Insert { start: (1, 2), stop: (2, 2), text: text.clone() }.inverse(),
        TextAction::Remove { start: (1, 2), stop: (2, 2), text: text.clone() }
    );
    assert_eq!(
        TextAction::Remove { start: (1, 2), stop: (2, 2), text: text.clone() }.inverse(),
        TextAction::Insert { start: (1, 2), stop: (2, 2), text: text.clone() }
    );
    assert_eq!(
        TextAction::InsertLines { start: 3, stop: 4, lines: text.clone() }.inverse(),
        TextAction::RemoveLines { start: 3, stop: 4, lines: text.clone() }
    );
    assert_eq!(
        TextAction::RemoveLines { start: 3, stop: 4, lines: text.clone() }.inverse(),
        TextAction::InsertLines { start: 3, stop: 4, lines: text.clone() }
    );
    assert_eq!(put('x', 4).inverse(), take('x', 4));
    assert_eq!(take('x', 4).inverse(), put('x', 4));
    let run = TextAction::Composite {
        actions: vec![
            put('a', 1),
            TextAction::Composite { actions: vec![put('b', 2), take('c', 3)], name: "in".to_string() },
        ],
        name: "out".to_string(),
    };
    assert_eq!(
        run.inverse(),
        TextAction::Composite {
            actions: vec![
                TextAction::Composite {
                    actions: vec![put('c', 3), take('b', 2)],
                    name: "Undo in".to_string(),
                },
                take('a', 1),
            ],
            name: "Undo out".to_string(),
        }
    );
    assert_eq!(run.clone(), run);
}

#[test]
fn labels_of_actions() {
    let text = vec![vec!['a', 'b'], vec!['c']];
    assert_eq!(TextAction::NoOp.to_string(), "Original version");
    assert_eq!(
        TextAction::Insert { start: (3, 14), stop: (4, 2), text: text.clone() }.to_string(),
        "Insert at (3, 14): ab\nc"
    );
    assert_eq!(
        TextAction::Remove { start: (1, 2), stop: (10, 20), text: text.clone() }.to_string(),
        "Remove from (1, 2) to (10, 20)"
    );
    assert_eq!(
        TextAction::InsertLines { start: 7, stop: 8, lines: text.clone() }.to_string(),
        "Insert at line 7: ab\nc"
    );
    assert_eq!(
        TextAction::RemoveLines { start: 5, stop: 5, lines: vec![] }.to_string(),
        "Remove line 5"
    );
    assert_eq!(
        TextAction::RemoveLines { start: 5, stop: 106, lines: vec![] }.to_string(),
        "Remove lines 5 to 106"
    );
    assert_eq!(put('x', 4).to_string(), "Insert x at (1, 4)");
    assert_eq!(take('x', 0).to_string(), "Remove character at (1, 0)");
    assert_eq!(
        TextAction::Composite { actions: vec![], name: "a name".to_string() }.to_string(),
        "a name"
    );
}
