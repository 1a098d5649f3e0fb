use rvim::action::TextAction;
use rvim::buffer::{Buffer, Mode};
use rvim::common::{concat_lines, split_text, String32};
use rvim::edit::{
    do_text_action, get_lines, get_text, insert_char, insert_lines, insert_text, remove_char,
    remove_lines, remove_text,
};
use rvim::guard::replayable;
use rvim::undo::History;

fn lines(text: &[&str]) -> Vec<String32> {
    text.iter().map(|line| line.chars().collect()).collect()
}

fn buffer(text: &[&str]) -> Buffer {
    let mut file = String::new();
    for line in text {
        file.push_str(line);
        file.push('\n');
    }
    Buffer::from_text(&file, History::new())
}

fn undo(buf: &mut Buffer) {
    let back = buf.history.undo().expect("something to undo");
    assert!(replayable(buf, &back));
    do_text_action(buf, back);
}

fn redo(buf: &mut Buffer) {
    let forth = buf.history.redo().expect("something to redo");
    assert!(replayable(buf, &forth));
    do_text_action(buf, forth);
}

#[test]
fn typing_abc_and_three_undos() {
    let mut buf = buffer(&[""]);
    assert_eq!(buf.contents, lines(&[""]));
    for cha in ['a', 'b', 'c'] {
        let pos = buf.cursor;
        insert_char(&mut buf, cha, pos);
    }
    assert_eq!(buf.contents, lines(&["abc"]));
    assert_eq!(buf.cursor, (1, 4));
    assert_eq!(buf.history.location, vec![0, 0, 0]);
    for _ in 0..3 {
        undo(&mut buf);
    }
    assert_eq!(buf.contents, lines(&[""]));
    assert_eq!(buf.history.location, Vec::<usize>::new());
    assert!(buf.history.undo().is_none());
}

#[test]
fn line_break_at_the_end_of_a_line() {
    let mut buf = buffer(&["ab"]);
    buf.cursor = (1, 3);
    insert_char(&mut buf, '\n', (1, 3));
    assert_eq!(buf.contents, lines(&["ab", ""]));
    assert_eq!(buf.cursor, (2, 1));
    undo(&mut buf);
    assert_eq!(buf.contents, lines(&["ab"]));
    assert_eq!(buf.cursor, (1, 3));
}

#[test]
fn removing_a_span_over_a_line_break() {
    let mut buf = buffer(&["abc", "def"]);
    remove_text(&mut buf, (1, 2), (2, 2));
    assert_eq!(buf.contents, lines(&["aef"]));
    assert_eq!(
        buf.history.get_current_node().action,
        TextAction::Remove { start: (1, 2), stop: (2, 2), text: lines(&["bc", "d"]) }
    );
    undo(&mut buf);
    assert_eq!(buf.contents, lines(&["abc", "def"]));
}

#[test]
fn line_break_in_the_middle_splits_and_its_removal_joins() {
    let mut buf = buffer(&["hello"]);
    insert_char(&mut buf, '\n', (1, 3));
    assert_eq!(buf.contents, lines(&["he", "llo"]));
    remove_char(&mut buf, (1, 3));
    assert_eq!(buf.contents, lines(&["hello"]));
    assert_eq!(buf.cursor, (1, 3));
    assert_eq!(
        buf.history.get_current_node().action,
        TextAction::RemoveChar { pos: (1, 3), cha: '\n' }
    );
}

#[test]
fn remove_char_records_the_character() {
    let mut buf = buffer(&["xyz"]);
    remove_char(&mut buf, (1, 2));
    assert_eq!(buf.contents, lines(&["xz"]));
    assert_eq!(
        buf.history.get_current_node().action,
        TextAction::RemoveChar { pos: (1, 2), cha: 'y' }
    );
}

#[test]
fn insert_text_of_one_line_keeps_head_and_tail() {
    let mut buf = buffer(&["abcd"]);
    insert_text(&mut buf, &lines(&["XY"]), (1, 3));
    assert_eq!(buf.contents, lines(&["abXYcd"]));
    assert_eq!(buf.cursor, (1, 5));
    assert_eq!(buf.cursor_col_goal, 5);
    assert_eq!(
        buf.history.get_current_node().action,
        TextAction::Insert { start: (1, 3), stop: (1, 5), text: lines(&["XY"]) }
    );
}

#[test]
fn insert_text_of_several_lines_splices() {
    let mut buf = buffer(&["abcd", "zz"]);
    insert_text(&mut buf, &lines(&["12", "34", "567"]), (1, 3));
    assert_eq!(buf.contents, lines(&["ab12", "34", "567cd", "zz"]));
    assert_eq!(buf.cursor, (3, 4));
    assert_eq!(
        buf.history.get_current_node().action,
        TextAction::Insert { start: (1, 3), stop: (3, 4), text: lines(&["12", "34", "567"]) }
    );
    undo(&mut buf);
    assert_eq!(buf.contents, lines(&["abcd", "zz"]));
    redo(&mut buf);
    assert_eq!(buf.contents, lines(&["ab12", "34", "567cd", "zz"]));
    assert_eq!(buf.cursor, (3, 4));
}

#[test]
fn get_text_is_half_open() {
    let buf = buffer(&["abc", "def", "ghi"]);
    assert_eq!(get_text(&buf, (1, 2), (1, 2)), lines(&[""]));
    assert_eq!(get_text(&buf, (1, 2), (1, 4)), lines(&["bc"]));
    assert_eq!(get_text(&buf, (1, 2), (3, 2)), lines(&["bc", "def", "g"]));
    assert_eq!(get_text(&buf, (1, 4), (2, 1)), lines(&["", ""]));
    assert_eq!(get_lines(&buf, 2, 3), lines(&["def", "ghi"]));
    assert_eq!(get_lines(&buf, 2, 1), lines(&[]));
}

#[test]
fn remove_text_of_a_line_break_joins_lines() {
    let mut buf = buffer(&["abc", "def"]);
    remove_text(&mut buf, (1, 4), (2, 1));
    assert_eq!(buf.contents, lines(&["abcdef"]));
    undo(&mut buf);
    assert_eq!(buf.contents, lines(&["abc", "def"]));
}

#[test]
fn insert_and_remove_lines() {
    let mut buf = buffer(&["a", "d"]);
    insert_lines(&mut buf, &lines(&["b", "c"]), 2);
    assert_eq!(buf.contents, lines(&["a", "b", "c", "d"]));
    assert_eq!(
        buf.history.get_current_node().action,
        TextAction::InsertLines { start: 2, stop: 3, lines: lines(&["b", "c"]) }
    );
    remove_lines(&mut buf, 1, 2);
    assert_eq!(buf.contents, lines(&["c", "d"]));
    assert_eq!(
        buf.history.get_current_node().action,
        TextAction::RemoveLines { start: 1, stop: 2, lines: lines(&["a", "b"]) }
    );
    undo(&mut buf);
    assert_eq!(buf.contents, lines(&["a", "b", "c", "d"]));
    undo(&mut buf);
    assert_eq!(buf.contents, lines(&["a", "d"]));
}

#[test]
fn insert_lines_behind_the_last_line() {
    let mut buf = buffer(&["a"]);
    insert_lines(&mut buf, &lines(&["b"]), 2);
    assert_eq!(buf.contents, lines(&["a", "b"]));
}

#[test]
fn removing_every_line_leaves_one_empty_line() {
    let mut buf = buffer(&["a", "b", "c"]);
    remove_lines(&mut buf, 1, 3);
    assert_eq!(buf.contents, lines(&[""]));
}

#[test]
fn undo_of_removing_every_line_leaves_an_empty_line_behind() {
    let mut buf = buffer(&["a", "b"]);
    remove_lines(&mut buf, 1, 2);
    undo(&mut buf);
    assert_eq!(buf.contents, lines(&["a", "b", ""]));
}

#[test]
fn every_action_followed_by_its_inverse_leaves_the_text() {
    let start = ["one", "two", "three"];
    let actions = vec![
        TextAction::NoOp,
        TextAction::InsertChar { pos: (2, 2), cha: 'x' },
        TextAction::InsertChar { pos: (2, 2), cha: '\n' },
        TextAction::RemoveChar { pos: (1, 3), cha: 'e' },
        TextAction::RemoveChar { pos: (1, 4), cha: '\n' },
        TextAction::Insert { start: (3, 6), stop: (4, 2), text: lines(&["!", "!"]) },
        TextAction::Remove { start: (1, 2), stop: (3, 3), text: lines(&["ne", "two", "th"]) },
        TextAction::InsertLines { start: 4, stop: 5, lines: lines(&["four", "five"]) },
        TextAction::RemoveLines { start: 2, stop: 3, lines: lines(&["two", "three"]) },
        TextAction::Composite {
            actions: vec![
                TextAction::InsertChar { pos: (1, 1), cha: 'a' },
                TextAction::InsertChar { pos: (1, 2), cha: '\n' },
                TextAction::RemoveLines { start: 3, stop: 3, lines: lines(&["two"]) },
            ],
            name: "Edit text at line 1".to_string(),
        },
    ];
    for action in actions {
        let mut buf = buffer(&start);
        assert!(replayable(&buf, &action));
        let back = action.inverse();
        do_text_action(&mut buf, action);
        assert!(replayable(&buf, &back));
        do_text_action(&mut buf, back);
        assert_eq!(buf.contents, lines(&start));
    }
}

#[test]
fn a_composite_is_replayed_in_order() {
    let mut buf = buffer(&["ab"]);
    let action = TextAction::Composite {
        actions: vec![
            TextAction::InsertChar { pos: (1, 3), cha: 'c' },
            TextAction::InsertChar { pos: (1, 4), cha: '\n' },
            TextAction::InsertChar { pos: (2, 1), cha: 'd' },
        ],
        name: "typing".to_string(),
    };
    do_text_action(&mut buf, action);
    assert_eq!(buf.contents, lines(&["abc", "d"]));
    assert_eq!(buf.cursor, (2, 2));
    assert!(!buf.history.locked);
    assert_eq!(buf.history.location, Vec::<usize>::new());
    assert!(buf.history.root.children.is_empty());
}

#[test]
fn replay_records_nothing_and_unlocks() {
    let mut buf = buffer(&["ab"]);
    buf.history.locked = true;
    do_text_action(&mut buf, TextAction::RemoveChar { pos: (1, 1), cha: 'a' });
    assert_eq!(buf.contents, lines(&["b"]));
    assert!(!buf.history.locked);
    assert!(buf.history.root.children.is_empty());
}

#[test]
fn a_locked_history_records_nothing() {
    let mut buf = buffer(&["ab"]);
    buf.history.locked = true;
    insert_char(&mut buf, 'x', (1, 1));
    assert_eq!(buf.contents, lines(&["xab"]));
    assert!(buf.history.root.children.is_empty());
    assert!(buf.history.locked);
}

#[test]
fn replayable_refuses_what_does_not_fit() {
    let buf = buffer(&["ab", "c"]);
    assert!(!replayable(&buf, &TextAction::InsertChar { pos: (1, 4), cha: 'x' }));
    assert!(!replayable(&buf, &TextAction::InsertChar { pos: (3, 1), cha: 'x' }));
    assert!(!replayable(&buf, &TextAction::InsertChar { pos: (0, 1), cha: 'x' }));
    assert!(replayable(&buf, &TextAction::InsertChar { pos: (1, 3), cha: 'x' }));
    assert!(!replayable(&buf, &TextAction::RemoveChar { pos: (2, 2), cha: '\n' }));
    assert!(replayable(&buf, &TextAction::RemoveChar { pos: (1, 3), cha: '\n' }));
    assert!(!replayable(
        &buf,
        &TextAction::Remove { start: (2, 1), stop: (1, 1), text: lines(&[""]) }
    ));
    assert!(!replayable(&buf, &TextAction::Insert { start: (1, 1), stop: (1, 1), text: vec![] }));
    assert!(!replayable(&buf, &TextAction::InsertLines { start: 4, stop: 4, lines: lines(&["x"]) }));
    assert!(!replayable(&buf, &TextAction::RemoveLines { start: 2, stop: 3, lines: vec![] }));
    assert!(replayable(&buf, &TextAction::RemoveLines { start: 1, stop: 2, lines: vec![] }));
    let run = TextAction::Composite {
        actions: vec![
            TextAction::RemoveLines { start: 2, stop: 2, lines: lines(&["c"]) },
            TextAction::InsertChar { pos: (2, 1), cha: 'x' },
        ],
        name: String::new(),
    };
    assert!(!replayable(&buf, &run));
}

#[test]
fn undo_then_redo_restores_text_and_cursor() {
    let mut buf = buffer(&["ab"]);
    insert_char(&mut buf, 'c', (1, 3));
    let text = buf.contents.clone();
    let cursor = buf.cursor;
    let location = buf.history.location.clone();
    undo(&mut buf);
    assert_eq!(buf.contents, lines(&["ab"]));
    redo(&mut buf);
    assert_eq!(buf.contents, text);
    assert_eq!(buf.cursor, cursor);
    assert_eq!(buf.history.location, location);
}

#[test]
fn a_cursor_that_was_moved_is_not_brought_back_by_undo_and_redo() {
    let mut buf = buffer(&["abc"]);
    remove_text(&mut buf, (1, 1), (1, 3));
    buf.cursor = (1, 1);
    undo(&mut buf);
    redo(&mut buf);
    assert_eq!(buf.contents, lines(&["c"]));
    assert_eq!(buf.cursor, (1, 3));
}

#[test]
fn file_text_round_trip() {
    let text = "first\nsecond\n\nlast\n";
    let buf = Buffer::from_text(text, History::new());
    assert_eq!(buf.contents, lines(&["first", "second", "", "last"]));
    assert_eq!(rvim::buffer::file_text(&buf.contents), text);
    assert_eq!(buf.mode, Mode::Normal);
    assert_eq!(buf.cursor, (1, 1));
    assert_eq!(buf.clip, lines(&[""]));
}

#[test]
fn loading_drops_what_follows_the_last_line_break() {
    assert_eq!(Buffer::from_text("a\nb", History::new()).contents, lines(&["a"]));
    assert_eq!(Buffer::from_text("", History::new()).contents, lines(&[""]));
    assert_eq!(Buffer::from_text("\n", History::new()).contents, lines(&[""]));
    assert_eq!(Buffer::from_text("x", History::new()).contents, lines(&[""]));
}

#[test]
fn split_and_concat() {
    assert_eq!(split_text(""), lines(&[""]));
    assert_eq!(split_text("a\n\nb\n"), lines(&["a", "", "b", ""]));
    assert_eq!(concat_lines(&lines(&["a", "", "b"])), "a\n\nb");
    assert_eq!(concat_lines(&lines(&[])), "");
    assert_eq!(concat_lines(&split_text("x\ny\n")), "x\ny\n");
    assert_eq!(split_text("héllo\nwörld"), lines(&["héllo", "wörld"]));
}
