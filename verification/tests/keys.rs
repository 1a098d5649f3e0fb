use rvim::action::TextAction;
use rvim::buffer::{Buffer, Mode};
use rvim::common::String32;
use rvim::motion::{down, left, right, up, update_cursor, update_scroll};
use rvim::select::{
    get_selected_text, insert_key, paste_clip, remove_selected, replace_selected, same_text,
    selected_bounds, yank_selected, Key,
};
use rvim::undo::{History, RecordError};

fn lines(text: &[&str]) -> Vec<String32> {
    text.iter().map(|line| line.chars().collect()).collect()
}

fn buffer(text: &[&str]) -> Buffer {
    let mut file = String::new();
    for line in text {
        file.push_str(line);
        file.push('\n');
    }
    Buffer::from_text(&file, History::new())
}

#[test]
fn typing_in_insert_mode_is_one_session() {
    let mut buf = buffer(&[""]);
    assert_eq!(buf.set_mode(Mode::Insert), Ok(()));
    assert!(buf.history.is_recording());
    insert_key(&mut buf, Key::Char('h'));
    insert_key(&mut buf, Key::Char('i'));
    insert_key(&mut buf, Key::Other);
    assert_eq!(buf.contents, lines(&["hi"]));
    assert_eq!(buf.cursor, (1, 3));
    assert_eq!(buf.cursor_col_goal, 3);
    assert_eq!(buf.set_mode(Mode::Normal), Ok(()));
    assert_eq!(buf.cursor, (1, 2));
    assert_eq!(buf.cursor_col_goal, 2);
    assert_eq!(buf.mode, Mode::Normal);
    assert_eq!(buf.history.location, vec![0]);
    assert_eq!(
        buf.history.get_current_node().action,
        TextAction::Composite {
            actions: vec![
                TextAction::InsertChar { pos: (1, 1), cha: 'h' },
                TextAction::InsertChar { pos: (1, 2), cha: 'i' },
            ],
            name: "Edit text at line 1".to_string(),
        }
    );
}

#[test]
fn a_line_break_snips_the_session() {
    let mut buf = buffer(&[""]);
    buf.set_mode(Mode::Insert).unwrap();
    insert_key(&mut buf, Key::Char('a'));
    insert_key(&mut buf, Key::Char('\n'));
    insert_key(&mut buf, Key::Char('b'));
    buf.set_mode(Mode::Normal).unwrap();
    assert_eq!(buf.contents, lines(&["a", "b"]));
    assert_eq!(buf.history.location, vec![0, 0]);
    assert_eq!(
        buf.history.get_node(&vec![0]).action,
        TextAction::Composite {
            actions: vec![TextAction::InsertChar { pos: (1, 1), cha: 'a' }],
            name: "Edit text at line 1".to_string(),
        }
    );
    assert_eq!(
        buf.history.get_node(&vec![0, 0]).action,
        TextAction::Composite {
            actions: vec![
                TextAction::InsertChar { pos: (1, 2), cha: '\n' },
                TextAction::InsertChar { pos: (2, 1), cha: 'b' },
            ],
            name: "Edit text at line 1".to_string(),
        }
    );
}

#[test]
fn backspace_and_delete() {
    let mut buf = buffer(&["ab", "cd"]);
    buf.cursor = (2, 1);
    insert_key(&mut buf, Key::Backspace);
    assert_eq!(buf.contents, lines(&["abcd"]));
    assert_eq!(buf.cursor, (1, 3));
    insert_key(&mut buf, Key::Backspace);
    assert_eq!(buf.contents, lines(&["acd"]));
    assert_eq!(buf.cursor, (1, 2));
    insert_key(&mut buf, Key::Delete);
    assert_eq!(buf.contents, lines(&["ad"]));
    assert_eq!(buf.cursor, (1, 2));
    buf.cursor = (1, 1);
    insert_key(&mut buf, Key::Backspace);
    assert_eq!(buf.contents, lines(&["ad"]));
    buf.cursor = (1, 3);
    insert_key(&mut buf, Key::Delete);
    assert_eq!(buf.contents, lines(&["ad"]));
    assert_eq!(buf.history.location.len(), 3);
}

#[test]
fn delete_at_the_end_of_a_line_joins() {
    let mut buf = buffer(&["ab", "cd"]);
    buf.cursor = (1, 3);
    insert_key(&mut buf, Key::Delete);
    assert_eq!(buf.contents, lines(&["abcd"]));
}

#[test]
fn changes_of_mode() {
    let mut buf = buffer(&["abc"]);
    buf.cursor = (1, 2);
    assert_eq!(buf.set_mode(Mode::Normal), Ok(()));
    assert_eq!(buf.set_mode(Mode::Visual), Ok(()));
    assert_eq!(buf.selection_start, (1, 2));
    buf.cursor = (1, 4);
    assert_eq!(buf.set_mode(Mode::Normal), Ok(()));
    assert_eq!(buf.cursor, (1, 3));
    buf.cursor = (1, 1);
    assert_eq!(buf.set_mode(Mode::VisualLine), Ok(()));
    assert_eq!(buf.selection_start, (1, 1));
    assert_eq!(buf.set_mode(Mode::Visual), Ok(()));
    assert_eq!(buf.set_mode(Mode::Insert), Ok(()));
    assert!(buf.history.is_recording());
    buf.cursor = (1, 3);
    assert_eq!(buf.set_mode(Mode::Visual), Ok(()));
    assert!(!buf.history.is_recording());
    assert_eq!(buf.selection_start, (1, 3));
    assert_eq!(buf.cursor, (1, 3));
}

#[test]
fn a_change_of_mode_that_breaks_the_recording_is_refused() {
    let mut buf = buffer(&["abc"]);
    buf.mode = Mode::Insert;
    buf.cursor = (1, 3);
    assert_eq!(buf.set_mode(Mode::Normal), Err(RecordError::NotRecording));
    assert_eq!(buf.mode, Mode::Insert);
    assert_eq!(buf.cursor, (1, 3));
    buf.mode = Mode::Normal;
    buf.history.start_record().unwrap();
    assert_eq!(buf.set_mode(Mode::Insert), Err(RecordError::AlreadyRecording));
    assert_eq!(buf.mode, Mode::Normal);
}

#[test]
fn selections() {
    let mut buf = buffer(&["abc", "def", "ghi"]);
    buf.mode = Mode::Visual;
    buf.selection_start = (2, 2);
    buf.cursor = (1, 3);
    assert_eq!(selected_bounds(&buf), ((1, 3), (2, 2)));
    assert_eq!(get_selected_text(&buf), lines(&["c", "de"]));
    buf.cursor = (2, 4);
    assert_eq!(selected_bounds(&buf), ((2, 2), (2, 4)));
    assert_eq!(get_selected_text(&buf), lines(&["ef", ""]));
    buf.selection_start = (3, 2);
    buf.cursor = (3, 4);
    assert_eq!(get_selected_text(&buf), lines(&["hi"]));
    buf.mode = Mode::VisualLine;
    buf.selection_start = (3, 1);
    buf.cursor = (2, 3);
    assert_eq!(get_selected_text(&buf), lines(&["def", "ghi"]));
    yank_selected(&mut buf);
    assert_eq!(buf.clip, lines(&["def", "ghi"]));
    assert!(buf.clip_lines);
}

#[test]
fn removing_the_selection() {
    let mut buf = buffer(&["abc", "def", "ghi"]);
    buf.mode = Mode::Visual;
    buf.selection_start = (1, 2);
    buf.cursor = (2, 1);
    remove_selected(&mut buf);
    assert_eq!(buf.contents, lines(&["aef", "ghi"]));
    assert_eq!(buf.cursor, (1, 2));
    assert_eq!(buf.cursor_col_goal, 2);
    assert_eq!(
        buf.history.get_current_node().action,
        TextAction::Remove { start: (1, 2), stop: (2, 2), text: lines(&["bc", "d"]) }
    );
    buf.mode = Mode::VisualLine;
    buf.selection_start = (2, 3);
    buf.cursor = (2, 1);
    remove_selected(&mut buf);
    assert_eq!(buf.contents, lines(&["aef"]));
    assert_eq!(buf.cursor, (2, 1));
}

#[test]
fn replacing_the_selection() {
    let mut buf = buffer(&["1+2 = ?"]);
    buf.mode = Mode::Visual;
    buf.selection_start = (1, 1);
    buf.cursor = (1, 3);
    replace_selected(&mut buf, &lines(&["3"]));
    assert_eq!(buf.contents, lines(&["3 = ?"]));
    assert_eq!(buf.cursor, (1, 5));
    assert_eq!(buf.history.location, vec![0, 0]);
    let mut buf = buffer(&["a", "b", "c"]);
    buf.mode = Mode::VisualLine;
    buf.selection_start = (1, 1);
    buf.cursor = (2, 1);
    replace_selected(&mut buf, &lines(&["x", "yy", "z"]));
    assert_eq!(buf.contents, lines(&["x", "yy", "z", "c"]));
    assert_eq!(buf.cursor, (3, 1));
}

#[test]
fn pasting_text_and_lines() {
    let mut buf = buffer(&["abc"]);
    buf.clip = lines(&["XY"]);
    buf.cursor = (1, 2);
    paste_clip(&mut buf, true, None);
    assert_eq!(buf.contents, lines(&["abXYc"]));
    assert_eq!(buf.cursor, (1, 5));
    assert_eq!(buf.cursor_col_goal, 5);
    buf.cursor = (1, 1);
    paste_clip(&mut buf, false, None);
    assert_eq!(buf.contents, lines(&["XYabXYc"]));
    buf.clip = lines(&["l1", "l2"]);
    buf.clip_lines = true;
    buf.cursor = (1, 1);
    paste_clip(&mut buf, true, None);
    assert_eq!(buf.contents, lines(&["XYabXYc", "l1", "l2"]));
    assert_eq!(buf.cursor, (3, 1));
    buf.cursor = (1, 1);
    paste_clip(&mut buf, false, None);
    assert_eq!(buf.contents, lines(&["l1", "l2", "XYabXYc", "l1", "l2"]));
    let mut empty = buffer(&[""]);
    empty.clip = lines(&["q"]);
    paste_clip(&mut empty, true, None);
    assert_eq!(empty.contents, lines(&["q"]));
}

#[test]
fn pasting_from_the_clipboard_of_the_system() {
    let mut buf = buffer(&["abc"]);
    buf.clip = lines(&["l1"]);
    buf.clip_lines = true;
    paste_clip(&mut buf, false, Some("l1"));
    assert!(buf.clip_lines);
    assert_eq!(buf.contents, lines(&["l1", "abc"]));
    buf.cursor = (2, 1);
    paste_clip(&mut buf, false, Some("new\ntext"));
    assert!(!buf.clip_lines);
    assert_eq!(buf.clip, lines(&["new", "text"]));
    assert_eq!(buf.contents, lines(&["l1", "new", "textabc"]));
    assert_eq!(buf.cursor, (3, 5));
}

#[test]
fn same_text_compares_lines() {
    assert!(same_text(&lines(&["a", ""]), &lines(&["a", ""])));
    assert!(!same_text(&lines(&["a", ""]), &lines(&["a"])));
    assert!(!same_text(&lines(&["a", "b"]), &lines(&["a", "c"])));
    assert!(!same_text(&lines(&["ab"]), &lines(&["a"])));
    assert!(same_text(&lines(&[]), &lines(&[])));
}

#[test]
fn moving_the_cursor() {
    let mut buf = buffer(&["abcdef", "ab", "", "abcd"]);
    buf.cursor = (1, 5);
    buf.cursor_col_goal = 5;
    down(&mut buf, 24, 80, 1);
    assert_eq!(buf.cursor, (2, 2));
    down(&mut buf, 24, 80, 1);
    assert_eq!(buf.cursor, (3, 1));
    down(&mut buf, 24, 80, 5);
    assert_eq!(buf.cursor, (4, 4));
    down(&mut buf, 24, 80, 1);
    assert_eq!(buf.cursor, (4, 4));
    up(&mut buf, 24, 80, 10);
    assert_eq!(buf.cursor, (1, 5));
    up(&mut buf, 24, 80, 1);
    assert_eq!(buf.cursor, (1, 5));
    left(&mut buf, 24, 80, 2);
    assert_eq!(buf.cursor, (1, 3));
    assert_eq!(buf.cursor_col_goal, 3);
    left(&mut buf, 24, 80, 9);
    assert_eq!(buf.cursor, (1, 1));
    left(&mut buf, 24, 80, 1);
    assert_eq!(buf.cursor, (1, 1));
    right(&mut buf, 24, 80, 3);
    assert_eq!(buf.cursor, (1, 4));
    right(&mut buf, 24, 80, 30);
    assert_eq!(buf.cursor, (1, 6));
    buf.mode = Mode::Insert;
    right(&mut buf, 24, 80, 30);
    assert_eq!(buf.cursor, (1, 7));
    assert_eq!(buf.cursor_col_goal, 7);
}

#[test]
fn moving_the_cursor_snips_the_session() {
    let mut buf = buffer(&["ab", "cd"]);
    buf.set_mode(Mode::Insert).unwrap();
    insert_key(&mut buf, Key::Char('x'));
    down(&mut buf, 24, 80, 1);
    insert_key(&mut buf, Key::Char('y'));
    buf.set_mode(Mode::Normal).unwrap();
    assert_eq!(buf.contents, lines(&["xab", "cyd"]));
    assert_eq!(buf.history.location, vec![0, 0]);
}

#[test]
fn scrolling_follows_the_cursor() {
    let text: Vec<String> = (0..100).map(|i| format!("line {}", i)).collect();
    let refs: Vec<&str> = text.iter().map(|s| s.as_str()).collect();
    let mut buf = buffer(&refs);
    buf.cursor = (40, 1);
    update_scroll(&mut buf, 24, 80);
    assert_eq!(buf.scroll, (28, 1));
    buf.cursor = (30, 1);
    update_scroll(&mut buf, 24, 80);
    assert_eq!(buf.scroll, (20, 1));
    buf.cursor = (5, 1);
    update_scroll(&mut buf, 24, 80);
    assert_eq!(buf.scroll, (20, 1));
    buf.cursor = (11, 1);
    update_scroll(&mut buf, 24, 80);
    assert_eq!(buf.scroll, (1, 1));
    buf.cursor = (1, 90);
    update_scroll(&mut buf, 24, 80);
    assert_eq!(buf.scroll, (1, 18));
    buf.cursor = (1, 10);
    update_scroll(&mut buf, 24, 80);
    assert_eq!(buf.scroll, (1, 9));
    buf.cursor = (200, 50);
    buf.cursor_col_goal = 50;
    update_cursor(&mut buf, 24, 80);
    assert_eq!(buf.cursor, (100, 7));
    assert_eq!(buf.scroll, (88, 6));
}
