use rvim::action::TextAction;
use rvim::buffer::{Buffer, Mode};
use rvim::common::String32;
use rvim::events::{
    evaluated_at, handle_event, handle_event_at, Event, MouseButton, MouseEvent, Reaction,
};
use rvim::select::Key;
use rvim::undo::History;

fn lines(text: &[&str]) -> Vec<String32> {
    text.iter().map(|line| line.chars().collect()).collect()
}

fn buffer(text: &[&str]) -> Buffer {
    let mut file = String::new();
    for line in text {
        file.push_str(line);
        file.push('\n');
    }
    Buffer::from_text(&file, History::new())
}

fn press(buf: &mut Buffer, keys: &str) -> Reaction {
    let mut last = Reaction::Done;
    for cha in keys.chars() {
        last = handle_event(buf, Event::Key(Key::Char(cha)), None, 24, 80);
        assert_ne!(last, Reaction::Refused);
    }
    last
}

fn key(buf: &mut Buffer, key: Key) -> Reaction {
    handle_event(buf, Event::Key(key), None, 24, 80)
}

#[test]
fn typing_a_word_and_leaving_the_insert_mode() {
    let mut buf = buffer(&[""]);
    assert_eq!(press(&mut buf, "ihello"), Reaction::Done);
    assert_eq!(buf.mode, Mode::Insert);
    assert_eq!(buf.contents, lines(&["hello"]));
    assert_eq!(buf.cursor, (1, 6));
    assert_eq!(key(&mut buf, Key::Esc), Reaction::Done);
    assert_eq!(buf.mode, Mode::Normal);
    assert_eq!(buf.cursor, (1, 5));
    assert_eq!(buf.history.location, vec![0]);
    assert_eq!(press(&mut buf, "u"), Reaction::Done);
    assert_eq!(buf.contents, lines(&[""]));
    assert_eq!(press(&mut buf, "r"), Reaction::Done);
    assert_eq!(buf.contents, lines(&["hello"]));
    assert_eq!(press(&mut buf, "q"), Reaction::Quit);
}

#[test]
fn the_keys_of_the_normal_mode() {
    let mut buf = buffer(&["abc", "def", "ghi"]);
    press(&mut buf, "l");
    assert_eq!(buf.cursor, (1, 2));
    press(&mut buf, "j");
    assert_eq!(buf.cursor, (2, 2));
    press(&mut buf, "x");
    assert_eq!(buf.contents, lines(&["abc", "df", "ghi"]));
    assert_eq!(press(&mut buf, "d"), Reaction::Copied);
    assert_eq!(buf.contents, lines(&["abc", "ghi"]));
    assert_eq!(buf.clip, lines(&["df"]));
    assert!(buf.clip_lines);
    assert_eq!(buf.mode, Mode::Normal);
    assert_eq!(buf.cursor, (2, 2));
    press(&mut buf, "k");
    assert_eq!(press(&mut buf, "p"), Reaction::Done);
    assert_eq!(buf.contents, lines(&["abc", "df", "ghi"]));
    assert_eq!(buf.cursor, (2, 2));
    assert_eq!(press(&mut buf, "y"), Reaction::Copied);
    assert_eq!(buf.clip, lines(&["df"]));
    press(&mut buf, "P");
    assert_eq!(buf.contents, lines(&["abc", "df", "df", "ghi"]));
    press(&mut buf, "h");
    assert_eq!(buf.cursor.1, 1);
    press(&mut buf, "H");
    assert!(buf.show_history);
    press(&mut buf, "H");
    assert!(!buf.show_history);
    press(&mut buf, "z");
    assert_eq!(buf.contents, lines(&["abc", "df", "df", "ghi"]));
}

#[test]
fn opening_lines() {
    let mut buf = buffer(&["a", "b"]);
    press(&mut buf, "ox");
    key(&mut buf, Key::Esc);
    assert_eq!(buf.contents, lines(&["a", "x", "b"]));
    press(&mut buf, "Oy");
    key(&mut buf, Key::Esc);
    assert_eq!(buf.contents, lines(&["a", "y", "x", "b"]));
    press(&mut buf, "uuuu");
    assert_eq!(buf.contents, lines(&["a", "b"]));
}

#[test]
fn appending_behind_the_cursor() {
    let mut buf = buffer(&["ab"]);
    press(&mut buf, "a");
    assert_eq!(buf.mode, Mode::Insert);
    assert_eq!(buf.cursor, (1, 2));
    press(&mut buf, "X");
    assert_eq!(buf.contents, lines(&["aXb"]));
}

#[test]
fn arrows_and_editing_keys_in_the_insert_mode() {
    let mut buf = buffer(&["ab", "cd"]);
    press(&mut buf, "i");
    key(&mut buf, Key::Right);
    key(&mut buf, Key::Down);
    assert_eq!(buf.cursor, (2, 2));
    key(&mut buf, Key::Backspace);
    assert_eq!(buf.contents, lines(&["ab", "d"]));
    key(&mut buf, Key::Up);
    key(&mut buf, Key::Left);
    key(&mut buf, Key::Delete);
    assert_eq!(buf.contents, lines(&["b", "d"]));
    key(&mut buf, Key::Other);
    key(&mut buf, Key::Char('\n'));
    assert_eq!(buf.contents, lines(&["", "b", "d"]));
    key(&mut buf, Key::Esc);
    assert_eq!(buf.mode, Mode::Normal);
    assert_eq!(buf.history.location.len(), 3);
}

#[test]
fn the_keys_of_the_visual_modes() {
    let mut buf = buffer(&["abcd", "efgh"]);
    press(&mut buf, "lvl");
    assert_eq!(buf.mode, Mode::Visual);
    assert_eq!(buf.selection_start, (1, 2));
    assert_eq!(buf.cursor, (1, 3));
    assert_eq!(press(&mut buf, "y"), Reaction::Copied);
    assert_eq!(buf.clip, lines(&["bc"]));
    assert!(!buf.clip_lines);
    assert_eq!(buf.mode, Mode::Normal);
    press(&mut buf, "vj");
    assert_eq!(press(&mut buf, "d"), Reaction::Copied);
    assert_eq!(buf.contents, lines(&["abh"]));
    assert_eq!(buf.clip, lines(&["cd", "efg"]));
    assert_eq!(buf.cursor, (1, 3));
    press(&mut buf, "Vkh");
    assert_eq!(buf.mode, Mode::VisualLine);
    assert_eq!(press(&mut buf, "q"), Reaction::Done);
    assert_eq!(buf.mode, Mode::VisualLine);
}

#[test]
fn evaluating_the_selection() {
    let mut buf = buffer(&["x = 1+2"]);
    buf.cursor = (1, 5);
    press(&mut buf, "vll");
    assert_eq!(press(&mut buf, "e"), Reaction::Evaluate("1+2".to_string()));
    assert_eq!(buf.mode, Mode::Visual);
    assert_eq!(evaluated_at(&mut buf, "3\n", 24, 80, 7), Reaction::Done);
    assert_eq!(buf.contents, lines(&["x = 3"]));
    assert_eq!(buf.mode, Mode::Normal);
    assert_eq!(buf.history.get_current_node().time, 7);
    assert_eq!(evaluated_at(&mut buf, "", 24, 80, 7), Reaction::Refused);
    let mut two = buffer(&["ab", "cd"]);
    press(&mut two, "vj");
    assert_eq!(press(&mut two, "e"), Reaction::Done);
}

#[test]
fn pasting_what_the_clipboard_holds() {
    let mut buf = buffer(&["ab"]);
    let reaction = handle_event(&mut buf, Event::Key(Key::Char('p')), Some("XY"), 24, 80);
    assert_eq!(reaction, Reaction::Done);
    assert_eq!(buf.contents, lines(&["aXYb"]));
    assert_eq!(buf.clip, lines(&["XY"]));
}

#[test]
fn a_click_in_the_text_moves_the_cursor() {
    let mut buf = buffer(&["abcdef", "gh"]);
    let click = Event::Mouse(MouseEvent::Press(MouseButton::Left, 10, 1));
    assert_eq!(handle_event(&mut buf, click, None, 24, 80), Reaction::Done);
    assert_eq!(buf.cursor, (1, 4));
    let click = Event::Mouse(MouseEvent::Press(MouseButton::Left, 3, 2));
    assert_eq!(handle_event(&mut buf, click, None, 24, 80), Reaction::Done);
    assert_eq!(buf.cursor, (2, 1));
    let click = Event::Mouse(MouseEvent::Press(MouseButton::Left, 30, 9));
    assert_eq!(handle_event(&mut buf, click, None, 24, 80), Reaction::Done);
    assert_eq!(buf.cursor, (2, 2));
    let other = Event::Mouse(MouseEvent::Press(MouseButton::Other, 30, 9));
    assert_eq!(handle_event(&mut buf, other, None, 24, 80), Reaction::Done);
    assert_eq!(handle_event(&mut buf, Event::Mouse(MouseEvent::Other), None, 24, 80), Reaction::Done);
    assert_eq!(handle_event(&mut buf, Event::Other, None, 24, 80), Reaction::Done);
}

#[test]
fn holding_the_mouse_selects() {
    let mut buf = buffer(&["abcdef", "gh"]);
    buf.cursor = (1, 2);
    let hold = Event::Mouse(MouseEvent::Hold(11, 1));
    assert_eq!(handle_event(&mut buf, hold, None, 24, 80), Reaction::Done);
    assert_eq!(buf.mode, Mode::Visual);
    assert_eq!(buf.selection_start, (1, 2));
    assert_eq!(buf.cursor, (1, 5));
}

#[test]
fn a_click_in_the_browser_goes_to_the_node() {
    let mut buf = buffer(&[""]);
    assert_eq!(handle_event_at(&mut buf, Event::Key(Key::Char('i')), None, 24, 80, 1), Reaction::Done);
    for cha in ['a', 'b'] {
        handle_event_at(&mut buf, Event::Key(Key::Char(cha)), None, 24, 80, 1);
    }
    handle_event_at(&mut buf, Event::Key(Key::Esc), None, 24, 80, 1);
    handle_event_at(&mut buf, Event::Key(Key::Char('u')), None, 24, 80, 2);
    assert_eq!(buf.contents, lines(&[""]));
    handle_event_at(&mut buf, Event::Key(Key::Char('i')), None, 24, 80, 3);
    handle_event_at(&mut buf, Event::Key(Key::Char('z')), None, 24, 80, 3);
    handle_event_at(&mut buf, Event::Key(Key::Esc), None, 24, 80, 3);
    assert_eq!(buf.contents, lines(&["z"]));
    assert_eq!(buf.history.location, vec![1]);
    handle_event_at(&mut buf, Event::Key(Key::Char('H')), None, 24, 80, 4);
    // rows: 1 root, 2 fork, 3 first session, 4 join, 5 second session
    let click = Event::Mouse(MouseEvent::Press(MouseButton::Left, 5, 3));
    assert_eq!(handle_event_at(&mut buf, click, None, 24, 80, 5), Reaction::Done);
    assert_eq!(buf.history.location, vec![0]);
    assert_eq!(buf.contents, lines(&["ab"]));
    assert_eq!(buf.history.latest_leaf, None);
    let click = Event::Mouse(MouseEvent::Press(MouseButton::Left, 5, 4));
    assert_eq!(handle_event_at(&mut buf, click, None, 24, 80, 5), Reaction::Done);
    assert_eq!(buf.history.location, vec![0]);
    let click = Event::Mouse(MouseEvent::Press(MouseButton::Left, 5, 1));
    assert_eq!(handle_event_at(&mut buf, click, None, 24, 80, 5), Reaction::Done);
    assert_eq!(buf.contents, lines(&[""]));
    let click = Event::Mouse(MouseEvent::Press(MouseButton::Left, 45, 1));
    assert_eq!(handle_event_at(&mut buf, click, None, 24, 80, 5), Reaction::Done);
    assert_eq!(buf.history.location, Vec::<usize>::new());
    assert_eq!(buf.cursor, (1, 1));
}

#[test]
fn the_wheel_scrolls() {
    let text: Vec<String> = (0..100).map(|i| format!("line {}", i)).collect();
    let refs: Vec<&str> = text.iter().map(|s| s.as_str()).collect();
    let mut buf = buffer(&refs);
    let down = Event::Mouse(MouseEvent::Press(MouseButton::WheelDown, 1, 1));
    assert_eq!(handle_event(&mut buf, down, None, 24, 80), Reaction::Done);
    assert_eq!(buf.scroll.0, 4);
    assert_eq!(buf.cursor.0, 14);
    assert_eq!(buf.history.scroll, 2);
    let left = Event::Mouse(MouseEvent::Press(MouseButton::WheelLeft, 1, 1));
    assert_eq!(handle_event(&mut buf, left, None, 24, 80), Reaction::Done);
    assert_eq!(buf.scroll.0, 7);
    assert_eq!(buf.history.scroll, 2);
    buf.cursor = (60, 1);
    let up = Event::Mouse(MouseEvent::Press(MouseButton::WheelUp, 1, 1));
    assert_eq!(handle_event(&mut buf, up, None, 24, 80), Reaction::Done);
    assert_eq!(buf.scroll.0, 4);
    assert_eq!(buf.cursor.0, 16);
    assert_eq!(buf.history.scroll, 1);
    assert_eq!(handle_event(&mut buf, up, None, 24, 80), Reaction::Done);
    assert_eq!(buf.scroll.0, 1);
    assert_eq!(buf.history.scroll, 1);
}

#[test]
fn what_cannot_be_done_is_refused() {
    let mut buf = buffer(&["ab"]);
    buf.cursor = (1, 9);
    assert_eq!(key(&mut buf, Key::Char('i')), Reaction::Done);
    assert_eq!(key(&mut buf, Key::Char('x')), Reaction::Refused);
    assert_eq!(buf.contents, lines(&["ab"]));
    let mut small = buffer(&["ab", "cd"]);
    assert_eq!(handle_event(&mut small, Event::Key(Key::Char('j')), None, 5, 80), Reaction::Refused);
    assert_eq!(small.cursor, (1, 1));
    let mut odd = buffer(&["ab"]);
    odd.mode = Mode::Insert;
    assert_eq!(key(&mut odd, Key::Esc), Reaction::Refused);
    assert_eq!(odd.mode, Mode::Insert);
    let mut stale = buffer(&["ab"]);
    stale.history.add_node(TextAction::InsertChar { pos: (3, 1), cha: 'x' });
    assert_eq!(key(&mut stale, Key::Char('u')), Reaction::Refused);
    assert_eq!(stale.contents, lines(&["ab"]));
}
