use rvim::action::TextAction;
use rvim::buffer::{Buffer, Mode};
use rvim::common::Rect;
use rvim::screen::{
    draw_contents, draw_cursor, draw_fill, draw_history, draw_popup, draw_status, draw_text_box,
    redraw,
};
use rvim::terminal::{Color, Window};
use rvim::undo::History;

const RESET: &str = "\x1b[39;49m";
const GRAY: &str = "\x1b[100m";

fn buffer(text: &[&str]) -> Buffer {
    let mut file = String::new();
    for line in text {
        file.push_str(line);
        file.push('\n');
    }
    Buffer::from_text(&file, History::new())
}

fn window(top: usize, left: usize, bottom: usize, right: usize) -> Window {
    Window { rect: Rect { top, left, bottom, right } }
}

#[test]
fn filling_a_rectangle() {
    let bx = Rect { top: 2, left: 3, bottom: 3, right: 5 };
    assert_eq!(
        draw_fill(&bx, Color::Gray, &window(1, 1, 10, 10)),
        format!("{GRAY}\x1b[2;3H   \x1b[3;3H   {RESET}")
    );
    let none = Rect { top: 3, left: 3, bottom: 2, right: 5 };
    assert_eq!(draw_fill(&none, Color::Red, &window(1, 1, 10, 10)), format!("\x1b[41m{RESET}"));
}

#[test]
fn the_cursor_on_the_screen() {
    let mut buf = buffer(&["abcdef", "", "xyz"]);
    buf.cursor = (3, 4);
    assert_eq!(draw_cursor(&buf, &window(1, 40, 20, 80)), "\x1b[3;49H\x1b[1 q");
    buf.mode = Mode::Insert;
    buf.scroll = (2, 3);
    assert_eq!(draw_cursor(&buf, &window(1, 1, 20, 80)), "\x1b[2;8H\x1b[5 q");
}

#[test]
fn the_status_line() {
    let buf = buffer(&["a"]);
    let blanks = " ".repeat(80);
    assert_eq!(
        draw_status(&buf, &window(1, 1, 24, 80)),
        format!(
            "\x1b[23;1H{GRAY}{blanks}\x1b[23;1H\x1b[30;45m Normal \x1b[35;41m\x1b[31;100m\x1b[30;45m\x1b[23;76H 1:1 "
        )
    );
}

#[test]
fn lines_with_their_numbers() {
    let buf = buffer(&["ab", "c"]);
    let drawn = draw_contents(&buf, &window(1, 1, 22, 80), false).unwrap();
    assert_eq!(
        drawn,
        format!("\x1b[1;1H{RESET}    1 {RESET}ab\x1b[2;1H{RESET}\x1b[90m    2 {RESET}c")
    );
    let mut far = buffer(&["a", "b", "c", "d"]);
    far.cursor = (3, 1);
    far.scroll = (2, 1);
    let drawn = draw_contents(&far, &window(1, 1, 2, 80), true).unwrap();
    assert_eq!(
        drawn,
        format!("\x1b[1;1H{RESET}\x1b[90m    1 {RESET}b\x1b[2;1H{RESET}    3 {RESET}c")
    );
}

#[test]
fn lines_scrolled_sideways() {
    let mut buf = buffer(&["abcdefghij", "abc", ""]);
    buf.scroll = (1, 4);
    let drawn = draw_contents(&buf, &window(1, 1, 22, 10), false).unwrap();
    assert_eq!(
        drawn,
        format!(
            "\x1b[1;1H{RESET}    1 {RESET}defg\x1b[2;1H{RESET}\x1b[90m    2 {RESET}\x1b[3;1H{RESET}\x1b[90m    3 {RESET}"
        )
    );
}

#[test]
fn the_selection_is_drawn_on_gray() {
    let mut buf = buffer(&["abc"]);
    buf.mode = Mode::Visual;
    buf.selection_start = (1, 1);
    buf.cursor = (1, 2);
    let drawn = draw_contents(&buf, &window(1, 1, 22, 80), false).unwrap();
    assert_eq!(drawn, format!("\x1b[1;1H{RESET}    1 {RESET}{GRAY}ab{RESET}c{RESET}"));
    let mut lines = buffer(&["ab", "", "cd"]);
    lines.mode = Mode::VisualLine;
    lines.selection_start = (2, 1);
    lines.cursor = (1, 1);
    let drawn = draw_contents(&lines, &window(1, 1, 22, 80), false).unwrap();
    assert_eq!(
        drawn,
        format!(
            "\x1b[1;1H{RESET}    1 {RESET}{GRAY}ab\x1b[2;1H{RESET}\x1b[90m    2 {RESET}{GRAY} \x1b[3;1H{RESET}\x1b[90m    3 {RESET}cd"
        )
    );
}

#[test]
fn what_the_window_cannot_show_is_not_drawn() {
    let mut buf = buffer(&["abc"]);
    assert_eq!(draw_contents(&buf, &window(1, 1, 22, 3), false), None);
    assert_eq!(draw_contents(&buf, &window(2, 1, 1, 80), false), None);
    buf.scroll = (2, 1);
    assert_eq!(draw_contents(&buf, &window(1, 1, 22, 80), false), None);
    buf.scroll = (1, 0);
    assert_eq!(draw_contents(&buf, &window(1, 1, 22, 80), false), None);
}

fn act(n: usize) -> TextAction {
    TextAction::InsertLines { start: n, stop: n, lines: vec![vec![]] }
}

fn two_branches() -> History {
    let mut hist = History::new();
    hist.add_node_at(act(1), 1);
    hist.add_node_at(act(3), 3);
    hist.undo();
    hist.undo();
    hist.add_node_at(act(2), 2);
    hist
}

#[test]
fn the_browser_of_the_history() {
    let hist = two_branches();
    let drawn = draw_history(&hist, &window(1, 1, 22, 38)).unwrap();
    assert_eq!(
        drawn,
        format!(
            "\x1b[1;1H\u{25b6} Original version{RESET}\
             \x1b[2;1H\u{251c}\u{1fba2}\
             \x1b[3;1H\u{25b6}\u{2502} Insert at line 1: {RESET}\
             \x1b[4;1H\u{2502}\u{25b6}\x1b[36m Insert at line 2: {RESET}\
             \x1b[5;1H\u{25b6} Insert at line 3: {RESET}"
        )
    );
    let mut scrolled = two_branches();
    scrolled.scroll = 4;
    let drawn = draw_history(&scrolled, &window(1, 1, 1, 12)).unwrap();
    assert_eq!(drawn, format!("\x1b[1;1H\u{2502}\u{25b6}\x1b[36m Insert...{RESET}"));
    assert_eq!(draw_history(&hist, &window(1, 1, 22, 2)), None);
    assert_eq!(draw_history(&hist, &window(1, 3, 22, 2)), None);
}

#[test]
fn a_text_box_and_a_popup() {
    let surf = window(1, 1, 24, 80);
    let bx = Rect { top: 3, left: 9, bottom: 5, right: 12 };
    assert_eq!(draw_text_box(&bx, "Hi!\nyou", &surf), Some("\x1b[3;9HHi!\x1b[4;9Hyou".to_string()));
    assert_eq!(
        draw_popup(&bx, "Hi", &surf),
        Some(
            "\x1b[3;9H\u{256d}\u{2500}\u{2500}\u{256e}\
             \x1b[4;9H\u{2502}  \u{2502}\
             \x1b[5;9H\u{2570}\u{2500}\u{2500}\u{256f} \
             \x1b[4;10HHi"
                .to_string()
        )
    );
    let thin = Rect { top: 3, left: 9, bottom: 5, right: 9 };
    assert_eq!(draw_popup(&thin, "Hi", &surf), None);
}

#[test]
fn the_whole_screen() {
    let buf = buffer(&["ab"]);
    let drawn = redraw(&buf, 24, 80, false).unwrap();
    let blanks = " ".repeat(80);
    assert_eq!(
        drawn,
        format!(
            "{RESET}\x1b[2J\x1b[1;1H{RESET}    1 {RESET}ab\
             \x1b[23;1H{GRAY}{blanks}\x1b[23;1H\x1b[30;45m Normal \x1b[35;41m\x1b[31;100m\x1b[30;45m\x1b[23;76H 1:1 \
             \x1b[1;7H\x1b[1 q{RESET}"
        )
    );
    let mut with_history = buffer(&["ab"]);
    with_history.show_history = true;
    let drawn = redraw(&with_history, 5, 50, false).unwrap();
    assert!(drawn.starts_with(&format!(
        "{RESET}\x1b[2J\x1b[1;1H\u{25b6}\x1b[36m Original version{RESET}{GRAY}\x1b[1;39H \x1b[2;39H \x1b[3;39H {RESET}\x1b[1;40H"
    )));
    assert_eq!(redraw(&buf, 1, 80, false), None);
    assert_eq!(redraw(&buf, 2, 80, false), None);
    assert_eq!(redraw(&with_history, 24, 30, false), None);
    let mut away = buffer(&["ab"]);
    away.scroll = (1, 20);
    assert_eq!(redraw(&away, 24, 80, false), None);
}
