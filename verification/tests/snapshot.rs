use rvim::action::TextAction;
use rvim::undo::{History, UndoNode};
use serde_json::{Number, Value};

fn number(n: usize) -> Value {
    Value::Number(Number::from(n as u64))
}

fn coord(c: (usize, usize)) -> Value {
    Value::Array(vec![number(c.0), number(c.1)])
}

fn text(lines: &Vec<Vec<char>>) -> Value {
    Value::Array(lines.iter().map(|line| Value::String(line.iter().collect())).collect())
}

fn path(p: &Vec<usize>) -> Value {
    Value::Array(p.iter().map(|i| number(*i)).collect())
}

fn tagged(tag: &str, fields: Vec<(&str, Value)>) -> Value {
    let mut inner = serde_json::Map::new();
    for (name, value) in fields {
        inner.insert(name.to_string(), value);
    }
    let mut outer = serde_json::Map::new();
    outer.insert(tag.to_string(), Value::Object(inner));
    Value::Object(outer)
}

fn action_out(action: &TextAction) -> Value {
    match action {
        TextAction::NoOp => Value::String("NoOp".to_string()),
        TextAction::Insert { start, stop, text: t } => {
            tagged("Insert", vec![("start", coord(*start)), ("stop", coord(*stop)), ("text", text(t))])
        }
        TextAction::Remove { start, stop, text: t } => {
            tagged("Remove", vec![("start", coord(*start)), ("stop", coord(*stop)), ("text", text(t))])
        }
        TextAction::InsertLines { start, stop, lines } => tagged(
            "InsertLines",
            vec![("start", number(*start)), ("stop", number(*stop)), ("lines", text(lines))],
        ),
        TextAction::RemoveLines { start, stop, lines } => tagged(
            "RemoveLines",
            vec![("start", number(*start)), ("stop", number(*stop)), ("lines", text(lines))],
        ),
        TextAction::InsertChar { pos, cha } => tagged(
            "InsertChar",
            vec![("pos", coord(*pos)), ("cha", Value::String(cha.to_string()))],
        ),
        TextAction::RemoveChar { pos, cha } => tagged(
            "RemoveChar",
            vec![("pos", coord(*pos)), ("cha", Value::String(cha.to_string()))],
        ),
        TextAction::Composite { actions, name } => tagged(
            "Composite",
            vec![
                ("actions", Value::Array(actions.iter().map(action_out).collect())),
                ("name", Value::String(name.clone())),
            ],
        ),
    }
}

fn node_out(node: &UndoNode) -> Value {
    let mut map = serde_json::Map::new();
    map.insert("action".to_string(), action_out(&node.action));
    map.insert("children".to_string(), Value::Array(node.children.iter().map(node_out).collect()));
    map.insert("time".to_string(), Value::Number(Number::from(node.time as i64)));
    Value::Object(map)
}

fn history_out(hist: &History) -> Value {
    let mut map = serde_json::Map::new();
    map.insert("root".to_string(), node_out(&hist.root));
    map.insert("location".to_string(), path(&hist.location));
    map.insert(
        "latest_leaf".to_string(),
        match &hist.latest_leaf {
            Some(leaf) => path(leaf),
            None => Value::Null,
        },
    );
    map.insert("scroll".to_string(), number(hist.scroll));
    Value::Object(map)
}

fn number_in(value: &Value) -> usize {
    value.as_u64().unwrap() as usize
}

fn coord_in(value: &Value) -> (usize, usize) {
    (number_in(&value[0]), number_in(&value[1]))
}

fn text_in(value: &Value) -> Vec<Vec<char>> {
    value.as_array().unwrap().iter().map(|line| line.as_str().unwrap().chars().collect()).collect()
}

fn path_in(value: &Value) -> Vec<usize> {
    value.as_array().unwrap().iter().map(number_in).collect()
}

fn char_in(value: &Value) -> char {
    value.as_str().unwrap().chars().next().unwrap()
}

fn action_in(value: &Value) -> TextAction {
    if value.is_string() {
        return TextAction::NoOp;
    }
    let (tag, f) = value.as_object().unwrap().iter().next().unwrap();
    match tag.as_str() {
        "Insert" => TextAction::Insert {
            start: coord_in(&f["start"]),
            stop: coord_in(&f["stop"]),
            text: text_in(&f["text"]),
        },
        "Remove" => TextAction::Remove {
            start: coord_in(&f["start"]),
            stop: coord_in(&f["stop"]),
            text: text_in(&f["text"]),
        },
        "InsertLines" => TextAction::InsertLines {
            start: number_in(&f["start"]),
            stop: number_in(&f["stop"]),
            lines: text_in(&f["lines"]),
        },
        "RemoveLines" => TextAction::RemoveLines {
            start: number_in(&f["start"]),
            stop: number_in(&f["stop"]),
            lines: text_in(&f["lines"]),
        },
        "InsertChar" => TextAction::InsertChar { pos: coord_in(&f["pos"]), cha: char_in(&f["cha"]) },
        "RemoveChar" => TextAction::RemoveChar { pos: coord_in(&f["pos"]), cha: char_in(&f["cha"]) },
        "Composite" => TextAction::Composite {
            actions: f["actions"].as_array().unwrap().iter().map(action_in).collect(),
            name: f["name"].as_str().unwrap().to_string(),
        },
        other => panic!("{}", other),
    }
}

fn node_in(value: &Value) -> UndoNode {
    UndoNode {
        action: action_in(&value["action"]),
        children: value["children"].as_array().unwrap().iter().map(node_in).collect(),
        time: value["time"].as_i64().unwrap() as i128,
    }
}

fn history_in(value: &Value) -> History {
    History {
        root: node_in(&value["root"]),
        location: path_in(&value["location"]),
        latest_leaf: if value["latest_leaf"].is_null() {
            None
        } else {
            Some(path_in(&value["latest_leaf"]))
        },
        scroll: number_in(&value["scroll"]),
        locked: false,
        recording: None,
    }
}

fn two_branches() -> History {
    let mut hist = History::new();
    hist.start_record().unwrap();
    hist.add_node(TextAction::InsertChar { pos: (1, 1), cha: 'a' });
    hist.add_node(TextAction::InsertChar { pos: (1, 2), cha: '\n' });
    hist.stop_record().unwrap();
    hist.add_node(TextAction::Remove {
        start: (1, 1),
        stop: (2, 1),
        text: vec![vec!['a'], vec![]],
    });
    hist.undo();
    hist.undo();
    hist.add_node(TextAction::InsertLines { start: 1, stop: 2, lines: vec![vec!['x'], vec!['y', 'z']] });
    hist.add_node(TextAction::RemoveLines { start: 2, stop: 2, lines: vec![vec!['y', 'z']] });
    hist.undo();
    hist.scroll = 3;
    hist
}

#[test]
fn a_history_comes_back_from_its_snapshot() {
    let hist = two_branches();
    assert_eq!(hist.root.children.len(), 2);
    assert_eq!(hist.location, vec![1]);
    assert_eq!(hist.latest_leaf, Some(vec![1, 0]));
    let written = serde_json::to_string(&history_out(&hist)).unwrap();
    let read: Value = serde_json::from_str(&written).unwrap();
    let mut back = history_in(&read);
    assert!(back.is_wf());
    assert_eq!(back.location, hist.location);
    assert_eq!(back.latest_leaf, hist.latest_leaf);
    assert_eq!(back.scroll, hist.scroll);
    assert_eq!(back.root, hist.root);
    assert_eq!(back.rows(), hist.rows());
    assert_eq!(
        back.redo(),
        Some(TextAction::RemoveLines { start: 2, stop: 2, lines: vec![vec!['y', 'z']] })
    );
    assert_eq!(back.goto_node(vec![0, 0]).map(|way| way.len()), Some(4));
}

#[test]
fn a_snapshot_that_does_not_fit_its_tree_is_found_out() {
    let hist = two_branches();
    let mut value = history_out(&hist);
    value["location"] = path(&vec![2]);
    assert!(!history_in(&value).is_wf());
    let mut value = history_out(&hist);
    value["latest_leaf"] = path(&vec![0]);
    assert!(!history_in(&value).is_wf());
}
