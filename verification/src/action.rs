use crate::common::{concat_lines, copy_lines, decimal, joined, push_decimal, Coord, String32};
use crate::text::{Pos, Text};
use vstd::prelude::*;
use vstd::string::StringExecFns;

verus! {

/// One change to a text that can be taken back, or a named run of such changes.
/// Each holds all that it takes to build the change that takes it back.
#[derive(Debug, PartialEq, Eq)]
#[allow(inconsistent_fields)]
pub enum TextAction {
    /// No change: the text as it was first read.
    NoOp,
    /// `text` was spliced in at `start`, and then reached up to `stop`.
    Insert { start: Coord, stop: Coord, text: Vec<String32> },
    /// `text` was taken out: it reached from `start` up to `stop`.
    Remove { start: Coord, stop: Coord, text: Vec<String32> },
    /// `lines` were put in as the lines `start` to `stop`.
    InsertLines { start: usize, stop: usize, lines: Vec<String32> },
    /// `lines` were taken out: they were the lines `start` to `stop`.
    RemoveLines { start: usize, stop: usize, lines: Vec<String32> },
    /// `cha` was put in at `pos`.
    InsertChar { pos: Coord, cha: char },
    /// `cha` was taken out at `pos`.
    RemoveChar { pos: Coord, cha: char },
    /// `actions`, one after the other, under one name.
    Composite { actions: Vec<TextAction>, name: String },
}

/// A `TextAction` in the abstract.
#[allow(inconsistent_fields)]
pub enum ActionView {
    NoOp,
    Insert { start: Pos, stop: Pos, text: Text },
    Remove { start: Pos, stop: Pos, text: Text },
    InsertLines { start: int, stop: int, lines: Text },
    RemoveLines { start: int, stop: int, lines: Text },
    InsertChar { pos: Pos, cha: char },
    RemoveChar { pos: Pos, cha: char },
    Composite { actions: Seq<ActionView>, name: Seq<char> },
}

/// A coordinate as a position in the abstract.
pub open spec fn at(c: Coord) -> Pos {
    (c.0 as int, c.1 as int)
}

/// What the name of an action begins with that takes back a named run of actions.
pub open spec fn undo_prefix() -> Seq<char> {
    "Undo "@
}

impl TextAction {
    /// The action in the abstract.
    pub open spec fn model(self) -> ActionView
        decreases self,
    {
        match self {
            TextAction::NoOp => ActionView::NoOp,
            TextAction::Insert { start, stop, text } => ActionView::Insert {
                start: at(start),
                stop: at(stop),
                text: text.deep_view(),
            },
            TextAction::Remove { start, stop, text } => ActionView::Remove {
                start: at(start),
                stop: at(stop),
                text: text.deep_view(),
            },
            TextAction::InsertLines { start, stop, lines } => ActionView::InsertLines {
                start: start as int,
                stop: stop as int,
                lines: lines.deep_view(),
            },
            TextAction::RemoveLines { start, stop, lines } => ActionView::RemoveLines {
                start: start as int,
                stop: stop as int,
                lines: lines.deep_view(),
            },
            TextAction::InsertChar { pos, cha } => ActionView::InsertChar { pos: at(pos), cha },
            TextAction::RemoveChar { pos, cha } => ActionView::RemoveChar { pos: at(pos), cha },
            TextAction::Composite { actions, name } => ActionView::Composite {
                actions: Seq::new(
                    actions@.len(),
                    |i: int|
                        if 0 <= i < actions@.len() {
                            actions@[i].model()
                        } else {
                            ActionView::NoOp
                        },
                ),
                name: name@,
            },
        }
    }
}

impl View for TextAction {
    type V = ActionView;

    open spec fn view(&self) -> ActionView {
        self.model()
    }
}

/// The actions `actions` in the abstract, one for one.
pub open spec fn views(actions: Seq<TextAction>) -> Seq<ActionView> {
    Seq::new(actions.len(), |i: int| actions[i]@)
}

/// A run of actions in the abstract is the run of its actions in the abstract.
pub proof fn lemma_composite_view(a: TextAction)
    requires
        a is Composite,
    ensures
        a@ is Composite,
        a@->Composite_actions == views(a->Composite_actions@),
        a@->Composite_name == a->Composite_name@,
{
    assert(a@->Composite_actions =~= views(a->Composite_actions@));
}

impl ActionView {
    /// The action that takes `self` back. What was put in is taken out and what was
    /// taken out is put in, at the same place; a run of actions is taken back last
    /// action first, under its name with "Undo " before it.
    pub open spec fn inverse(self) -> ActionView
        decreases self,
    {
        match self {
            ActionView::NoOp => ActionView::NoOp,
            ActionView::Insert { start, stop, text } => ActionView::Remove { start, stop, text },
            ActionView::Remove { start, stop, text } => ActionView::Insert { start, stop, text },
            ActionView::InsertLines { start, stop, lines } => ActionView::RemoveLines {
                start,
                stop,
                lines,
            },
            ActionView::RemoveLines { start, stop, lines } => ActionView::InsertLines {
                start,
                stop,
                lines,
            },
            ActionView::InsertChar { pos, cha } => ActionView::RemoveChar { pos, cha },
            ActionView::RemoveChar { pos, cha } => ActionView::InsertChar { pos, cha },
            ActionView::Composite { actions, name } => ActionView::Composite {
                actions: Seq::new(
                    actions.len(),
                    |i: int|
                        if 0 <= i < actions.len() {
                            actions[actions.len() - 1 - i].inverse()
                        } else {
                            ActionView::NoOp
                        },
                ),
                name: undo_prefix() + name,
            },
        }
    }
}

/// A position as it is written in the name of an action: row and column in
/// decimal digits, in round brackets, with a comma and a blank between them.
pub open spec fn coord_text(p: Pos) -> Seq<char> {
    seq!['('] + decimal(p.0 as nat) + seq![',', ' '] + decimal(p.1 as nat) + seq![')']
}

impl ActionView {
    /// What the browser of the history calls the action.
    pub open spec fn label(self) -> Seq<char> {
        match self {
            ActionView::NoOp => "Original version"@,
            ActionView::Insert { start, stop, text } => "Insert at "@ + coord_text(start) + ": "@
                + joined(text),
            ActionView::Remove { start, stop, text } => "Remove from "@ + coord_text(start)
                + " to "@ + coord_text(stop),
            ActionView::InsertLines { start, stop, lines } => "Insert at line "@ + decimal(
                start as nat,
            ) + ": "@ + joined(lines),
            ActionView::RemoveLines { start, stop, lines } => if start == stop {
                "Remove line "@ + decimal(start as nat)
            } else {
                "Remove lines "@ + decimal(start as nat) + " to "@ + decimal(stop as nat)
            },
            ActionView::InsertChar { pos, cha } => "Insert "@ + seq![cha] + " at "@ + coord_text(
                pos,
            ),
            ActionView::RemoveChar { pos, cha } => "Remove character at "@ + coord_text(pos),
            ActionView::Composite { actions, name } => name,
        }
    }
}

/// Appends `c` to `out` as it is written in the name of an action.
pub fn push_coord(out: &mut String, c: Coord)
    ensures
        final(out)@ == old(out)@ + coord_text(at(c)),
{
    out.push('(');
    push_decimal(out, c.0);
    out.push(',');
    out.push(' ');
    push_decimal(out, c.1);
    out.push(')');
    assert(out@ =~= old(out)@ + coord_text(at(c)));
}

impl Clone for TextAction {
    #[verifier::loop_isolation(false)]
    fn clone(&self) -> (copy: Self)
        ensures
            copy@ == self@,
        decreases self,
    {
        match self {
            TextAction::NoOp => TextAction::NoOp,
            TextAction::Insert { start, stop, text } => TextAction::Insert {
                start: *start,
                stop: *stop,
                text: copy_lines(text),
            },
            TextAction::Remove { start, stop, text } => TextAction::Remove {
                start: *start,
                stop: *stop,
                text: copy_lines(text),
            },
            TextAction::InsertLines { start, stop, lines } => TextAction::InsertLines {
                start: *start,
                stop: *stop,
                lines: copy_lines(lines),
            },
            TextAction::RemoveLines { start, stop, lines } => TextAction::RemoveLines {
                start: *start,
                stop: *stop,
                lines: copy_lines(lines),
            },
            TextAction::InsertChar { pos, cha } => TextAction::InsertChar { pos: *pos, cha: *cha },
            TextAction::RemoveChar { pos, cha } => TextAction::RemoveChar { pos: *pos, cha: *cha },
            TextAction::Composite { actions, name } => {
                let mut copies: Vec<TextAction> = Vec::new();
                let mut i: usize = 0;
                while i < actions.len()
                    invariant
                        i <= actions@.len(),
                        copies@.len() == i,
                        forall|j: int| 0 <= j < i ==> (#[trigger] copies@[j])@ == actions@[j]@,
                    decreases actions@.len() - i,
                {
                    copies.push(actions[i].clone());
                    i += 1;
                }
                let copy = TextAction::Composite { actions: copies, name: name.clone() };
                proof {
                    lemma_composite_view(*self);
                    lemma_composite_view(copy);
                    assert(views(copies@) =~= views(actions@));
                }
                copy
            },
        }
    }
}

impl TextAction {
    /// What the browser of the history calls the action.
    pub fn to_string(&self) -> (label: String)
        ensures
            label@ == self@.label(),
    {
        match self {
            TextAction::NoOp => String::from_str("Original version"),
            TextAction::Insert { start, stop, text } => {
                let mut label = String::from_str("Insert at ");
                push_coord(&mut label, *start);
                label.append(": ");
                label.append(concat_lines(text).as_str());
                assert(label@ =~= self@.label());
                label
            },
            TextAction::Remove { start, stop, text } => {
                let mut label = String::from_str("Remove from ");
                push_coord(&mut label, *start);
                label.append(" to ");
                push_coord(&mut label, *stop);
                assert(label@ =~= self@.label());
                label
            },
            TextAction::InsertLines { start, stop, lines } => {
                let mut label = String::from_str("Insert at line ");
                push_decimal(&mut label, *start);
                label.append(": ");
                label.append(concat_lines(lines).as_str());
                assert(label@ =~= self@.label());
                label
            },
            TextAction::RemoveLines { start, stop, lines } => {
                if *start == *stop {
                    let mut label = String::from_str("Remove line ");
                    push_decimal(&mut label, *start);
                    assert(label@ =~= self@.label());
                    label
                } else {
                    let mut label = String::from_str("Remove lines ");
                    push_decimal(&mut label, *start);
                    label.append(" to ");
                    push_decimal(&mut label, *stop);
                    assert(label@ =~= self@.label());
                    label
                }
            },
            TextAction::InsertChar { pos, cha } => {
                let mut label = String::from_str("Insert ");
                label.push(*cha);
                label.append(" at ");
                push_coord(&mut label, *pos);
                assert(label@ =~= self@.label());
                label
            },
            TextAction::RemoveChar { pos, cha } => {
                let mut label = String::from_str("Remove character at ");
                push_coord(&mut label, *pos);
                assert(label@ =~= self@.label());
                label
            },
            TextAction::Composite { actions, name } => {
                proof {
                    lemma_composite_view(*self);
                }
                name.clone()
            },
        }
    }

    /// The action that takes `self` back.
    #[verifier::loop_isolation(false)]
    pub fn inverse(&self) -> (back: Self)
        ensures
            back@ == self@.inverse(),
        decreases self,
    {
        match self {
            TextAction::NoOp => TextAction::NoOp,
            TextAction::Insert { start, stop, text } => TextAction::Remove {
                start: *start,
                stop: *stop,
                text: copy_lines(text),
            },
            TextAction::Remove { start, stop, text } => TextAction::Insert {
                start: *start,
                stop: *stop,
                text: copy_lines(text),
            },
            TextAction::InsertLines { start, stop, lines } => TextAction::RemoveLines {
                start: *start,
                stop: *stop,
                lines: copy_lines(lines),
            },
            TextAction::RemoveLines { start, stop, lines } => TextAction::InsertLines {
                start: *start,
                stop: *stop,
                lines: copy_lines(lines),
            },
            TextAction::InsertChar { pos, cha } => TextAction::RemoveChar { pos: *pos, cha: *cha },
            TextAction::RemoveChar { pos, cha } => TextAction::InsertChar { pos: *pos, cha: *cha },
            TextAction::Composite { actions, name } => {
                let n = actions.len();
                let mut backs: Vec<TextAction> = Vec::new();
                let mut i: usize = 0;
                while i < n
                    invariant
                        n == actions@.len(),
                        i <= n,
                        backs@.len() == i,
                        forall|j: int|
                            0 <= j < i ==> (#[trigger] backs@[j])@ == actions@[n - 1 - j]@.inverse(),
                    decreases n - i,
                {
                    backs.push(actions[n - 1 - i].inverse());
                    i += 1;
                }
                let mut back_name = String::from_str("Undo ");
                back_name.append(name.as_str());
                assert(back_name@ =~= undo_prefix() + name@);
                let back = TextAction::Composite { actions: backs, name: back_name };
                proof {
                    lemma_composite_view(*self);
                    lemma_composite_view(back);
                    assert(views(backs@) =~= self@.inverse()->Composite_actions);
                }
                back
            },
        }
    }
}

} // verus!
