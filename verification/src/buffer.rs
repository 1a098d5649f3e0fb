use crate::action::at;
use crate::common::{
    break_free, lemma_line_deep_view, lemma_split_append, marked, push_line, split, split_text,
    Coord, String32,
};
use crate::effect::holdable;
use crate::terminal::Color;
use crate::text::{Pos, Text};
use crate::undo::{now, History, HistoryView, RecordError};
use vstd::prelude::*;
use vstd::string::StringExecFns;

verus! {

/// The modes of the editor.
#[derive(Debug, Clone, Copy, PartialEq, Eq, Structural)]
pub enum Mode {
    Normal,
    Insert,
    Visual,
    VisualLine,
}

impl Mode {
    /// The two colours in which the mode is shown in the status line.
    pub open spec fn colors(self) -> (Color, Color) {
        match self {
            Mode::Normal => (Color::Magenta, Color::Red),
            Mode::Insert => (Color::Blue, Color::Cyan),
            Mode::Visual => (Color::Yellow, Color::White),
            Mode::VisualLine => (Color::Yellow, Color::White),
        }
    }

    /// The two colours in which the mode is shown in the status line.
    pub fn get_colors(&self) -> (colors: (Color, Color))
        ensures
            colors == self.colors(),
    {
        match self {
            Mode::Normal => (Color::Magenta, Color::Red),
            Mode::Insert => (Color::Blue, Color::Cyan),
            Mode::Visual => (Color::Yellow, Color::White),
            Mode::VisualLine => (Color::Yellow, Color::White),
        }
    }

    /// The name of the mode as the status line shows it.
    pub open spec fn name(self) -> Seq<char> {
        match self {
            Mode::Normal => "Normal"@,
            Mode::Insert => "Insert"@,
            Mode::Visual => "Visual"@,
            Mode::VisualLine => "Visual-Line"@,
        }
    }

    /// The name of the mode as the status line shows it.
    pub fn to_string(&self) -> (name: String)
        ensures
            name@ == self.name(),
    {
        match self {
            Mode::Normal => String::from_str("Normal"),
            Mode::Insert => String::from_str("Insert"),
            Mode::Visual => String::from_str("Visual"),
            Mode::VisualLine => String::from_str("Visual-Line"),
        }
    }
}

/// A text that is being edited: its lines, the cursor, what was last copied, and
/// the history of what was done to it.
///
/// `cursor` and `selection_start` are positions in the text, `scroll` is the
/// position that is shown in the top left corner, and `cursor_col_goal` is the
/// column that the cursor returns to where a line is long enough.
pub struct Buffer {
    pub contents: Vec<String32>,
    pub clip: Vec<String32>,
    pub clip_lines: bool,
    pub scroll: Coord,
    pub cursor: Coord,
    pub cursor_col_goal: usize,
    pub selection_start: Coord,
    pub mode: Mode,
    pub history: History,
    pub show_history: bool,
}

/// A `Buffer` in the abstract.
pub struct BufferView {
    pub text: Text,
    pub clip: Text,
    pub clip_lines: bool,
    pub scroll: Pos,
    pub cursor: Pos,
    pub cursor_col_goal: int,
    pub selection_start: Pos,
    pub mode: Mode,
    pub history: HistoryView,
    pub show_history: bool,
}

impl View for Buffer {
    type V = BufferView;

    open spec fn view(&self) -> BufferView {
        BufferView {
            text: self.contents.deep_view(),
            clip: self.clip.deep_view(),
            clip_lines: self.clip_lines,
            scroll: at(self.scroll),
            cursor: at(self.cursor),
            cursor_col_goal: self.cursor_col_goal as int,
            selection_start: at(self.selection_start),
            mode: self.mode,
            history: self.history@,
            show_history: self.show_history,
        }
    }
}

impl BufferView {
    /// The text is one that a buffer can hold, and the history knows where it is.
    pub open spec fn wf(self) -> bool {
        holdable(self.text) && self.history.wf()
    }
}

/// The lines of a file that holds `s`: `s` cut at its line breaks, without what
/// follows the last line break. A file without a line is one empty line.
pub open spec fn loaded(s: Seq<char>) -> Text {
    let lines = split(s).drop_last();
    if lines.len() == 0 {
        seq![Seq::empty()]
    } else {
        lines
    }
}

/// What a file holds that was written from `t`: each line with a line break
/// behind it, the last line too.
pub open spec fn saved(t: Text) -> Seq<char> {
    marked(t, '\n')
}

/// What is written from lines without line breaks is cut into these lines and an
/// empty line behind them.
pub proof fn lemma_split_saved(t: Text)
    requires
        break_free(t),
    ensures
        split(saved(t)) == t.push(Seq::empty()),
    decreases t.len(),
{
    if t.len() == 0 {
        assert(split(saved(t)) =~= t.push(Seq::empty()));
    } else {
        let before = t.drop_last();
        let last = t.last();
        assert(break_free(before)) by {
            assert forall|i: int, j: int|
                0 <= i < before.len() && 0 <= j < before[i].len() implies (
            #[trigger] before[i][j]) != '\n' by {
                assert(t[i][j] != '\n');
            }
        }
        assert forall|j: int| 0 <= j < last.len() implies last[j] != '\n' by {
            assert(t[t.len() - 1][j] != '\n');
        }
        lemma_split_saved(before);
        lemma_split_append(saved(before), last);
        assert(Seq::<char>::empty() + last == last);
        assert(split(saved(before) + last) =~= t);
        assert(saved(t).drop_last() == saved(before) + last);
        assert(split(saved(t)) =~= t.push(Seq::empty()));
    }
}

/// A text that is written to a file and read from it again is the text that it
/// was: every line, and no line more.
pub proof fn lemma_loaded_saved(t: Text)
    requires
        t.len() >= 1,
        break_free(t),
    ensures
        loaded(saved(t)) == t,
{
    lemma_split_saved(t);
    assert(t.push(Seq::empty()).drop_last() == t);
}

/// What a file is to hold that is written from `lines`.
pub fn file_text(lines: &Vec<String32>) -> (text: String)
    ensures
        text@ == saved(lines.deep_view()),
{
    broadcast use lemma_line_deep_view;

    let mut text = String::new();
    let mut i: usize = 0;
    assert(lines.deep_view().take(0) =~= Seq::empty());
    while i < lines.len()
        invariant
            i <= lines@.len(),
            text@ == saved(lines.deep_view().take(i as int)),
        decreases lines@.len() - i,
    {
        push_line(&mut text, &lines[i]);
        text.push('\n');
        assert(lines.deep_view().take(i + 1).drop_last() == lines.deep_view().take(i as int));
        assert(text@ =~= saved(lines.deep_view().take(i + 1)));
        i += 1;
    }
    assert(lines.deep_view().take(lines@.len() as int) == lines.deep_view());
    text
}

impl BufferView {
    /// The buffer after a change of mode to `mode` at `time`, where the change is
    /// not refused.
    ///
    /// No change is made where the mode is `mode` already. Leaving the insert mode
    /// ends the session that is recorded; on the way to the normal mode the cursor
    /// and the column that it heads for step back by one column, as far as there
    /// is one before them. Leaving the visual mode for the normal mode, a cursor
    /// behind the end of its line steps back by one column. Entering a visual mode
    /// from the normal or the insert mode begins the selection at the cursor.
    /// Entering the insert mode begins the recording of a session.
    pub open spec fn mode_set(self, mode: Mode, time: int) -> BufferView {
        if self.mode == mode {
            self
        } else if self.mode == Mode::Insert && mode == Mode::Normal {
            BufferView {
                cursor: (
                    self.cursor.0,
                    if self.cursor.1 > 1 {
                        self.cursor.1 - 1
                    } else {
                        self.cursor.1
                    },
                ),
                cursor_col_goal: if self.cursor_col_goal > 1 {
                    self.cursor_col_goal - 1
                } else {
                    self.cursor_col_goal
                },
                history: self.history.stopped(time),
                mode,
                ..self
            }
        } else if self.mode == Mode::Visual && mode == Mode::Normal {
            BufferView {
                cursor: (
                    self.cursor.0,
                    if self.cursor.1 > self.text[self.cursor.0 - 1].len() && self.cursor.1 > 1 {
                        self.cursor.1 - 1
                    } else {
                        self.cursor.1
                    },
                ),
                mode,
                ..self
            }
        } else if self.mode == Mode::Insert && (mode == Mode::Visual || mode == Mode::VisualLine) {
            BufferView {
                history: self.history.stopped(time),
                selection_start: self.cursor,
                mode,
                ..self
            }
        } else if self.mode == Mode::Normal && (mode == Mode::Visual || mode == Mode::VisualLine) {
            BufferView { selection_start: self.cursor, mode, ..self }
        } else if mode == Mode::Insert {
            BufferView { history: self.history.started(), mode, ..self }
        } else {
            BufferView { mode, ..self }
        }
    }

    /// Why a change of mode to `mode` is refused, if it is: the insert mode cannot
    /// be left while no session is recorded, nor entered while one is.
    pub open spec fn mode_refused(self, mode: Mode) -> Option<RecordError> {
        if self.mode == mode {
            None
        } else if self.mode == Mode::Insert {
            if self.history.recording is None {
                Some(RecordError::NotRecording)
            } else {
                None
            }
        } else if mode == Mode::Insert && self.history.recording is Some {
            Some(RecordError::AlreadyRecording)
        } else {
            None
        }
    }

    /// The cursor stands in a line of the text.
    pub open spec fn cursor_on_line(self) -> bool {
        1 <= self.cursor.0 <= self.text.len()
    }
}

impl Buffer {
    /// Whether the text is one that a buffer can hold and the history knows where
    /// it is.
    pub fn is_wf(&self) -> (ok: bool)
        ensures
            ok == self@.wf(),
    {
        broadcast use lemma_line_deep_view;

        if self.contents.len() < 1 || self.contents.len() >= usize::MAX {
            return false;
        }
        let mut i: usize = 0;
        while i < self.contents.len()
            invariant
                i <= self.contents@.len(),
                forall|j: int| 0 <= j < i ==> (#[trigger] self@.text[j]).len() < usize::MAX,
            decreases self.contents@.len() - i,
        {
            if self.contents[i].len() >= usize::MAX {
                assert(self@.text[i as int].len() >= usize::MAX);
                return false;
            }
            i += 1;
        }
        self.history.is_wf()
    }

    /// Whether `pos` addresses a character of the text, or the slot just behind
    /// the last character of one of its lines.
    pub fn holds(&self, pos: Coord) -> (ok: bool)
        ensures
            ok == crate::text::in_text(self@.text, at(pos)),
    {
        broadcast use lemma_line_deep_view;

        if pos.0 < 1 || pos.0 > self.contents.len() || pos.1 < 1 {
            return false;
        }
        pos.1 - 1 <= self.contents[pos.0 - 1].len()
    }

    /// The buffer for a file that holds `text`, with `history` as what was done to
    /// it: in normal mode, the cursor at the beginning, nothing selected or
    /// copied.
    pub fn from_text(text: &str, history: History) -> (buf: Self)
        ensures
            buf@ == (BufferView {
                text: loaded(text@),
                clip: seq![Seq::empty()],
                clip_lines: false,
                scroll: (1, 1),
                cursor: (1, 1),
                cursor_col_goal: 1,
                selection_start: (1, 1),
                mode: Mode::Normal,
                history: history@,
                show_history: false,
            }),
    {
        broadcast use lemma_line_deep_view;

        let mut lines = split_text(text);
        let ghost all = lines.deep_view();
        lines.pop();
        assert(lines.deep_view() =~~= all.drop_last());
        if lines.len() == 0 {
            lines.push(Vec::new());
            assert(lines.deep_view() =~~= seq![Seq::<char>::empty()]);
        }
        let mut clip: Vec<String32> = Vec::new();
        clip.push(Vec::new());
        assert(clip.deep_view() =~~= seq![Seq::<char>::empty()]);
        Buffer {
            contents: lines,
            clip,
            clip_lines: false,
            scroll: (1, 1),
            cursor: (1, 1),
            selection_start: (1, 1),
            cursor_col_goal: 1,
            mode: Mode::Normal,
            history,
            show_history: false,
        }
    }

    /// Changes the mode to `mode`, as of `time`. A change that would end a session
    /// while none is recorded, or begin one while one is recorded, is refused, and
    /// the buffer is left as it is.
    pub fn set_mode_at(&mut self, mode: Mode, time: i128) -> (set: Result<(), RecordError>)
        requires
            old(self)@.wf(),
            old(self)@.mode == Mode::Visual && mode == Mode::Normal ==> old(self)@.cursor_on_line(),
        ensures
            match old(self)@.mode_refused(mode) {
                Some(error) => set == Err::<(), RecordError>(error) && final(self)@ == old(self)@,
                None => set is Ok && final(self)@ == old(self)@.mode_set(mode, time as int),
            },
            final(self)@.wf(),
            old(self)@.cursor_on_line() ==> final(self)@.cursor_on_line(),
    {
        broadcast use lemma_line_deep_view;

        let from = self.mode;
        if from == mode {
            return Ok(());
        }
        if from == Mode::Insert {
            if !self.history.is_recording() {
                return Err(RecordError::NotRecording);
            }
            if mode == Mode::Normal {
                if self.cursor.1 > 1 {
                    self.cursor.1 -= 1;
                }
                if self.cursor_col_goal > 1 {
                    self.cursor_col_goal -= 1;
                }
            } else {
                self.selection_start = self.cursor;
            }
            let _ = self.history.stop_record_at(time);
        } else if mode == Mode::Insert {
            if self.history.is_recording() {
                return Err(RecordError::AlreadyRecording);
            }
            let _ = self.history.start_record();
        } else if from == Mode::Visual && mode == Mode::Normal {
            if self.cursor.1 > self.contents[self.cursor.0 - 1].len() && self.cursor.1 > 1 {
                self.cursor.1 -= 1;
            }
        } else if from == Mode::Normal {
            self.selection_start = self.cursor;
        }
        self.mode = mode;
        Ok(())
    }

    /// Changes the mode to `mode`, as of now. A change that would end a session
    /// while none is recorded, or begin one while one is recorded, is refused, and
    /// the buffer is left as it is.
    pub fn set_mode(&mut self, mode: Mode) -> (set: Result<(), RecordError>)
        requires
            old(self)@.wf(),
            old(self)@.mode == Mode::Visual && mode == Mode::Normal ==> old(self)@.cursor_on_line(),
        ensures
            match old(self)@.mode_refused(mode) {
                Some(error) => set == Err::<(), RecordError>(error) && final(self)@ == old(self)@,
                None => set is Ok && exists|time: int|
                    final(self)@ == #[trigger] old(self)@.mode_set(mode, time),
            },
            final(self)@.wf(),
            old(self)@.cursor_on_line() ==> final(self)@.cursor_on_line(),
    {
        let time = now();
        let set = self.set_mode_at(mode, time);
        if set.is_ok() {
            assert(self@ == old(self)@.mode_set(mode, time as int));
        }
        set
    }
}

} // verus!
