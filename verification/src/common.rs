use vstd::prelude::*;

verus! {

/// A line of text, one `char` per column.
pub type String32 = Vec<char>;

/// A position in a text: `(row, column)`, both counted from 1.
pub type Coord = (usize, usize);

/// `String::push` of the standard library: the string afterwards is the string
/// before with `ch` as one more character at its end.
pub assume_specification[ String::push ](s: &mut String, ch: char)
    ensures
        final(s)@ == old(s)@.push(ch),
;

/// A line of characters read as the sequence of its characters: the deep view of
/// a line is its view.
pub broadcast proof fn lemma_line_deep_view(line: Vec<char>)
    ensures
        #[trigger] line.deep_view() == line@,
{
    assert(line.deep_view() =~= line@);
}

/// The lines `lines`, with a line break between each two neighbours.
pub open spec fn joined(lines: Seq<Seq<char>>) -> Seq<char>
    decreases lines.len(),
{
    if lines.len() == 0 {
        Seq::empty()
    } else if lines.len() == 1 {
        lines[0]
    } else {
        joined(lines.drop_last()) + seq!['\n'] + lines.last()
    }
}

/// No line of `lines` holds a line break.
pub open spec fn break_free(lines: Seq<Seq<char>>) -> bool {
    forall|i: int, j: int|
        0 <= i < lines.len() && 0 <= j < lines[i].len() ==> (#[trigger] lines[i][j]) != '\n'
}

/// `s` cut into lines at its line breaks. A text without a line break is one line,
/// and a text that ends with a line break has an empty last line.
pub open spec fn split(s: Seq<char>) -> Seq<Seq<char>>
    decreases s.len(),
{
    if s.len() == 0 {
        seq![Seq::empty()]
    } else {
        let before = split(s.drop_last());
        if s.last() == '\n' {
            before.push(Seq::empty())
        } else {
            before.update(before.len() - 1, before.last().push(s.last()))
        }
    }
}

/// The lines that a text is cut into hold no line break, and joined by line
/// breaks they are the text.
pub proof fn lemma_split(s: Seq<char>)
    ensures
        split(s).len() >= 1,
        break_free(split(s)),
        joined(split(s)) == s,
    decreases s.len(),
{
    if s.len() > 0 {
        lemma_split(s.drop_last());
        lemma_joined_grow(split(s.drop_last()), s.last());
        assert(s.drop_last().push(s.last()) == s);
    }
}

/// A text with a line without line breaks behind it is cut into the lines of the
/// text, the last of them longer by that line.
pub proof fn lemma_split_append(s: Seq<char>, line: Seq<char>)
    requires
        forall|j: int| 0 <= j < line.len() ==> line[j] != '\n',
    ensures
        split(s).len() >= 1,
        split(s + line) == split(s).update(split(s).len() - 1, split(s).last() + line),
    decreases line.len(),
{
    lemma_split(s);
    if line.len() == 0 {
        assert(s + line == s);
        assert(split(s).last() + line == split(s).last());
        assert(split(s).update(split(s).len() - 1, split(s).last()) == split(s));
    } else {
        let shorter = line.drop_last();
        lemma_split_append(s, shorter);
        assert((s + line).drop_last() == s + shorter);
        assert((s + line).last() == line.last());
        assert(line[line.len() - 1] != '\n');
        let before = split(s + shorter);
        assert(before.last() == split(s).last() + shorter);
        assert((split(s).last() + shorter).push(line.last()) == split(s).last() + line);
        assert(split(s + line) == before.update(
            before.len() - 1,
            before.last().push(line.last()),
        ));
        assert(split(s + line) =~= split(s).update(split(s).len() - 1, split(s).last() + line));
    }
}

/// Lines without line breaks that are joined by line breaks and cut at the line
/// breaks again are the lines that they were.
pub proof fn lemma_split_joined(lines: Seq<Seq<char>>)
    requires
        lines.len() >= 1,
        break_free(lines),
    ensures
        split(joined(lines)) == lines,
    decreases lines.len(),
{
    let last = lines.last();
    assert forall|j: int| 0 <= j < last.len() implies last[j] != '\n' by {
        assert(lines[lines.len() - 1][j] != '\n');
    }
    if lines.len() == 1 {
        lemma_split_append(Seq::empty(), last);
        assert(Seq::<char>::empty() + last == last);
        assert(split(joined(lines)) =~= lines);
    } else {
        let before = lines.drop_last();
        assert(break_free(before)) by {
            assert forall|i: int, j: int|
                0 <= i < before.len() && 0 <= j < before[i].len() implies (
            #[trigger] before[i][j]) != '\n' by {
                assert(lines[i][j] != '\n');
            }
        }
        lemma_split_joined(before);
        let broken = joined(before) + seq!['\n'];
        assert(broken.drop_last() == joined(before));
        assert(split(broken) == before.push(Seq::empty()));
        lemma_split_append(broken, last);
        assert(Seq::<char>::empty() + last == last);
        assert(split(joined(lines)) =~= lines);
    }
}

proof fn lemma_joined_grow(lines: Seq<Seq<char>>, c: char)
    requires
        lines.len() >= 1,
    ensures
        c != '\n' ==> joined(lines.update(lines.len() - 1, lines.last().push(c))) == joined(
            lines,
        ).push(c),
        joined(lines.push(Seq::empty())) == joined(lines).push('\n'),
{
    let grown = lines.update(lines.len() - 1, lines.last().push(c));
    if lines.len() > 1 {
        assert(grown.drop_last() == lines.drop_last());
        assert(joined(grown) == joined(lines.drop_last()) + seq!['\n'] + lines.last().push(c));
        assert(joined(lines) == joined(lines.drop_last()) + seq!['\n'] + lines.last());
    }
    assert(joined(grown) == joined(lines).push(c));
    let more = lines.push(Seq::empty());
    assert(more.drop_last() == lines);
    assert(joined(more) == joined(lines) + seq!['\n'] + Seq::<char>::empty());
}

/// `s` cut into lines at its line breaks.
pub fn split_text(s: &str) -> (lines: Vec<String32>)
    ensures
        lines.deep_view() == split(s@),
        lines@.len() >= 1,
        break_free(lines.deep_view()),
        joined(lines.deep_view()) == s@,
{
    let mut lines: Vec<String32> = Vec::new();
    let mut cur: String32 = Vec::new();
    assert(s@.take(0) =~= Seq::empty());
    for c in it: s.chars()
        invariant
            it.seq() == s@,
            lines.deep_view().push(cur@) == split(s@.take(it.index())),
    {
        let ghost before = lines.deep_view().push(cur@);
        proof {
            assert(s@.take(it.index() + 1).drop_last() == s@.take(it.index()));
        }
        if c == '\n' {
            lines.push(cur);
            cur = Vec::new();
            assert(lines.deep_view() =~~= before);
            assert(lines.deep_view().push(cur@) =~~= before.push(Seq::empty()));
        } else {
            cur.push(c);
            assert(lines.deep_view().push(cur@) =~~= before.update(
                before.len() - 1,
                before.last().push(c),
            ));
        }
    }
    proof {
        assert(s@.take(s@.len() as int) == s@);
        lemma_split(s@);
    }
    let ghost all = lines.deep_view().push(cur@);
    lines.push(cur);
    assert(lines.deep_view() =~~= all);
    lines
}

/// `s` without its last character, cut into lines at its line breaks.
pub fn split_without_last(s: &str) -> (lines: Vec<String32>)
    requires
        s@.len() > 0,
    ensures
        lines.deep_view() == split(s@.drop_last()),
{
    broadcast use lemma_line_deep_view;

    let mut lines = split_text(s);
    let ghost all = lines.deep_view();
    proof {
        lemma_split(s@.drop_last());
    }
    let last = lines.len() - 1;
    if lines[last].len() == 0 {
        lines.pop();
        assert(lines.deep_view() =~~= all.drop_last());
        assert(lines.deep_view() =~~= split(s@.drop_last()));
    } else {
        lines[last].pop();
        assert(lines.deep_view() =~~= all.update(last as int, all[last as int].drop_last()));
        assert(lines.deep_view() =~~= split(s@.drop_last()));
    }
    lines
}

/// A copy of the columns `from` to `to` of `line`, counted from 0, `to` left out.
pub fn line_part(line: &Vec<char>, from: usize, to: usize) -> (part: Vec<char>)
    requires
        from <= to <= line@.len(),
    ensures
        part@ == line@.subrange(from as int, to as int),
{
    let mut part: Vec<char> = Vec::new();
    let mut i: usize = from;
    while i < to
        invariant
            from <= i <= to <= line@.len(),
            part@ == line@.subrange(from as int, i as int),
        decreases to - i,
    {
        part.push(line[i]);
        i += 1;
    }
    part
}

/// A copy of `line`.
pub fn copy_line(line: &Vec<char>) -> (copy: Vec<char>)
    ensures
        copy@ == line@,
{
    let copy = line_part(line, 0, line.len());
    assert(line@.subrange(0, line@.len() as int) == line@);
    copy
}

/// A copy of the lines `from` to `to` of `lines`, counted from 0, `to` left out.
pub fn lines_part(lines: &Vec<String32>, from: usize, to: usize) -> (part: Vec<String32>)
    requires
        from <= to <= lines@.len(),
    ensures
        part.deep_view() == lines.deep_view().subrange(from as int, to as int),
{
    broadcast use lemma_line_deep_view;

    let mut part: Vec<String32> = Vec::new();
    let mut i: usize = from;
    while i < to
        invariant
            from <= i <= to <= lines@.len(),
            part.deep_view() == lines.deep_view().subrange(from as int, i as int),
        decreases to - i,
    {
        let ghost before = part.deep_view();
        part.push(copy_line(&lines[i]));
        assert(part.deep_view() =~~= before.push(lines@[i as int]@));
        i += 1;
    }
    part
}

/// A copy of `lines`.
pub fn copy_lines(lines: &Vec<String32>) -> (copy: Vec<String32>)
    ensures
        copy.deep_view() == lines.deep_view(),
{
    let copy = lines_part(lines, 0, lines.len());
    assert(lines.deep_view().subrange(0, lines@.len() as int) == lines.deep_view());
    copy
}

/// A rectangle of rows and columns of the screen, its edges counted in.
#[derive(Debug, PartialEq, Eq, Structural)]
pub struct Rect {
    pub top: usize,
    pub left: usize,
    pub bottom: usize,
    pub right: usize,
}

impl Rect {
    /// The rectangle has a row and a column, and their counts fit a `usize`.
    #[verifier::when_used_as_spec(spec_wf)]
    pub fn wf(&self) -> (ok: bool)
        ensures
            ok == self.spec_wf(),
    {
        self.top <= self.bottom && self.left <= self.right && self.bottom - self.top < usize::MAX
            && self.right - self.left < usize::MAX
    }

    /// The rectangle has a row and a column, and their counts fit a `usize`.
    pub open spec fn spec_wf(&self) -> bool {
        &&& self.top <= self.bottom
        &&& self.left <= self.right
        &&& self.bottom - self.top < usize::MAX
        &&& self.right - self.left < usize::MAX
    }

    /// The height and the width.
    pub fn size(&self) -> (size: (usize, usize))
        requires
            self.wf(),
        ensures
            size.0 == self.bottom - self.top + 1,
            size.1 == self.right - self.left + 1,
    {
        (self.height(), self.width())
    }

    /// How many rows the rectangle has.
    pub fn height(&self) -> (height: usize)
        requires
            self.wf(),
        ensures
            height == self.bottom - self.top + 1,
    {
        self.bottom - self.top + 1
    }

    /// How many columns the rectangle has.
    pub fn width(&self) -> (width: usize)
        requires
            self.wf(),
        ensures
            width == self.right - self.left + 1,
    {
        self.right - self.left + 1
    }

    /// Whether `pos` lies in the rectangle.
    pub fn contains(&self, pos: Coord) -> (inside: bool)
        ensures
            inside == (self.top <= pos.0 <= self.bottom && self.left <= pos.1 <= self.right),
    {
        self.top <= pos.0 && pos.0 <= self.bottom && self.left <= pos.1 && pos.1 <= self.right
    }

    /// `pos` as counted from the top left corner of the rectangle, which is
    /// `(0, 0)`.
    pub fn to_relative(&self, pos: Coord) -> (rel: Coord)
        requires
            self.top <= pos.0,
            self.left <= pos.1,
        ensures
            rel.0 == pos.0 - self.top,
            rel.1 == pos.1 - self.left,
    {
        (pos.0 - self.top, pos.1 - self.left)
    }

    /// The place on the screen of what lies at `pos` as counted from the top left
    /// corner of the rectangle.
    pub fn from_relative(&self, pos: Coord) -> (abs: Coord)
        requires
            pos.0 + self.top <= usize::MAX,
            pos.1 + self.left <= usize::MAX,
        ensures
            abs.0 == pos.0 + self.top,
            abs.1 == pos.1 + self.left,
    {
        (pos.0 + self.top, pos.1 + self.left)
    }
}

/// The decimal digit for `d`, which is less than ten.
pub open spec fn digit(d: nat) -> char {
    if d == 0 {
        '0'
    } else if d == 1 {
        '1'
    } else if d == 2 {
        '2'
    } else if d == 3 {
        '3'
    } else if d == 4 {
        '4'
    } else if d == 5 {
        '5'
    } else if d == 6 {
        '6'
    } else if d == 7 {
        '7'
    } else if d == 8 {
        '8'
    } else {
        '9'
    }
}

/// `n` written in decimal digits, without leading zeros.
pub open spec fn decimal(n: nat) -> Seq<char>
    decreases n,
{
    if n < 10 {
        seq![digit(n)]
    } else {
        decimal(n / 10).push(digit(n % 10))
    }
}

/// The decimal digit for `d`.
pub fn digit_char(d: usize) -> (c: char)
    requires
        d < 10,
    ensures
        c == digit(d as nat),
{
    if d == 0 {
        '0'
    } else if d == 1 {
        '1'
    } else if d == 2 {
        '2'
    } else if d == 3 {
        '3'
    } else if d == 4 {
        '4'
    } else if d == 5 {
        '5'
    } else if d == 6 {
        '6'
    } else if d == 7 {
        '7'
    } else if d == 8 {
        '8'
    } else {
        '9'
    }
}

/// Appends `n`, written in decimal digits, to `out`.
pub fn push_decimal(out: &mut String, n: usize)
    ensures
        final(out)@ == old(out)@ + decimal(n as nat),
    decreases n,
{
    if n < 10 {
        out.push(digit_char(n));
        assert(out@ =~= old(out)@ + decimal(n as nat));
    } else {
        push_decimal(out, n / 10);
        out.push(digit_char(n % 10));
        assert(out@ =~= old(out)@ + decimal(n as nat));
    }
}

/// Appends a copy of the characters of `more` to `line`.
pub fn append_line(line: &mut Vec<char>, more: &Vec<char>)
    ensures
        final(line)@ == old(line)@ + more@,
{
    let mut i: usize = 0;
    while i < more.len()
        invariant
            i <= more@.len(),
            line@ == old(line)@ + more@.take(i as int),
        decreases more@.len() - i,
    {
        line.push(more[i]);
        i += 1;
    }
    assert(more@.take(more@.len() as int) == more@);
}

/// Appends the characters of `line` to `out`.
pub fn push_line(out: &mut String, line: &Vec<char>)
    ensures
        final(out)@ == old(out)@ + line@,
{
    let mut i: usize = 0;
    while i < line.len()
        invariant
            i <= line@.len(),
            out@ == old(out)@ + line@.take(i as int),
        decreases line@.len() - i,
    {
        out.push(line[i]);
        i += 1;
    }
    assert(line@.take(line@.len() as int) == line@);
}

/// The lines `lines` as one text, with a line break between each two neighbours.
pub fn concat_lines(lines: &Vec<String32>) -> (text: String)
    ensures
        text@ == joined(lines.deep_view()),
{
    broadcast use lemma_line_deep_view;

    let mut text = String::new();
    let mut i: usize = 0;
    while i < lines.len()
        invariant
            i <= lines@.len(),
            text@ == joined(lines.deep_view().take(i as int)),
        decreases lines@.len() - i,
    {
        if i > 0 {
            text.push('\n');
        }
        push_line(&mut text, &lines[i]);
        proof {
            let upto = lines.deep_view().take(i + 1);
            assert(upto.drop_last() == lines.deep_view().take(i as int));
            assert(upto.last() == lines@[i as int]@);
        }
        i += 1;
    }
    assert(lines.deep_view().take(lines@.len() as int) == lines.deep_view());
    text
}

/// How many bytes `c` takes in UTF-8.
pub open spec fn utf8_len(c: char) -> nat {
    if (c as u32) < 0x80 {
        1
    } else if (c as u32) < 0x800 {
        2
    } else if (c as u32) < 0x10000 {
        3
    } else {
        4
    }
}

/// How many bytes `s` takes in UTF-8.
pub open spec fn text_bytes(s: Seq<char>) -> nat
    decreases s.len(),
{
    if s.len() == 0 {
        0
    } else {
        text_bytes(s.drop_last()) + utf8_len(s.last())
    }
}

/// The lines `lines` one after the other, each with `mark` behind it.
pub open spec fn marked(lines: Seq<Seq<char>>, mark: char) -> Seq<char>
    decreases lines.len(),
{
    if lines.len() == 0 {
        Seq::empty()
    } else {
        marked(lines.drop_last(), mark) + lines.last() + seq![mark]
    }
}

/// The lines `lines` one after the other, each with a `|` behind it.
pub open spec fn barred(lines: Seq<Seq<char>>) -> Seq<char> {
    marked(lines, '|')
}

/// The first `k` of `lines`, each with a `|` behind it, take more than `length`
/// bytes.
pub open spec fn outgrows(lines: Seq<Seq<char>>, k: int, length: int) -> bool {
    text_bytes(barred(lines.take(k))) > length
}

/// How many of `lines` a preview of `length` bytes takes in, from line `from` on
/// of which it is known that the lines before it do not outgrow the preview: the
/// lines up to the first with which they outgrow it, or all.
pub open spec fn taken_in(lines: Seq<Seq<char>>, length: int, from: int) -> int
    decreases lines.len() - from,
{
    if from >= lines.len() {
        lines.len() as int
    } else if outgrows(lines, from + 1, length) {
        from + 1
    } else {
        taken_in(lines, length, from + 1)
    }
}

/// `s` can be cut behind `j` characters that take `n` bytes.
pub open spec fn cut_at(s: Seq<char>, j: int, n: int) -> bool {
    0 <= j <= s.len() && text_bytes(s.take(j)) == n
}

/// The preview of `lines` in `length` bytes: the lines with a `|` between them
/// where that fits; else the lines up to the first with which they no longer fit,
/// each with a `|` behind it, cut after `length - 3` bytes, and three dots.
pub open spec fn preview(lines: Seq<Seq<char>>, length: int) -> Seq<char> {
    let k = taken_in(lines, length, 0);
    let whole = barred(lines.take(k));
    let room = length - 3;
    if outgrows(lines, k, length) {
        whole.take(choose|j: int| #[trigger] cut_at(whole, j, room)) + seq!['.', '.', '.']
    } else if whole.len() > 0 {
        whole.drop_last()
    } else {
        whole
    }
}

/// A preview of `lines` in `length` bytes can be made: where the lines do not
/// fit, `length` is at least 3, and `length - 3` bytes end with a character.
pub open spec fn previewable(lines: Seq<Seq<char>>, length: int) -> bool {
    let k = taken_in(lines, length, 0);
    let whole = barred(lines.take(k));
    let room = length - 3;
    outgrows(lines, k, length) ==> length >= 3 && exists|j: int| #[trigger] cut_at(whole, j, room)
}

/// How many bytes `c` takes in UTF-8.
pub fn char_bytes(c: char) -> (n: usize)
    ensures
        n == utf8_len(c),
{
    let v = c as u32;
    if v < 0x80 {
        1
    } else if v < 0x800 {
        2
    } else if v < 0x10000 {
        3
    } else {
        4
    }
}

/// A longer beginning of a text takes more bytes.
pub proof fn lemma_text_bytes_grow(s: Seq<char>, a: int, b: int)
    requires
        0 <= a < b <= s.len(),
    ensures
        text_bytes(s.take(a)) < text_bytes(s.take(b)),
    decreases b - a,
{
    assert(s.take(b).drop_last() == s.take(b - 1));
    if a < b - 1 {
        lemma_text_bytes_grow(s, a, b - 1);
    }
}

/// The bytes of two texts, one behind the other.
pub proof fn lemma_text_bytes_concat(a: Seq<char>, b: Seq<char>)
    ensures
        text_bytes(a + b) == text_bytes(a) + text_bytes(b),
    decreases b.len(),
{
    if b.len() == 0 {
        assert(a + b == a);
    } else {
        assert((a + b).drop_last() == a + b.drop_last());
        lemma_text_bytes_concat(a, b.drop_last());
    }
}

/// The preview of `lines` in `length` bytes, where one can be made.
pub fn try_preview_lines(lines: &Vec<String32>, length: usize) -> (made: Option<String>)
    ensures
        match made {
            Some(text) => previewable(lines.deep_view(), length as int) && text@ == preview(
                lines.deep_view(),
                length as int,
            ),
            None => !previewable(lines.deep_view(), length as int),
        },
{
    broadcast use lemma_line_deep_view;

    let ghost all = lines.deep_view();
    let mut shown: Vec<char> = Vec::new();
    let mut bytes: usize = 0;
    let mut full = false;
    let mut i: usize = 0;
    assert(all.take(0) =~= Seq::empty());
    while i < lines.len() && !full
        invariant
            i <= lines@.len(),
            all == lines.deep_view(),
            bytes == text_bytes(shown@),
            bytes <= length,
            !full ==> shown@ == barred(all.take(i as int)),
            !full ==> taken_in(all, length as int, 0) == taken_in(all, length as int, i as int),
            full ==> i < lines@.len() && taken_in(all, length as int, 0) == i + 1 && outgrows(
                all,
                i + 1,
                length as int,
            ),
            full ==> shown@.len() < barred(all.take(i + 1)).len() && barred(all.take(i + 1)).take(
                shown@.len() as int,
            ) == shown@,
            full ==> text_bytes(barred(all.take(i + 1)).take(shown@.len() as int + 1)) > length,
        decreases lines@.len() - i + if full { 0int } else { 1int },
    {
        let line = &lines[i];
        let ghost before = shown@;
        let ghost piece = line@.push('|');
        let ghost whole = barred(all.take(i + 1));
        proof {
            assert(all.take(i + 1).drop_last() == all.take(i as int));
            assert(whole =~= before + piece);
            assert(piece.take(0) =~= Seq::empty());
        }
        let mut k: usize = 0;
        while k <= line.len() && !full
            invariant
                k <= line@.len() + 1,
                piece == line@.push('|'),
                whole == before + piece,
                bytes == text_bytes(shown@),
                bytes <= length,
                shown@ == before + piece.take(k as int),
                full ==> k <= line@.len() && text_bytes(shown@.push(piece[k as int])) > length,
            decreases line@.len() + 1 - k + if full { 0int } else { 1int },
        {
            let c = if k < line.len() {
                line[k]
            } else {
                '|'
            };
            assert(c == piece[k as int]);
            let width = char_bytes(c);
            proof {
                assert(shown@.push(c).drop_last() == shown@);
            }
            if width > length - bytes {
                full = true;
            } else {
                shown.push(c);
                bytes += width;
                assert(piece.take(k + 1) =~= piece.take(k as int).push(c));
                let held = shown.len();
                assert(k < held);
                k += 1;
            }
        }
        proof {
            if full {
                let got = shown@.push(piece[k as int]);
                assert(whole.take(got.len() as int) =~= got);
                assert(whole =~= got + whole.skip(got.len() as int));
                lemma_text_bytes_concat(got, whole.skip(got.len() as int));
                assert(whole.take(shown@.len() as int) =~= shown@);
            } else {
                assert(piece.take(piece.len() as int) == piece);
            }
        }
        if !full {
            i += 1;
        }
    }
    let ghost taken = taken_in(all, length as int, 0);
    let ghost whole = barred(all.take(taken));
    let mut text = String::new();
    if full {
        if length < 3 {
            return None;
        }
        let target = length - 3;
        let ghost room = length - 3;
        proof {
            assert(whole.take(shown@.len() as int + 1).drop_last() == whole.take(
                shown@.len() as int,
            ));
            assert(whole.take(shown@.len() as int) == shown@);
        }
        let mut acc: usize = 0;
        let mut j: usize = 0;
        assert(shown@.take(0) =~= Seq::empty());
        while acc < target
            invariant
                j <= shown@.len(),
                acc == text_bytes(shown@.take(j as int)),
                acc <= target,
                target <= text_bytes(shown@),
                target <= length,
                text@ == shown@.take(j as int),
                whole.take(shown@.len() as int) == shown@,
                shown@.len() < whole.len(),
                room == target,
                room == length - 3,
                all == lines.deep_view(),
                taken == taken_in(all, length as int, 0),
                whole == barred(all.take(taken)),
                outgrows(all, taken, length as int),
            decreases shown@.len() - j,
        {
            proof {
                if j == shown@.len() {
                    assert(shown@.take(j as int) == shown@);
                }
                assert(shown@.take(j + 1).drop_last() == shown@.take(j as int));
                if j + 1 < shown@.len() {
                    lemma_text_bytes_grow(shown@, j + 1, shown@.len() as int);
                } else {
                    assert(shown@.take(j + 1) == shown@);
                }
            }
            let width = char_bytes(shown[j]);
            if width > target - acc {
                proof {
                    assert forall|k: int| !(#[trigger] cut_at(whole, k, room)) by {
                        if 0 <= k <= whole.len() {
                            if k <= j {
                                assert(whole.take(k) =~= shown@.take(k));
                                if k < j {
                                    lemma_text_bytes_grow(shown@, k, j as int);
                                }
                            } else {
                                assert(whole.take(j + 1) =~= shown@.take(j + 1));
                                if j + 1 < k {
                                    lemma_text_bytes_grow(whole, j + 1, k);
                                }
                            }
                        }
                    }
                    assert(outgrows(all, taken, length as int));
                    assert(whole == barred(all.take(taken)));
                    assert(!previewable(all, length as int));
                }
                return None;
            }
            acc += width;
            text.push(shown[j]);
            assert(shown@.take(j + 1) =~= shown@.take(j as int).push(shown@[j as int]));
            let held = shown.len();
            assert(j < held);
            j += 1;
        }
        proof {
            assert(whole.take(j as int) =~= shown@.take(j as int));
            assert(cut_at(whole, j as int, room));
            let point = choose|k: int| #[trigger] cut_at(whole, k, room);
            if point < j {
                lemma_text_bytes_grow(whole, point, j as int);
            }
            if j < point {
                lemma_text_bytes_grow(whole, j as int, point);
            }
        }
        text.push('.');
        text.push('.');
        text.push('.');
        assert(text@ =~= whole.take(j as int) + seq!['.', '.', '.']);
    } else {
        proof {
            assert(all.take(all.len() as int) == all);
            assert(taken == all.len());
        }
        let n = if shown.len() > 0 {
            shown.len() - 1
        } else {
            0
        };
        let mut j: usize = 0;
        while j < n
            invariant
                j <= n <= shown@.len(),
                text@ == shown@.take(j as int),
            decreases n - j,
        {
            text.push(shown[j]);
            assert(shown@.take(j + 1) =~= shown@.take(j as int).push(shown@[j as int]));
            j += 1;
        }
        assert(text@ =~= preview(all, length as int));
    }
    Some(text)
}

/// The preview of `lines` in `length` bytes.
pub fn preview_lines(lines: &Vec<String32>, length: usize) -> (text: String)
    requires
        previewable(lines.deep_view(), length as int),
    ensures
        text@ == preview(lines.deep_view(), length as int),
{
    match try_preview_lines(lines, length) {
        Some(text) => text,
        None => String::new(),
    }
}

} // verus!
