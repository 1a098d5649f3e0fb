use vstd::prelude::*;

verus! {

/// A text in the abstract: its lines in order, each the sequence of its characters.
pub type Text = Seq<Seq<char>>;

/// A position in a text in the abstract: `(row, column)`, both counted from 1.
pub type Pos = (int, int);

/// `p` addresses a character of `t`, or the slot just behind the last character of
/// one of its lines.
pub open spec fn in_text(t: Text, p: Pos) -> bool {
    &&& 1 <= p.0 <= t.len()
    &&& 1 <= p.1 <= t[p.0 - 1].len() + 1
}

/// `a` comes no later than `b` in reading order.
pub open spec fn at_or_before(a: Pos, b: Pos) -> bool {
    a.0 < b.0 || (a.0 == b.0 && a.1 <= b.1)
}

/// `p` addresses a character of `t`, or the end of a line that has a line below it:
/// there is something at `p` to remove.
pub open spec fn removable(t: Text, p: Pos) -> bool {
    &&& in_text(t, p)
    &&& (p.1 <= t[p.0 - 1].len() || p.0 < t.len())
}

/// What stands at `p`: the character there, or the line break where `p` is the slot
/// behind the last character of its line.
pub open spec fn char_at(t: Text, p: Pos) -> char {
    if p.1 <= t[p.0 - 1].len() {
        t[p.0 - 1][p.1 - 1]
    } else {
        '\n'
    }
}

/// `t` with `c` put in at `p`. A line break splits the line at `p` in two.
pub open spec fn char_inserted(t: Text, p: Pos, c: char) -> Text {
    let line = t[p.0 - 1];
    if c == '\n' {
        t.take(p.0 - 1) + seq![line.take(p.1 - 1), line.skip(p.1 - 1)] + t.skip(p.0)
    } else {
        t.update(p.0 - 1, line.insert(p.1 - 1, c))
    }
}

/// The position just behind a `c` that was put in at `p`.
pub open spec fn behind_char(p: Pos, c: char) -> Pos {
    if c == '\n' {
        (p.0 + 1, 1)
    } else {
        (p.0, p.1 + 1)
    }
}

/// `t` without what stands at `p`. Taking out the break at the end of a line joins
/// the line with the one below it.
pub open spec fn char_removed(t: Text, p: Pos) -> Text {
    let line = t[p.0 - 1];
    if p.1 <= line.len() {
        t.update(p.0 - 1, line.remove(p.1 - 1))
    } else {
        t.take(p.0 - 1) + seq![line + t[p.0]] + t.skip(p.0 + 1)
    }
}

/// The text from `start` up to `stop`, `stop` itself left out, as lines: the rest of
/// the line of `start`, the whole lines between, and the line of `stop` up to it.
pub open spec fn span(t: Text, start: Pos, stop: Pos) -> Text {
    if start.0 == stop.0 {
        seq![t[start.0 - 1].subrange(start.1 - 1, stop.1 - 1)]
    } else {
        seq![t[start.0 - 1].skip(start.1 - 1)] + t.subrange(start.0, stop.0 - 1) + seq![
            t[stop.0 - 1].take(stop.1 - 1),
        ]
    }
}

/// Where a span ends that begins at `start` and holds `text`.
pub open spec fn span_end(start: Pos, text: Text) -> Pos {
    if text.len() == 1 {
        (start.0, start.1 + text[0].len())
    } else {
        (start.0 + text.len() - 1, text.last().len() as int + 1)
    }
}

/// `t` with `text` spliced in at `p`: the line of `p` is cut at `p`, the first line
/// of `text` goes behind its head, the last line of `text` before its tail, and the
/// lines of `text` between them become lines of their own.
pub open spec fn text_inserted(t: Text, text: Text, p: Pos) -> Text {
    let head = t[p.0 - 1].take(p.1 - 1);
    let tail = t[p.0 - 1].skip(p.1 - 1);
    let first = text.update(0, head + text[0]);
    let both = first.update(first.len() - 1, first.last() + tail);
    t.take(p.0 - 1) + both + t.skip(p.0)
}

/// `t` without the text from `start` up to `stop`, `stop` itself left in: what is
/// left of the line of `start` is joined with what is left of the line of `stop`.
pub open spec fn span_removed(t: Text, start: Pos, stop: Pos) -> Text {
    t.take(start.0 - 1) + seq![t[start.0 - 1].take(start.1 - 1) + t[stop.0 - 1].skip(stop.1 - 1)]
        + t.skip(stop.0)
}

/// `t` with `lines` put in as whole lines, the first of them becoming line `row`.
pub open spec fn lines_inserted(t: Text, lines: Text, row: int) -> Text {
    t.take(row - 1) + lines + t.skip(row - 1)
}

/// `t` without its lines `start` to `stop`, both counted in. A text never runs out
/// of lines: where every line goes, one empty line is left.
pub open spec fn lines_removed(t: Text, start: int, stop: int) -> Text {
    let rest = t.take(start - 1) + t.skip(stop);
    if rest.len() == 0 {
        seq![Seq::empty()]
    } else {
        rest
    }
}

/// Taking out a character that was just put in gives the text back.
pub proof fn lemma_char_inserted_removed(t: Text, p: Pos, c: char)
    requires
        in_text(t, p),
    ensures
        removable(char_inserted(t, p, c), p),
        char_at(char_inserted(t, p, c), p) == c,
        char_removed(char_inserted(t, p, c), p) == t,
{
    let line = t[p.0 - 1];
    let u = char_inserted(t, p, c);
    if c == '\n' {
        assert(u[p.0 - 1] == line.take(p.1 - 1));
        assert(u[p.0] == line.skip(p.1 - 1));
        assert(line.take(p.1 - 1) + line.skip(p.1 - 1) == line);
        assert(char_removed(u, p) =~= t);
    } else {
        assert(u[p.0 - 1].remove(p.1 - 1) == line);
        assert(char_removed(u, p) =~= t);
    }
}

/// Putting back what was just taken out gives the text back, as long as no line
/// held a line break as a character at that place.
pub proof fn lemma_char_removed_inserted(t: Text, p: Pos)
    requires
        removable(t, p),
        p.1 <= t[p.0 - 1].len() ==> t[p.0 - 1][p.1 - 1] != '\n',
    ensures
        in_text(char_removed(t, p), p),
        char_inserted(char_removed(t, p), p, char_at(t, p)) == t,
{
    let line = t[p.0 - 1];
    let u = char_removed(t, p);
    if p.1 <= line.len() {
        assert(u[p.0 - 1].insert(p.1 - 1, line[p.1 - 1]) == line);
        assert(char_inserted(u, p, char_at(t, p)) =~= t);
    } else {
        let joint = line + t[p.0];
        assert(u[p.0 - 1] == joint);
        assert(joint.take(p.1 - 1) == line);
        assert(joint.skip(p.1 - 1) == t[p.0]);
        assert(char_inserted(u, p, char_at(t, p)) =~= t);
    }
}

/// Taking out a span that was just spliced in gives the text back, and the span
/// that is taken out holds the text that was spliced in.
pub proof fn lemma_text_inserted_removed(t: Text, text: Text, p: Pos)
    requires
        in_text(t, p),
        text.len() >= 1,
    ensures
        in_text(text_inserted(t, text, p), p),
        in_text(text_inserted(t, text, p), span_end(p, text)),
        at_or_before(p, span_end(p, text)),
        span(text_inserted(t, text, p), p, span_end(p, text)) == text,
        span_removed(text_inserted(t, text, p), p, span_end(p, text)) == t,
{
    let line = t[p.0 - 1];
    let head = line.take(p.1 - 1);
    let tail = line.skip(p.1 - 1);
    let u = text_inserted(t, text, p);
    let e = span_end(p, text);
    let n = text.len() as int;
    assert(head + tail == line);
    if n == 1 {
        let merged = head + text[0] + tail;
        assert(u[p.0 - 1] == merged);
        assert(merged.subrange(p.1 - 1, e.1 - 1) == text[0]);
        assert(span(u, p, e) =~= text);
        assert(merged.take(p.1 - 1) == head);
        assert(merged.skip(e.1 - 1) == tail);
        assert(span_removed(u, p, e) =~= t);
    } else {
        assert(u[p.0 - 1] == head + text[0]);
        assert(u[e.0 - 1] == text.last() + tail);
        assert((head + text[0]).skip(p.1 - 1) == text[0]);
        assert((text.last() + tail).take(e.1 - 1) == text.last());
        assert(u.subrange(p.0, e.0 - 1) =~= text.subrange(1, n - 1));
        assert(span(u, p, e) =~= text);
        assert((head + text[0]).take(p.1 - 1) == head);
        assert((text.last() + tail).skip(e.1 - 1) == tail);
        assert(span_removed(u, p, e) =~= t);
    }
}

/// Splicing back a span that was just taken out gives the text back, and the span
/// ends where it ended before.
pub proof fn lemma_span_removed_inserted(t: Text, start: Pos, stop: Pos)
    requires
        in_text(t, start),
        in_text(t, stop),
        at_or_before(start, stop),
    ensures
        span(t, start, stop).len() >= 1,
        in_text(span_removed(t, start, stop), start),
        span_end(start, span(t, start, stop)) == stop,
        text_inserted(span_removed(t, start, stop), span(t, start, stop), start) == t,
{
    let x = span(t, start, stop);
    let u = span_removed(t, start, stop);
    let head = t[start.0 - 1].take(start.1 - 1);
    let tail = t[stop.0 - 1].skip(stop.1 - 1);
    assert(u[start.0 - 1] == head + tail);
    assert((head + tail).take(start.1 - 1) == head);
    assert((head + tail).skip(start.1 - 1) == tail);
    let first = x.update(0, head + x[0]);
    let both = first.update(first.len() - 1, first.last() + tail);
    if start.0 == stop.0 {
        let line = t[start.0 - 1];
        assert(head + line.subrange(start.1 - 1, stop.1 - 1) + tail == line);
        assert(both =~= seq![line]);
        assert(text_inserted(u, x, start) =~= t);
    } else {
        let a = t[start.0 - 1];
        let b = t[stop.0 - 1];
        assert(head + a.skip(start.1 - 1) == a);
        assert(b.take(stop.1 - 1) + tail == b);
        assert(both =~= t.subrange(start.0 - 1, stop.0));
        assert(text_inserted(u, x, start) =~= t);
    }
}

/// Taking out whole lines that were just put in gives the text back.
pub proof fn lemma_lines_inserted_removed(t: Text, lines: Text, row: int)
    requires
        t.len() >= 1,
        1 <= row <= t.len() + 1,
    ensures
        lines_inserted(t, lines, row).subrange(row - 1, row - 1 + lines.len()) == lines,
        lines_removed(lines_inserted(t, lines, row), row, row + lines.len() - 1) == t,
{
    let u = lines_inserted(t, lines, row);
    assert(u.subrange(row - 1, row - 1 + lines.len()) =~= lines);
    assert(u.take(row - 1) + u.skip(row + lines.len() - 1) =~= t);
}

/// Putting back whole lines that were just taken out gives the text back, unless
/// they were all the lines there were.
pub proof fn lemma_lines_removed_inserted(t: Text, start: int, stop: int)
    requires
        1 <= start,
        start - 1 <= stop <= t.len(),
        !(start == 1 && stop == t.len()),
    ensures
        1 <= start <= lines_removed(t, start, stop).len() + 1,
        lines_inserted(lines_removed(t, start, stop), t.subrange(start - 1, stop), start) == t,
{
    let u = lines_removed(t, start, stop);
    assert(u == t.take(start - 1) + t.skip(stop));
    assert(lines_inserted(u, t.subrange(start - 1, stop), start) =~= t);
}

} // verus!
