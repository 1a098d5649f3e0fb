use crate::action::at;
use crate::common::{append_line, copy_line, lemma_line_deep_view, line_part, Coord, String32};
use crate::effect::holdable;
use crate::text::{
    at_or_before, char_at, char_inserted, char_removed, in_text, lines_inserted, lines_removed,
    removable, span, span_removed, text_inserted,
};
use vstd::prelude::*;

verus! {

/// Puts `cha` into `lines` at `pos`. A line break splits the line at `pos` in two.
pub fn put_char(lines: &mut Vec<String32>, cha: char, pos: Coord)
    requires
        in_text(old(lines).deep_view(), at(pos)),
    ensures
        final(lines).deep_view() == char_inserted(old(lines).deep_view(), at(pos), cha),
{
    broadcast use lemma_line_deep_view;

    let ghost before = lines.deep_view();
    if cha == '\n' {
        let len = lines[pos.0 - 1].len();
        let tail = line_part(&lines[pos.0 - 1], pos.1 - 1, len);
        lines[pos.0 - 1].truncate(pos.1 - 1);
        lines.insert(pos.0, tail);
        assert(lines.deep_view() =~~= char_inserted(before, at(pos), cha));
    } else {
        lines[pos.0 - 1].insert(pos.1 - 1, cha);
        assert(lines.deep_view() =~~= char_inserted(before, at(pos), cha));
    }
}

/// Takes out of `lines` what stands at `pos`, and hands it out. Where `pos` is the
/// end of a line, that is the line break, and the line below is joined to the
/// line.
pub fn take_char(lines: &mut Vec<String32>, pos: Coord) -> (cha: char)
    requires
        removable(old(lines).deep_view(), at(pos)),
    ensures
        cha == char_at(old(lines).deep_view(), at(pos)),
        final(lines).deep_view() == char_removed(old(lines).deep_view(), at(pos)),
{
    broadcast use lemma_line_deep_view;

    let ghost before = lines.deep_view();
    if pos.1 <= lines[pos.0 - 1].len() {
        let cha = lines[pos.0 - 1].remove(pos.1 - 1);
        assert(lines.deep_view() =~~= char_removed(before, at(pos)));
        cha
    } else {
        let tail = lines.remove(pos.0);
        append_line(&mut lines[pos.0 - 1], &tail);
        assert(lines.deep_view() =~~= char_removed(before, at(pos)));
        '\n'
    }
}

/// The text from `start` up to `stop`, `stop` itself left out, as lines.
pub fn text_between(lines: &Vec<String32>, start: Coord, stop: Coord) -> (text: Vec<String32>)
    requires
        in_text(lines.deep_view(), at(start)),
        in_text(lines.deep_view(), at(stop)),
        at_or_before(at(start), at(stop)),
    ensures
        text.deep_view() == span(lines.deep_view(), at(start), at(stop)),
{
    broadcast use lemma_line_deep_view;

    let ghost t = lines.deep_view();
    let mut text: Vec<String32> = Vec::new();
    if start.0 == stop.0 {
        text.push(line_part(&lines[start.0 - 1], start.1 - 1, stop.1 - 1));
        assert(text.deep_view() =~~= span(t, at(start), at(stop)));
        return text;
    }
    let first_line = &lines[start.0 - 1];
    text.push(line_part(first_line, start.1 - 1, first_line.len()));
    assert(text.deep_view() =~~= seq![t[start.0 - 1].skip(start.1 - 1)] + t.subrange(
        start.0 as int,
        start.0 as int,
    ));
    let mut i: usize = start.0;
    while i < stop.0 - 1
        invariant
            1 <= start.0 <= i <= stop.0 - 1,
            stop.0 <= lines@.len(),
            t == lines.deep_view(),
            text.deep_view() == seq![t[start.0 - 1].skip(start.1 - 1)] + t.subrange(
                start.0 as int,
                i as int,
            ),
        decreases stop.0 - 1 - i,
    {
        broadcast use lemma_line_deep_view;

        let ghost earlier = text.deep_view();
        text.push(copy_line(&lines[i]));
        assert(text.deep_view() =~~= earlier.push(t[i as int]));
        assert(earlier.push(t[i as int]) =~= seq![t[start.0 - 1].skip(start.1 - 1)] + t.subrange(
            start.0 as int,
            i + 1,
        ));
        i += 1;
    }
    let ghost earlier = text.deep_view();
    text.push(line_part(&lines[stop.0 - 1], 0, stop.1 - 1));
    assert(text.deep_view() =~~= earlier.push(t[stop.0 - 1].take(stop.1 - 1)));
    assert(text.deep_view() =~= span(t, at(start), at(stop)));
    text
}

/// Splices `text` into `lines` at `pos`.
pub fn put_text(lines: &mut Vec<String32>, text: &Vec<String32>, pos: Coord)
    requires
        in_text(old(lines).deep_view(), at(pos)),
        text@.len() >= 1,
        holdable(text_inserted(old(lines).deep_view(), text.deep_view(), at(pos))),
    ensures
        final(lines).deep_view() == text_inserted(old(lines).deep_view(), text.deep_view(), at(pos)),
{
    broadcast use lemma_line_deep_view;

    let ghost before = lines.deep_view();
    let ghost new = text.deep_view();
    let ghost after = text_inserted(before, new, at(pos));
    let ghost head = before[pos.0 - 1].take(pos.1 - 1);
    let n = text.len();
    let row = pos.0 - 1;
    let len = lines[row].len();
    let tail = line_part(&lines[row], pos.1 - 1, len);
    lines[row].truncate(pos.1 - 1);
    append_line(&mut lines[row], &text[0]);
    assert(after.len() == before.len() + n - 1);
    assert(lines.deep_view() =~~= before.take(row as int) + seq![head + new[0]] + new.subrange(1, 1)
        + before.skip(row + 1));
    let mut i: usize = 1;
    while i < n
        invariant
            1 <= i <= n,
            n == text@.len(),
            new == text.deep_view(),
            row == pos.0 - 1,
            row < before.len(),
            before.len() + n - 1 < usize::MAX,
            lines.deep_view() == before.take(row as int) + seq![head + new[0]] + new.subrange(
                1,
                i as int,
            ) + before.skip(row + 1),
        decreases n - i,
    {
        broadcast use lemma_line_deep_view;

        let ghost earlier = lines.deep_view();
        let len = lines.len();
        assert(len == earlier.len());
        lines.insert(row + i, copy_line(&text[i]));
        assert(lines.deep_view() =~~= earlier.insert(row + i, new[i as int]));
        assert(earlier.insert(row + i, new[i as int]) =~= before.take(row as int) + seq![
            head + new[0],
        ] + new.subrange(1, i + 1) + before.skip(row + 1));
        i += 1;
    }
    let len = lines.len();
    assert(len == lines.deep_view().len());
    let ghost mid = lines.deep_view();
    append_line(&mut lines[row + n - 1], &tail);
    proof {
        let last = row + n - 1;
        assert(tail@ == before[row as int].skip(pos.1 - 1));
        assert(lines.deep_view() =~~= mid.update(last, mid[last] + tail@));
        let first = new.update(0, head + new[0]);
        let both = first.update(n - 1, first.last() + tail@);
        assert(mid =~= before.take(row as int) + first + before.skip(row + 1));
        assert(mid[last] == first.last());
        assert(mid.update(last, mid[last] + tail@) =~= before.take(row as int) + both
            + before.skip(row + 1));
    }
}

/// Takes out of `lines` what stands from `start` up to `stop`, `stop` itself left
/// in.
pub fn take_text(lines: &mut Vec<String32>, start: Coord, stop: Coord)
    requires
        in_text(old(lines).deep_view(), at(start)),
        in_text(old(lines).deep_view(), at(stop)),
        at_or_before(at(start), at(stop)),
    ensures
        final(lines).deep_view() == span_removed(old(lines).deep_view(), at(start), at(stop)),
{
    broadcast use lemma_line_deep_view;

    let ghost before = lines.deep_view();
    let last_len = lines[stop.0 - 1].len();
    let tail = line_part(&lines[stop.0 - 1], stop.1 - 1, last_len);
    lines[start.0 - 1].truncate(start.1 - 1);
    append_line(&mut lines[start.0 - 1], &tail);
    let ghost joint = before[start.0 - 1].take(start.1 - 1) + before[stop.0 - 1].skip(stop.1 - 1);
    assert(lines.deep_view() =~~= before.take(start.0 - 1) + seq![joint] + before.skip(
        start.0 as int,
    ));
    let mut i: usize = start.0;
    while i < stop.0
        invariant
            1 <= start.0 <= i <= stop.0 <= before.len(),
            lines.deep_view() == before.take(start.0 - 1) + seq![joint] + before.skip(i as int),
        decreases stop.0 - i,
    {
        broadcast use lemma_line_deep_view;

        let ghost earlier = lines.deep_view();
        let len = lines.len();
        assert(len == earlier.len());
        lines.remove(start.0);
        assert(lines.deep_view() =~~= earlier.remove(start.0 as int));
        assert(earlier.remove(start.0 as int) =~= before.take(start.0 - 1) + seq![joint]
            + before.skip(i + 1));
        i += 1;
    }
}

/// Puts `new` into `lines` as whole lines, the first of them becoming line `row`.
pub fn put_lines(lines: &mut Vec<String32>, new: &Vec<String32>, row: usize)
    requires
        1 <= row <= old(lines)@.len() + 1,
        old(lines)@.len() + new@.len() < usize::MAX,
    ensures
        final(lines).deep_view() == lines_inserted(
            old(lines).deep_view(),
            new.deep_view(),
            row as int,
        ),
{
    broadcast use lemma_line_deep_view;

    let ghost before = lines.deep_view();
    let ghost more = new.deep_view();
    assert(lines.deep_view() =~~= before.take(row - 1) + more.take(0) + before.skip(row - 1));
    let mut i: usize = 0;
    while i < new.len()
        invariant
            i <= new@.len(),
            more == new.deep_view(),
            1 <= row <= before.len() + 1,
            before.len() + more.len() < usize::MAX,
            lines.deep_view() == before.take(row - 1) + more.take(i as int) + before.skip(row - 1),
        decreases new@.len() - i,
    {
        broadcast use lemma_line_deep_view;

        let ghost earlier = lines.deep_view();
        let len = lines.len();
        assert(len == earlier.len());
        lines.insert(row - 1 + i, copy_line(&new[i]));
        assert(lines.deep_view() =~~= earlier.insert(row - 1 + i, more[i as int]));
        assert(earlier.insert(row - 1 + i, more[i as int]) =~= before.take(row - 1) + more.take(
            i + 1,
        ) + before.skip(row - 1));
        i += 1;
    }
    assert(more.take(more.len() as int) == more);
}

/// Takes the lines `start` to `stop`, both counted in, out of `lines`. Where every
/// line goes, one empty line is left.
pub fn take_lines(lines: &mut Vec<String32>, start: usize, stop: usize)
    requires
        1 <= start,
        start - 1 <= stop <= old(lines)@.len(),
    ensures
        final(lines).deep_view() == lines_removed(
            old(lines).deep_view(),
            start as int,
            stop as int,
        ),
{
    broadcast use lemma_line_deep_view;

    let ghost before = lines.deep_view();
    assert(lines.deep_view() =~~= before.take(start - 1) + before.skip(start - 1));
    let mut i: usize = start - 1;
    while i < stop
        invariant
            1 <= start,
            start - 1 <= i <= stop <= before.len(),
            lines.deep_view() == before.take(start - 1) + before.skip(i as int),
        decreases stop - i,
    {
        broadcast use lemma_line_deep_view;

        let ghost earlier = lines.deep_view();
        let len = lines.len();
        assert(len == earlier.len());
        lines.remove(start - 1);
        assert(lines.deep_view() =~~= earlier.remove(start - 1));
        assert(earlier.remove(start - 1) =~= before.take(start - 1) + before.skip(i + 1));
        i += 1;
    }
    if lines.len() == 0 {
        lines.push(Vec::new());
        assert(lines.deep_view() =~~= seq![Seq::<char>::empty()]);
    }
}

} // verus!
