//! The lines that bytes hold, one behind the other.
use crate::line::Front;
use crate::state::StateView;
use vstd::prelude::*;

verus! {

/// Whether bytes begin with lines, in order.
pub open spec fn opens(buffer: Seq<u8>, lines: Seq<Seq<char>>) -> bool
    decreases lines.len(),
{
    lines.len() == 0 || {
        &&& crate::line::front(buffer).0 == Front::Line(lines.first())
        &&& opens(crate::line::front(buffer).1, lines.drop_first())
    }
}

/// The bytes behind the lines that they begin with.
pub open spec fn behind(buffer: Seq<u8>, lines: Seq<Seq<char>>) -> Seq<u8>
    decreases lines.len(),
{
    if lines.len() == 0 {
        buffer
    } else {
        behind(crate::line::front(buffer).1, lines.drop_first())
    }
}

/// Whether bytes hold the same, but for empty lines in front.
pub open spec fn alike(a: Seq<u8>, b: Seq<u8>) -> bool {
    crate::line::front(a) == crate::line::front(b)
}

/// A state once lines have been taken over, one after the other.
pub open spec fn after_lines(state: StateView, lines: Seq<Seq<char>>) -> StateView
    decreases lines.len(),
{
    if lines.len() == 0 {
        state
    } else {
        after_lines(state.after(lines.first()), lines.drop_first())
    }
}

/// No lines at all stand in front of any bytes.
pub proof fn lemma_opens_none(buffer: Seq<u8>, state: StateView)
    ensures
        opens(buffer, seq![]),
        behind(buffer, seq![]) == buffer,
        after_lines(state, seq![]) == state,
{
}

/// A line, and lines behind it, are lines one behind the other.
pub proof fn lemma_opens_next(buffer: Seq<u8>, state: StateView, rest: Seq<Seq<char>>)
    requires
        crate::line::front(buffer).0 is Line,
        opens(crate::line::front(buffer).1, rest),
    ensures
        ({
            let line = crate::line::front(buffer).0->Line_0;
            let lines = seq![line] + rest;
            &&& opens(buffer, lines)
            &&& behind(buffer, lines) == behind(crate::line::front(buffer).1, rest)
            &&& after_lines(state, lines) == after_lines(state.after(line), rest)
        }),
{
    let lines = seq![crate::line::front(buffer).0->Line_0] + rest;
    assert(lines.drop_first() =~= rest);
}

/// What arrives later stands behind the lines that are there.
pub proof fn lemma_opens_more(buffer: Seq<u8>, lines: Seq<Seq<char>>, more: Seq<u8>)
    requires
        opens(buffer, lines),
    ensures
        opens(buffer + more, lines),
        behind(buffer + more, lines) == behind(buffer, lines) + more,
    decreases lines.len(),
{
    if lines.len() > 0 {
        crate::laws::wire::law_later_bytes_change_no_line(buffer, more);
        lemma_opens_more(crate::line::front(buffer).1, lines.drop_first(), more);
    }
}

/// What arrives later stands behind either of two that are alike.
pub proof fn lemma_alike_more(a: Seq<u8>, b: Seq<u8>, more: Seq<u8>)
    requires
        alike(a, b),
    ensures
        alike(a + more, b + more),
{
    crate::laws::wire::law_later_bytes_change_no_line(a, more);
    crate::laws::wire::law_later_bytes_change_no_line(b, more);
}

/// Bytes that are alike begin with the same lines.
pub proof fn lemma_alike_opens(a: Seq<u8>, b: Seq<u8>, lines: Seq<Seq<char>>)
    requires
        alike(a, b),
        opens(a, lines),
    ensures
        opens(b, lines),
        alike(behind(a, lines), behind(b, lines)),
{
}

/// Lines, and lines behind them, are lines one behind the other.
pub proof fn lemma_opens_both(
    buffer: Seq<u8>,
    first: Seq<Seq<char>>,
    second: Seq<Seq<char>>,
)
    requires
        opens(buffer, first),
        opens(behind(buffer, first), second),
    ensures
        opens(buffer, first + second),
        behind(buffer, first + second) == behind(behind(buffer, first), second),
    decreases first.len(),
{
    if first.len() == 0 {
        assert(first + second =~= second);
    } else {
        assert((first + second).drop_first() =~= first.drop_first() + second);
        lemma_opens_both(crate::line::front(buffer).1, first.drop_first(), second);
    }
}

/// Lines of what is there, and lines of what that has become once more bytes have
/// arrived, are lines one behind the other.
pub proof fn lemma_opens_later(
    buffer: Seq<u8>,
    first: Seq<Seq<char>>,
    left: Seq<u8>,
    more: Seq<u8>,
    second: Seq<Seq<char>>,
)
    requires
        opens(buffer, first),
        alike(behind(buffer, first), left),
        opens(left + more, second),
    ensures
        opens(buffer + more, first + second),
        alike(behind(buffer + more, first + second), behind(left + more, second)),
{
    lemma_opens_more(buffer, first, more);
    lemma_alike_more(behind(buffer, first), left, more);
    lemma_alike_opens(left + more, behind(buffer, first) + more, second);
    lemma_opens_both(buffer + more, first, second);
}

/// Lines are taken over one part after the other.
pub proof fn lemma_after_both(state: StateView, first: Seq<Seq<char>>, second: Seq<Seq<char>>)
    ensures
        after_lines(state, first + second) == after_lines(after_lines(state, first), second),
    decreases first.len(),
{
    if first.len() == 0 {
        assert(first + second =~= second);
    } else {
        assert((first + second).drop_first() =~= first.drop_first() + second);
        lemma_after_both(state.after(first.first()), first.drop_first(), second);
    }
}

/// Whether bytes hold lines and no other whole line behind them.
pub open spec fn holds(buffer: Seq<u8>, lines: Seq<Seq<char>>) -> bool {
    &&& opens(buffer, lines)
    &&& crate::line::front(behind(buffer, lines)).0 == Front::Incomplete
}

/// The bytes that are left of those that hold lines, once these are taken.
pub open spec fn left_over(buffer: Seq<u8>, lines: Seq<Seq<char>>) -> Seq<u8> {
    crate::line::front(behind(buffer, lines)).1
}

/// Of the lines that bytes hold, some are there before the last of the bytes have
/// arrived, and the others once they have.
pub proof fn lemma_holds_in_parts(buffer: Seq<u8>, more: Seq<u8>, lines: Seq<Seq<char>>) -> (
    there: int)
    requires
        holds(buffer + more, lines),
    ensures
        0 <= there <= lines.len(),
        holds(buffer, lines.take(there)),
        ({
            let left = left_over(buffer, lines.take(there));
            &&& holds(left + more, lines.skip(there))
            &&& left_over(left + more, lines.skip(there)) == left_over(buffer + more, lines)
        }),
    decreases lines.len(),
{
    crate::laws::wire::law_later_bytes_change_no_line(buffer, more);
    let (front, rest) = crate::line::front(buffer);
    match front {
        Front::Line(line) => {
            let tail = lines.drop_first();
            let there = lemma_holds_in_parts(rest, more, tail);
            assert(lines.take(there + 1).drop_first() =~= tail.take(there));
            assert(lines.skip(there + 1) =~= tail.skip(there));
            there + 1
        },
        _ => {
            assert(lines.take(0) =~= seq![]);
            assert(lines.skip(0) =~= lines);
            lemma_alike_opens(buffer + more, rest + more, lines);
            0
        },
    }
}

} // verus!
