//! What holds of the lines that are read from a connection one by one.
use crate::client::ClientView;
use crate::error::Error;
use crate::line::{Front, ReadingView};
use vstd::prelude::*;

verus! {

/// What can happen to a connection whose lines are read.
pub enum Moment {
    /// Bytes have arrived.
    Arrived(Seq<u8>),
    /// The next line is asked for, with a time until which it is waited for.
    Asked { until: int, now: int },
}

/// The bytes that arrive in a course, one behind the other.
pub open spec fn stream(course: Seq<Moment>) -> Seq<u8>
    decreases course.len(),
{
    if course.len() == 0 {
        seq![]
    } else {
        let rest = stream(course.drop_first());
        match course.first() {
            Moment::Arrived(bytes) => bytes + rest,
            Moment::Asked { until: _, now: _ } => rest,
        }
    }
}

/// The connection after a course, and what each question for a line came to.
pub open spec fn read(client: ClientView, course: Seq<Moment>) -> (ClientView, Seq<ReadingView>)
    decreases course.len(),
{
    if course.len() == 0 {
        (client, seq![])
    } else {
        let rest = course.drop_first();
        match course.first() {
            Moment::Arrived(bytes) => read(
                ClientView { buffer: client.buffer + bytes, ..client },
                rest,
            ),
            Moment::Asked { until, now } => {
                let (next, reading) = client.line(until, now);
                let (last, readings) = read(next, rest);
                (last, seq![reading] + readings)
            },
        }
    }
}

/// The lines among what questions for a line came to, in order.
pub open spec fn lines_of(readings: Seq<ReadingView>) -> Seq<Seq<char>>
    decreases readings.len(),
{
    if readings.len() == 0 {
        seq![]
    } else {
        let rest = lines_of(readings.drop_first());
        match readings.first() {
            ReadingView::Line(line) => seq![line] + rest,
            _ => rest,
        }
    }
}

/// Every line is read whole and once, and nothing is lost. Where the bytes of a
/// connection hold lines, what is read is the first of them, in order, however
/// the bytes arrive, and however often a line is asked for before it is there, in
/// vain or not. No question fails but by the time, and the bytes that are kept
/// hold the lines that are not yet read, with the same bytes behind them.
pub proof fn law_every_line_is_read_once(
    client: ClientView,
    course: Seq<Moment>,
    lines: Seq<Seq<char>>,
)
    requires
        crate::laws::lines::holds(client.buffer + stream(course), lines),
    ensures
        ({
            let (last, readings) = read(client, course);
            let told = lines_of(readings);
            let left = lines.skip(told.len() as int);
            &&& told.is_prefix_of(lines)
            &&& forall|i: int|
                0 <= i < readings.len() ==> (#[trigger] readings[i] matches ReadingView::Failed(
                    error,
                ) ==> error == Error::Timeout)
            &&& crate::laws::lines::holds(last.buffer, left)
            &&& crate::laws::lines::left_over(last.buffer, left) == crate::laws::lines::left_over(
                client.buffer + stream(course),
                lines,
            )
        }),
    decreases course.len(),
{
    let all = client.buffer + stream(course);
    if course.len() == 0 {
        assert(all =~= client.buffer);
        assert(lines.skip(0) =~= lines);
    } else {
        let rest = course.drop_first();
        let more = stream(rest);
        match course.first() {
            Moment::Arrived(bytes) => {
                let fed = ClientView { buffer: client.buffer + bytes, ..client };
                assert(all =~= fed.buffer + more);
                law_every_line_is_read_once(fed, rest, lines);
            },
            Moment::Asked { until, now } => {
                crate::laws::wire::law_later_bytes_change_no_line(client.buffer, more);
                let (next, reading) = client.line(until, now);
                let (last, readings) = read(next, rest);
                assert((seq![reading] + readings).drop_first() =~= readings);
                if let Front::Line(line) = crate::line::front(client.buffer).0 {
                    let tail = lines.drop_first();
                    law_every_line_is_read_once(next, rest, tail);
                    let told = lines_of(readings);
                    assert(lines.skip(told.len() as int + 1) =~= tail.skip(told.len() as int));
                    assert(lines =~= seq![line] + tail);
                    assert((seq![line] + told).is_prefix_of(lines));
                } else {
                    crate::laws::lines::lemma_alike_opens(all, next.buffer + more, lines);
                    law_every_line_is_read_once(next, rest, lines);
                }
            },
        }
    }
}

/// How the bytes are split does not change the lines. Where the same bytes arrive
/// in two different splittings, with questions for a line in between that may
/// come to nothing, what is read of one is the beginning of what is read of the
/// other, and it is the same once neither has a whole line left to be read.
pub proof fn law_splittings_do_not_matter(
    client: ClientView,
    one: Seq<Moment>,
    other: Seq<Moment>,
    lines: Seq<Seq<char>>,
)
    requires
        stream(one) == stream(other),
        crate::laws::lines::holds(client.buffer + stream(one), lines),
    ensures
        ({
            let (a, first) = read(client, one);
            let (b, second) = read(client, other);
            let (x, y) = (lines_of(first), lines_of(second));
            &&& x.is_prefix_of(y) || y.is_prefix_of(x)
            &&& crate::line::front(a.buffer).0 == Front::Incomplete ==> x == lines
            &&& crate::line::front(b.buffer).0 == Front::Incomplete ==> y == lines
        }),
{
    law_every_line_is_read_once(client, one, lines);
    law_every_line_is_read_once(client, other, lines);
    let x = lines_of(read(client, one).1);
    let y = lines_of(read(client, other).1);
    if x.len() <= y.len() {
        assert(x =~= y.take(x.len() as int));
    } else {
        assert(y =~= x.take(y.len() as int));
    }
}

} // verus!
