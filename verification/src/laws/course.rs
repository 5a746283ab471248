//! What the steps of every request do to the connection: they take lines, and
//! nothing else changes what is known.
use crate::client::{ClientView, NextView, PACE, QUIET, TIMEOUT, WARM_UP};
use crate::command::CommandView;
use crate::error::{Error, Fault};
use crate::exchange::{ErrandView, ListeningView, QuestionView, SendingView, StepView};
use crate::laws::run::{Happening, Request};
use crate::line::Front;
use vstd::prelude::*;

verus! {

/// When each value was observed, once lines have been taken at a time.
pub open spec fn seen_after(
    observed: Seq<Option<u64>>,
    lines: Seq<Seq<char>>,
    now: int,
) -> Seq<Option<u64>>
    decreases lines.len(),
{
    if lines.len() == 0 {
        observed
    } else {
        let after = match crate::laws::words::value_in(lines.first()) {
            Some(place) => observed.update(place, Some(now as u64)),
            None => observed,
        };
        seen_after(after, lines.drop_first(), now)
    }
}

/// Whether a connection has taken lines at a time, which its bytes and those that
/// have arrived begin with: the state is the one after these lines, each value
/// that they tell has been observed at that time and no other, and what stands
/// behind them is kept, unless it is malformed.
pub open spec fn has_taken(
    before: ClientView,
    bytes: Seq<u8>,
    now: int,
    lines: Seq<Seq<char>>,
    after: ClientView,
) -> bool {
    let all = before.buffer + bytes;
    let left = crate::laws::lines::behind(all, lines);
    &&& crate::laws::lines::opens(all, lines)
    &&& after.state == crate::laws::lines::after_lines(before.state, lines)
    &&& after.observed == seen_after(before.observed, lines, now)
    &&& after.fresh == before.fresh
    &&& {
        ||| crate::laws::lines::alike(left, after.buffer)
        ||| crate::line::front(left) == (Front::Malformed, after.buffer)
    }
}

proof fn lemma_proceed_takes(client: ClientView, at: ListeningView, now: int) -> (lines: Seq<
    Seq<char>,
>)
    ensures
        ({
            let (later, step) = client.proceed(at, now);
            &&& has_taken(client, seq![], now, lines, later)
            &&& later.send_after == client.send_after
            &&& !(step is Failed) ==> crate::laws::lines::alike(
                crate::laws::lines::behind(client.buffer, lines),
                later.buffer,
            )
        }),
    decreases client.buffer.len(), (if at.until() <= now { 1int } else { 0int }),
{
    crate::line::lemma_front_shrinks(client.buffer);
    crate::laws::wire::law_what_waits_is_short(client.buffer);
    let (front, rest) = crate::line::front(client.buffer);
    let left = ClientView { buffer: rest, ..client };
    let none: Seq<Seq<char>> = seq![];
    assert(client.buffer + Seq::<u8>::empty() =~= client.buffer);
    assert(rest + Seq::<u8>::empty() =~= rest);
    crate::laws::lines::lemma_opens_none(client.buffer, client.state);
    crate::laws::lines::lemma_opens_none(rest, client.state);
    match front {
        Front::Malformed => none,
        Front::Incomplete => if now < at.until() {
            none
        } else if let NextView::Listen(next) = left.lapsed(at, now) {
            let lines = lemma_proceed_takes(left, next, now);
            crate::laws::lines::lemma_alike_opens(rest, client.buffer, lines);
            lines
        } else {
            none
        },
        Front::Line(line) => {
            crate::laws::words::law_reports_are_complete(line);
            let noted = left.noted(line, now);
            let tail = if let NextView::Listen(next) = noted.heard(at, line, now) {
                lemma_proceed_takes(noted, next, now)
            } else {
                crate::laws::lines::lemma_opens_none(rest, noted.state);
                assert(seen_after(noted.observed, none, now) == noted.observed);
                none
            };
            crate::laws::lines::lemma_opens_next(client.buffer, client.state, tail);
            assert((seq![line] + tail).drop_first() =~= tail);
            seq![line] + tail
        },
    }
}

/// A request begins with the lines that are there: it takes some of them, and
/// nothing else changes. It keeps the time before which nothing may be written.
pub proof fn law_a_request_begins_with_what_is_there(
    client: ClientView,
    request: Request,
    now: int,
) -> (lines: Seq<Seq<char>>)
    ensures
        ({
            let (begun, step) = client.begin(request, now);
            &&& has_taken(client, seq![], now, lines, begun)
            &&& begun.send_after == client.send_after
        }),
{
    crate::laws::lines::lemma_opens_none(client.buffer, client.state);
    assert(client.buffer + Seq::<u8>::empty() =~= client.buffer);
    match request {
        Request::Command(command) if command.line() is None => seq![],
        _ => lemma_proceed_takes(client, crate::laws::timing::first_wait(request, now), now),
    }
}

/// Every step takes lines, and nothing else changes what is known: whatever comes
/// of a step, the state afterwards is the one after the lines that were taken from
/// the bytes that were there and those that arrived, and the values that these
/// lines tell are the ones observed at that time. Writing a line only changes the
/// time before which nothing may be written.
pub proof fn law_every_step_takes_its_lines(
    client: ClientView,
    step: StepView,
    what: Happening,
) -> (lines: Seq<Seq<char>>)
    ensures
        ({
            let (later, next) = client.react(step, what);
            let time = match crate::laws::run::time_of(what) {
                Some(time) => time,
                None => 0,
            };
            &&& has_taken(client, crate::laws::run::takes(step, what), time, lines, later)
            &&& later.send_after == (if step is Send && what is Sent {
                time + (if step->sending == SendingView::Command(CommandView::Power(true)) {
                    1_000_000_000int
                } else {
                    50_000_000
                })
            } else {
                client.send_after
            })
        }),
{
    let none: Seq<Seq<char>> = seq![];
    assert(client.buffer + Seq::<u8>::empty() =~= client.buffer);
    crate::laws::lines::lemma_opens_none(client.buffer, client.state);
    match step {
        StepView::Receive { listening, wait: _ } => match what {
            Happening::Received { bytes, now } => if bytes.len() == 0 {
                assert(client.buffer + bytes =~= client.buffer);
                none
            } else {
                let fed = ClientView { buffer: client.buffer + bytes, ..client };
                assert(fed.buffer + Seq::<u8>::empty() =~= fed.buffer);
                lemma_proceed_takes(fed, listening, now)
            },
            Happening::ReadFailed { fault, now } => if fault.is_timeout() {
                match client.lapsed(listening, now) {
                    NextView::Listen(next) => lemma_proceed_takes(client, next, now),
                    NextView::Halt(_) => none,
                }
            } else {
                none
            },
            _ => none,
        },
        StepView::Send { sending, pause: _, bytes: _ } => match what {
            Happening::Sent { now } => match sending {
                SendingView::Command(command) => lemma_proceed_takes(
                    ClientView {
                        send_after: now + (if command == CommandView::Power(true) {
                            WARM_UP
                        } else {
                            PACE
                        }),
                        ..client
                    },
                    ListeningView::Drain {
                        errand: ErrandView::Pose(QuestionView::Confirm(command)),
                        until: now + QUIET,
                    },
                    now,
                ),
                SendingView::Question(question) => lemma_proceed_takes(
                    ClientView { send_after: now + PACE, ..client },
                    ListeningView::Answer { question, until: now + TIMEOUT },
                    now,
                ),
            },
            _ => none,
        },
        _ => none,
    }
}

/// Whether lines leave a wait as it is, by the values that they tell: any do while
/// the receiver is heard out, those that tell nothing while a report is waited
/// for, those that do not tell the value while the value of a command or of a
/// status is waited for.
pub open spec fn leave(listening: ListeningView, lines: Seq<Seq<char>>) -> bool {
    forall|i: int|
        0 <= i < lines.len() ==> {
            let told = crate::laws::words::value_in(#[trigger] lines[i]);
            match listening {
                ListeningView::Drain { errand: _, until: _ } => true,
                ListeningView::Watch { until: _ } => told is None,
                ListeningView::Answer { question, until: _ } => match question {
                    QuestionView::Status(key) => told != Some(key.place()),
                    QuestionView::Confirm(command) => told != Some(
                        crate::laws::words::value_of(command),
                    ),
                    QuestionView::Sources(_) => {
                        &&& lines[i] != "SSFUN END"@
                        &&& crate::sources::source_of(lines[i]) is None
                    },
                },
            }
        }
}

proof fn lemma_proceed_past(
    client: ClientView,
    at: ListeningView,
    now: int,
    lines: Seq<Seq<char>>,
)
    requires
        crate::laws::lines::opens(client.buffer, lines),
        leave(at, lines),
    ensures
        ({
            let left = ClientView {
                buffer: crate::laws::lines::behind(client.buffer, lines),
                ..client
            };
            client.proceed(at, now) == crate::laws::status::noted_lines(left, lines, now).proceed(
                at,
                now,
            )
        }),
    decreases lines.len(),
{
    if lines.len() > 0 {
        let line = lines[0];
        let tail = lines.drop_first();
        let rest = crate::line::front(client.buffer).1;
        let noted = ClientView { buffer: rest, ..client }.noted(line, now);
        crate::laws::words::law_reports_are_complete(line);
        assert(noted.heard(at, line, now) == NextView::Listen(at));
        assert(leave(at, tail)) by {
            assert forall|i: int| 0 <= i < tail.len() implies tail[i] == #[trigger] lines[i + 1] by {}
        }
        lemma_proceed_past(noted, at, now, tail);
        let behind = crate::laws::lines::behind(client.buffer, lines);
        let skipped = ClientView { buffer: behind, ..client };
        assert(skipped.noted(line, now) =~= ClientView { buffer: behind, ..noted });
    }
}

/// A malformed line is a protocol error, whatever is waited for, and whatever
/// other lines in front of it leave the wait as it is.
pub proof fn law_a_malformed_line_is_a_protocol_error(
    client: ClientView,
    listening: ListeningView,
    bytes: Seq<u8>,
    now: int,
    lines: Seq<Seq<char>>,
)
    requires
        bytes.len() > 0,
        crate::laws::lines::opens(client.buffer + bytes, lines),
        leave(listening, lines),
        crate::line::front(crate::laws::lines::behind(client.buffer + bytes, lines)).0
            == Front::Malformed,
    ensures
        client.received(listening, bytes, now).1 == StepView::Failed(Error::Protocol),
{
    let fed = ClientView { buffer: client.buffer + bytes, ..client };
    lemma_proceed_past(fed, listening, now, lines);
    let left = ClientView {
        buffer: crate::laws::lines::behind(fed.buffer, lines),
        ..fed
    };
    lemma_noted_keeps_buffer(left, lines, now);
}

proof fn lemma_noted_keeps_buffer(client: ClientView, lines: Seq<Seq<char>>, now: int)
    ensures
        crate::laws::status::noted_lines(client, lines, now).buffer == client.buffer,
    decreases lines.len(),
{
    if lines.len() > 0 {
        lemma_noted_keeps_buffer(client.noted(lines[0], now), lines.drop_first(), now);
    }
}

/// Where nothing that arrives ends a wait, and there is time left, the wait goes on
/// to its end as before.
pub proof fn law_a_wait_goes_on(
    client: ClientView,
    listening: ListeningView,
    bytes: Seq<u8>,
    now: int,
    lines: Seq<Seq<char>>,
)
    requires
        bytes.len() > 0,
        crate::laws::lines::holds(client.buffer + bytes, lines),
        leave(listening, lines),
        now < crate::laws::timing::end_of(listening),
    ensures
        client.received(listening, bytes, now).1 == (StepView::Receive {
            listening,
            wait: crate::laws::timing::end_of(listening) - now,
        }),
{
    let fed = ClientView { buffer: client.buffer + bytes, ..client };
    lemma_proceed_past(fed, listening, now, lines);
    let left = ClientView {
        buffer: crate::laws::lines::behind(fed.buffer, lines),
        ..fed
    };
    lemma_noted_keeps_buffer(left, lines, now);
}

/// Bytes that arrive when a wait is over, and hold nothing that ends it, are taken,
/// and then count as silence does.
pub proof fn law_late_bytes_are_as_good_as_silence(
    client: ClientView,
    listening: ListeningView,
    bytes: Seq<u8>,
    now: int,
    lines: Seq<Seq<char>>,
    quiet: Fault,
)
    requires
        bytes.len() > 0,
        crate::laws::lines::holds(client.buffer + bytes, lines),
        leave(listening, lines),
        crate::laws::timing::end_of(listening) <= now,
        quiet.kind is TimedOut || quiet.kind is WouldBlock,
    ensures
        ({
            let left = ClientView {
                buffer: crate::laws::lines::left_over(client.buffer + bytes, lines),
                ..client
            };
            let told = crate::laws::status::noted_lines(left, lines, now);
            client.received(listening, bytes, now) == told.read_failed(listening, quiet, now)
        }),
{
    let fed = ClientView { buffer: client.buffer + bytes, ..client };
    lemma_proceed_past(fed, listening, now, lines);
    let behind = ClientView {
        buffer: crate::laws::lines::behind(fed.buffer, lines),
        ..fed
    };
    let left = ClientView {
        buffer: crate::laws::lines::left_over(fed.buffer, lines),
        ..client
    };
    lemma_noted_keeps_buffer(behind, lines, now);
    lemma_noted_besides_buffer(behind, left, lines, now);
}

proof fn lemma_noted_besides_buffer(
    a: ClientView,
    b: ClientView,
    lines: Seq<Seq<char>>,
    now: int,
)
    requires
        b == (ClientView { buffer: b.buffer, ..a }),
    ensures
        crate::laws::status::noted_lines(b, lines, now) == (ClientView {
            buffer: b.buffer,
            ..crate::laws::status::noted_lines(a, lines, now)
        }),
    decreases lines.len(),
{
    if lines.len() > 0 {
        assert(b.noted(lines[0], now) =~= ClientView { buffer: b.buffer, ..a.noted(lines[0], now) });
        lemma_noted_besides_buffer(
            a.noted(lines[0], now),
            b.noted(lines[0], now),
            lines.drop_first(),
            now,
        );
    }
}

/// A line that is noted is taken into the state, and the value that it tells has
/// been observed at that time; nothing else changes.
pub proof fn law_a_line_is_noted(client: ClientView, line: Seq<char>, now: int)
    ensures
        ({
            let noted = client.noted(line, now);
            &&& noted.state == client.state.after(line)
            &&& noted.buffer == client.buffer
            &&& noted.send_after == client.send_after
            &&& noted.fresh == client.fresh
            &&& noted.observed == (match crate::laws::words::value_in(line) {
                Some(place) => client.observed.update(place, Some(now as u64)),
                None => client.observed,
            })
        }),
{
    crate::laws::words::law_reports_are_complete(line);
}

/// A malformed line that is there when a request begins ends it with a protocol
/// error, behind whatever lines leave its first wait as it is.
pub proof fn law_a_malformed_line_ends_a_request_at_once(
    client: ClientView,
    request: Request,
    now: int,
    lines: Seq<Seq<char>>,
)
    requires
        request matches Request::Command(command) ==> command.line() is Some,
        crate::laws::lines::opens(client.buffer, lines),
        request is Event ==> crate::laws::event::idle(lines),
        crate::line::front(crate::laws::lines::behind(client.buffer, lines)).0
            == Front::Malformed,
    ensures
        client.begin(request, now).1 == StepView::Failed(Error::Protocol),
{
    lemma_proceed_past(
        client,
        crate::laws::timing::first_wait(request, now),
        now,
        lines,
    );
    let left = ClientView {
        buffer: crate::laws::lines::behind(client.buffer, lines),
        ..client
    };
    lemma_noted_keeps_buffer(left, lines, now);
}

} // verus!
