//! How long a request waits, for what, and what it does when the time is over.
use crate::client::{ClientView, NextView, QUIET};
use crate::error::{Error, Fault, FaultKind};
use crate::exchange::{
    ErrandView, ListeningView, QuestionView, ReplyView, SendingView, StepView,
};
use crate::laws::connection::{rest_until, timeless};
use crate::laws::run::{Happening, Request};
use crate::line::Front;
use crate::state::Key;
use vstd::prelude::*;

verus! {

/// When a wait is over.
pub open spec fn end_of(listening: ListeningView) -> int {
    match listening {
        ListeningView::Drain { errand: _, until } => until,
        ListeningView::Answer { question: _, until } => until,
        ListeningView::Watch { until } => until,
    }
}

/// The time of the last happening of a course, or of its start.
pub open spec fn last_time(course: Seq<Happening>, start: int) -> int {
    if course.len() == 0 {
        start
    } else {
        crate::laws::run::time_of(course.last())->0
    }
}

/// Whether a request is one that writes something: every one but the wait for a
/// report, unless it is a command that has no line.
pub open spec fn writes_something(request: Request) -> bool {
    match request {
        Request::Command(command) => command.line() is Some,
        Request::Event { wait: _ } => false,
        _ => true,
    }
}

proof fn lemma_begin_hears_out(
    client: ClientView,
    at: ListeningView,
    now: int,
    course: Seq<Happening>,
    lines: Seq<Seq<char>>,
)
    requires
        at is Drain,
        now < at.until(),
        crate::laws::run::arrivals(course, at.until()),
        crate::laws::lines::holds(client.buffer + crate::laws::run::arrived(course), lines),
    ensures
        ({
            let (begun, step) = client.proceed(at, now);
            let (later, end) = begun.run(step, course);
            let all = client.buffer + crate::laws::run::arrived(course);
            &&& end == (StepView::Receive {
                listening: at,
                wait: at.until() - last_time(course, now),
            })
            &&& later.buffer == crate::laws::lines::left_over(all, lines)
            &&& later.state == crate::laws::lines::after_lines(client.state, lines)
            &&& later.send_after == client.send_after
            &&& crate::line::front(later.buffer) == (Front::Incomplete, later.buffer)
        }),
{
    let (begun, step) = client.proceed(at, now);
    let more = crate::laws::run::arrived(course);
    let all = client.buffer + more;
    let k = crate::laws::lines::lemma_holds_in_parts(client.buffer, more, lines);
    assert(lines.take(k) + lines.skip(k) =~= lines);
    crate::laws::request::lemma_proceed_hears_out(client, at, now, lines.take(k));
    crate::laws::wire::law_what_waits_is_short(
        crate::laws::lines::behind(client.buffer, lines.take(k)),
    );
    crate::laws::request::lemma_run_hears_out(begun, step, course, lines.skip(k));
    crate::laws::lines::lemma_after_both(client.state, lines.take(k), lines.skip(k));
    crate::laws::wire::law_what_waits_is_short(crate::laws::lines::behind(all, lines));
}

/// A request that writes something hears the receiver out first, for ten
/// milliseconds in all: whatever is reported in that time is taken over, and the
/// wait is neither prolonged nor cut short by it.
pub proof fn law_the_receiver_is_heard_out_first(
    client: ClientView,
    request: Request,
    now: int,
    course: Seq<Happening>,
    lines: Seq<Seq<char>>,
)
    requires
        writes_something(request),
        crate::laws::run::arrivals(course, now + 10_000_000),
        crate::laws::lines::holds(client.buffer + crate::laws::run::arrived(course), lines),
    ensures
        ({
            let (begun, step) = client.begin(request, now);
            let (later, end) = begun.run(step, course);
            let all = client.buffer + crate::laws::run::arrived(course);
            &&& end is Receive
            &&& end->wait == now + 10_000_000 - last_time(course, now)
            &&& later.state == crate::laws::lines::after_lines(client.state, lines)
            &&& later.buffer == crate::laws::lines::left_over(all, lines)
        }),
{
    lemma_begin_hears_out(client, first_wait(request, now), now, course, lines);
}

/// The wait that a request begins with.
pub open spec fn first_wait(request: Request, now: int) -> ListeningView {
    match request {
        Request::Status => ListeningView::Drain { errand: ErrandView::Settle, until: now + QUIET },
        Request::Command(command) => ListeningView::Drain {
            errand: ErrandView::Issue { command, line: command.line()->0 },
            until: now + QUIET,
        },
        Request::Sources => ListeningView::Drain {
            errand: ErrandView::Pose(QuestionView::Sources(seq![])),
            until: now + QUIET,
        },
        Request::Event { wait } => ListeningView::Watch { until: now + wait },
    }
}

/// Once the receiver is quiet, a command is written, and so is the question for
/// the inputs, no later than the pace of the lines demands. A status is done if
/// each value is current, and hears the receiver out once more if one is not.
pub proof fn law_a_quiet_receiver_is_written_to(
    client: ClientView,
    request: Request,
    now: int,
    course: Seq<Happening>,
    lines: Seq<Seq<char>>,
    quiet: Fault,
    lull: int,
)
    requires
        writes_something(request),
        crate::laws::run::arrivals(course, now + 10_000_000),
        crate::laws::lines::holds(client.buffer + crate::laws::run::arrived(course), lines),
        quiet.kind is TimedOut || quiet.kind is WouldBlock,
    ensures
        ({
            let (begun, step) = client.begin(request, now);
            let (later, end) = begun.run(step, course);
            let next = later.react(end, Happening::ReadFailed { fault: quiet, now: lull }).1;
            match request {
                Request::Command(command) => {
                    &&& next is Send
                    &&& next->bytes == crate::exchange::line_bytes(command.line()->0)
                    &&& next->pause == rest_until(client.send_after, lull)
                },
                Request::Sources => {
                    &&& next is Send
                    &&& next->bytes == crate::exchange::line_bytes("SSFUN ?"@)
                    &&& next->pause == rest_until(client.send_after, lull)
                },
                Request::Status => if forall|key: Key| #[trigger] later.current(key, lull) {
                    next == StepView::Done(ReplyView::State(later.state))
                } else {
                    next is Receive && next->wait == 10_000_000
                },
                Request::Event { wait: _ } => true,
            }
        }),
{
    let at = first_wait(request, now);
    lemma_begin_hears_out(client, at, now, course, lines);
    let (begun, step) = client.begin(request, now);
    let (later, end) = begun.run(step, course);
    if request is Status {
        if later.stale_from(0, lull) is None {
            assert forall|key: Key| #[trigger] later.current(key, lull) by {
                match key {
                    Key::Power => {},
                    Key::Volume => {},
                    Key::Mute => {},
                    Key::Input => {},
                }
            }
        } else {
            assert(!later.current(later.stale_from(0, lull)->0, lull));
        }
    }
}

/// A status asks for the first value that is not current. Where the receiver is
/// quiet twice, with nothing left to read, what is written is the question for the
/// value that was not current at the first time, while those in front of it were.
pub proof fn law_the_first_value_that_is_not_current_is_asked_for(
    client: ClientView,
    now: int,
    quiet: Fault,
    lull: int,
    next_lull: int,
    key: Key,
)
    requires
        crate::line::front(client.buffer).0 == Front::Incomplete,
        quiet.kind is TimedOut || quiet.kind is WouldBlock,
        !client.current(key, lull),
        forall|other: Key| other.place() < key.place() ==> #[trigger] client.current(other, lull),
    ensures
        ({
            let (begun, step) = client.status(now);
            let (there, second) = begun.react(
                step,
                Happening::ReadFailed { fault: quiet, now: lull },
            );
            let next = there.react(second, Happening::ReadFailed { fault: quiet, now: next_lull }).1;
            &&& next is Send
            &&& next->bytes == crate::exchange::line_bytes(
                match key {
                    Key::Power => "ZM?"@,
                    Key::Volume => "MV?"@,
                    Key::Mute => "MU?"@,
                    Key::Input => "SI?"@,
                },
            )
            &&& next->pause == rest_until(client.send_after, next_lull)
        }),
{
    crate::laws::wire::law_what_waits_is_short(client.buffer);
    crate::laws::words::law_questions_have_their_lines(
        crate::command::CommandView::VolumeUp,
        seq![],
    );
    let begun = client.status(now).0;
    assert(!begun.current(key, lull));
    assert forall|other: Key| other.place() < key.place() implies #[trigger] begun.current(
        other,
        lull,
    ) by {
        assert(client.current(other, lull));
    }
    assert(begun.stale_from(0, lull) == Some(key)) by {
        assert(key.place() > 0 ==> begun.current(Key::Power, lull));
        assert(key.place() > 1 ==> begun.current(Key::Volume, lull));
        assert(key.place() > 2 ==> begun.current(Key::Mute, lull));
    }
}

/// Once a question is written, its answer is waited for two seconds; once a
/// command is written, the receiver is heard out for ten milliseconds.
pub proof fn law_waits_begin_when_the_line_is_written(
    client: ClientView,
    sending: SendingView,
    now: int,
)
    requires
        crate::line::front(client.buffer).0 == Front::Incomplete,
    ensures
        ({
            let next = client.sent(sending, now).1;
            match sending {
                SendingView::Question(question) => next == (StepView::Receive {
                    listening: ListeningView::Answer { question, until: now + 2_000_000_000 },
                    wait: 2_000_000_000,
                }),
                SendingView::Command(command) => next == (StepView::Receive {
                    listening: ListeningView::Drain {
                        errand: ErrandView::Pose(QuestionView::Confirm(command)),
                        until: now + 10_000_000,
                    },
                    wait: 10_000_000,
                }),
            }
        }),
{
}

/// A wait is not cut short: bytes that arrive before it is over do not end it but
/// by what they say. Where it goes on it ends when it was to end.
pub proof fn law_a_wait_is_not_cut_short(
    client: ClientView,
    listening: ListeningView,
    bytes: Seq<u8>,
    now: int,
)
    requires
        now < end_of(listening),
        bytes.len() > 0,
    ensures
        match client.received(listening, bytes, now).1 {
            StepView::Receive { listening: next, wait } => {
                &&& wait == end_of(next) - now
                &&& end_of(next) == end_of(listening) || (!timeless(listening) && end_of(next) == now
                    + 10_000_000)
            },
            StepView::Send { sending: _, pause: _, bytes: _ } => false,
            StepView::Done(reply) => !(listening is Drain) && reply != ReplyView::Event(None),
            StepView::Failed(error) => error == Error::Protocol,
        },
{
    lemma_proceed_is_not_cut_short(
        ClientView { buffer: client.buffer + bytes, ..client },
        listening,
        now,
    );
}

proof fn lemma_proceed_is_not_cut_short(client: ClientView, at: ListeningView, now: int)
    requires
        now < end_of(at),
    ensures
        match client.proceed(at, now).1 {
            StepView::Receive { listening: next, wait } => {
                &&& wait == end_of(next) - now
                &&& end_of(next) == end_of(at) || (!timeless(at) && end_of(next) == now
                    + 10_000_000)
                &&& timeless(at) ==> timeless(next)
            },
            StepView::Send { sending: _, pause: _, bytes: _ } => false,
            StepView::Done(reply) => !(at is Drain) && reply != ReplyView::Event(None),
            StepView::Failed(error) => error == Error::Protocol,
        },
    decreases client.buffer.len(),
{
    crate::line::lemma_front_shrinks(client.buffer);
    let (front, rest) = crate::line::front(client.buffer);
    if let Front::Line(line) = front {
        let noted = ClientView { buffer: rest, ..client }.noted(line, now);
        if let NextView::Listen(next) = noted.heard(at, line, now) {
            lemma_proceed_is_not_cut_short(noted, next, now);
        }
    }
}

/// A wait that is over is over. Where the time is up, whether bytes arrive that
/// do not end the wait by what they say or the read runs into its time: an answer
/// that was awaited is a timeout, a report that was awaited is none, and what was
/// to be written is written.
pub proof fn law_a_wait_ends(
    client: ClientView,
    listening: ListeningView,
    bytes: Seq<u8>,
    now: int,
)
    requires
        end_of(listening) <= now,
        timeless(listening),
        !(listening matches ListeningView::Drain { errand, until: _ } && errand is Settle),
        bytes.len() > 0,
    ensures
        match client.received(listening, bytes, now).1 {
            StepView::Receive { listening: _, wait: _ } => false,
            StepView::Send { sending: _, pause, bytes: _ } => listening is Drain && pause
                == rest_until(client.send_after, now),
            StepView::Done(_) => !(listening is Drain),
            StepView::Failed(error) => error == Error::Protocol || (error == Error::Timeout
                && listening is Answer),
        },
{
    lemma_proceed_ends(
        ClientView { buffer: client.buffer + bytes, ..client },
        listening,
        now,
    );
}

proof fn lemma_proceed_ends(client: ClientView, at: ListeningView, now: int)
    requires
        end_of(at) <= now,
        timeless(at),
        !(at matches ListeningView::Drain { errand, until: _ } && errand is Settle),
    ensures
        match client.proceed(at, now).1 {
            StepView::Receive { listening: _, wait: _ } => false,
            StepView::Send { sending: _, pause, bytes: _ } => at is Drain && pause == rest_until(
                client.send_after,
                now,
            ),
            StepView::Done(_) => !(at is Drain),
            StepView::Failed(error) => error == Error::Protocol || (error == Error::Timeout
                && at is Answer),
        },
    decreases client.buffer.len(),
{
    crate::line::lemma_front_shrinks(client.buffer);
    let (front, rest) = crate::line::front(client.buffer);
    if let Front::Line(line) = front {
        let noted = ClientView { buffer: rest, ..client }.noted(line, now);
        if let NextView::Listen(next) = noted.heard(at, line, now) {
            lemma_proceed_ends(noted, next, now);
        }
    }
}

/// A read that runs into its time ends the wait, and changes nothing of the
/// connection: an answer that was awaited is a timeout, a report that was awaited
/// is none, and the command or the question that was to be written is written, no
/// later than the pace of the lines demands.
pub proof fn law_silence_ends_a_wait(
    client: ClientView,
    listening: ListeningView,
    fault: Fault,
    now: int,
)
    requires
        fault.kind is TimedOut || fault.kind is WouldBlock,
    ensures
        listening is Answer ==> client.read_failed(listening, fault, now) == (
            client,
            StepView::Failed(Error::Timeout),
        ),
        listening is Watch ==> client.read_failed(listening, fault, now) == (
            client,
            StepView::Done(ReplyView::Event(None)),
        ),
        listening matches ListeningView::Drain { errand: ErrandView::Pose(question), until: _ }
            ==> client.read_failed(listening, fault, now) == (
            client,
            StepView::Send {
                sending: SendingView::Question(question),
                pause: rest_until(client.send_after, now),
                bytes: crate::exchange::line_bytes(question.line()),
            },
        ),
        listening matches ListeningView::Drain {
            errand: ErrandView::Issue { command, line },
            until: _,
        } ==> client.read_failed(listening, fault, now) == (
            client,
            StepView::Send {
                sending: SendingView::Command(command),
                pause: rest_until(client.send_after, now),
                bytes: crate::exchange::line_bytes(line),
            },
        ),
{
}

/// A connection that breaks ends every request: one that the receiver closes with
/// the error of an early end, one on which a read fails with that failure, and one
/// on which a write fails with that failure or, where its time ran out, with a
/// timeout. Nothing of the connection changes.
pub proof fn law_a_broken_connection_ends_a_request(
    client: ClientView,
    listening: ListeningView,
    fault: Fault,
    now: int,
)
    ensures
        client.received(listening, seq![], now) == (
            client,
            StepView::Failed(
                Error::Io(Fault { kind: FaultKind::UnexpectedEof, os_code: None }),
            ),
        ),
        !(fault.kind is TimedOut) && !(fault.kind is WouldBlock) ==> {
            &&& client.read_failed(listening, fault, now) == (
                client,
                StepView::Failed(Error::Io(fault)),
            )
            &&& client.write_failed(fault) == (client, StepView::Failed(Error::Io(fault)))
        },
        fault.kind is TimedOut || fault.kind is WouldBlock ==> client.write_failed(fault) == (
            client,
            StepView::Failed(Error::Timeout),
        ),
{
}

/// To ask for the next line gives the line where it is there, says exactly how
/// long to wait for it where there is time, and fails where there is none.
pub proof fn law_a_line_is_waited_for_as_long_as_asked(client: ClientView, until: int, now: int)
    ensures
        ({
            let reading = client.line(until, now).1;
            match crate::line::front(client.buffer).0 {
                Front::Line(line) => reading == crate::line::ReadingView::Line(line),
                Front::Malformed => reading == crate::line::ReadingView::Failed(Error::Protocol),
                Front::Incomplete => reading == (if until - now > 0 {
                    crate::line::ReadingView::Wait(until - now)
                } else {
                    crate::line::ReadingView::Failed(Error::Timeout)
                }),
            }
        }),
        client.line(until, now).0 == (ClientView {
            buffer: crate::line::front(client.buffer).1,
            ..client
        }),
{
}

} // verus!
