//! What every request keeps, whatever the receiver and the network do.
use crate::client::{ClientView, NextView, QUIET, TIMEOUT};
use crate::command::CommandView;
use crate::error::Error;
use crate::exchange::{
    ErrandView, ListeningView, QuestionView, ReplyView, SendingView, StepView,
};
use crate::line::Front;
use crate::laws::run::{Happening, Request};
use crate::state::Key;
use vstd::prelude::*;

verus! {

/// What a request does at one time, as far as it is the same for all of them.
pub open spec fn in_order(before: ClientView, now: int, after: ClientView, step: StepView) -> bool {
    &&& before.coherent() ==> after.coherent()
    &&& after.send_after == before.send_after
    &&& after.fresh == before.fresh
    &&& match step {
        StepView::Receive { listening, wait } => {
            &&& crate::line::front(after.buffer) == (Front::Incomplete, after.buffer)
            &&& wait == listening.until() - now
            &&& wait > 0
        },
        StepView::Send { sending: _, pause, bytes: _ } => {
            &&& now + pause >= after.send_after
            &&& pause >= 0
            &&& pause > 0 ==> now + pause == after.send_after
        },
        StepView::Done(ReplyView::State(state)) => state == after.state,
        StepView::Done(ReplyView::Event(Some(state))) => state == after.state,
        StepView::Done(_) => true,
        StepView::Failed(error) => error == Error::Protocol || error == Error::Timeout,
    }
}

proof fn lemma_noted_is_coherent(client: ClientView, line: Seq<char>, now: int)
    requires
        client.coherent(),
    ensures
        client.noted(line, now).coherent(),
{
    let noted = client.noted(line, now);
    assert forall|key: Key| #[trigger] noted.seen(key) implies noted.state.has(key) by {
        if crate::state::key_of(line) != Some(key) {
            assert(client.seen(key));
        }
    }
}

proof fn lemma_proceed_is_in_order(client: ClientView, at: ListeningView, now: int)
    ensures
        ({
            let (later, step) = client.proceed(at, now);
            in_order(client, now, later, step)
        }),
    decreases client.buffer.len(), (if at.until() <= now { 1int } else { 0int }),
{
    crate::line::lemma_front_shrinks(client.buffer);
    crate::laws::wire::law_what_waits_is_short(client.buffer);
    let (front, rest) = crate::line::front(client.buffer);
    let left = ClientView { buffer: rest, ..client };
    if client.coherent() {
        assert forall|key: Key| #[trigger] left.seen(key) implies left.state.has(key) by {
            assert(client.seen(key));
        }
    }
    match front {
        Front::Malformed => {},
        Front::Incomplete => if now >= at.until() {
            if let NextView::Listen(next) = left.lapsed(at, now) {
                lemma_proceed_is_in_order(left, next, now);
            }
        },
        Front::Line(line) => {
            let noted = left.noted(line, now);
            if client.coherent() {
                lemma_noted_is_coherent(left, line, now);
            }
            if let NextView::Listen(next) = noted.heard(at, line, now) {
                lemma_proceed_is_in_order(noted, next, now);
            }
        },
    }
}

/// Whether a request that needs more bytes has taken all the lines that are
/// there.
pub open spec fn settled(client: ClientView, step: StepView) -> bool {
    step is Receive ==> crate::line::front(client.buffer) == (Front::Incomplete, client.buffer)
}

/// When the next line may be sent, once one has been.
pub open spec fn next_send(sending: SendingView, now: int) -> int {
    if sending == SendingView::Command(CommandView::Power(true)) {
        now + 1_000_000_000
    } else {
        now + 50_000_000
    }
}

/// How long a line waits at a time that may not be sent before another.
pub open spec fn rest_until(earliest: int, now: int) -> int {
    if now < earliest {
        earliest - now
    } else {
        0
    }
}

proof fn lemma_begin_is_in_order(client: ClientView, request: Request, now: int)
    ensures
        ({
            let (begun, step) = client.begin(request, now);
            &&& client.coherent() ==> begun.coherent()
            &&& settled(begun, step)
            &&& begun.send_after == client.send_after
            &&& !(step matches StepView::Failed(error) && error is Storage)
        }),
{
    let until = now + QUIET;
    match request {
        Request::Status => {
            lemma_proceed_is_in_order(
                client,
                ListeningView::Drain { errand: ErrandView::Settle, until },
                now,
            );
        },
        Request::Command(command) => if let Some(line) = command.line() {
            lemma_proceed_is_in_order(
                client,
                ListeningView::Drain { errand: ErrandView::Issue { command, line }, until },
                now,
            );
        },
        Request::Sources => {
            lemma_proceed_is_in_order(
                client,
                ListeningView::Drain {
                    errand: ErrandView::Pose(QuestionView::Sources(seq![])),
                    until,
                },
                now,
            );
        },
        Request::Event { wait } => {
            lemma_proceed_is_in_order(client, ListeningView::Watch { until: now + wait }, now);
        },
    }
}

proof fn lemma_react_is_in_order(client: ClientView, step: StepView, what: Happening)
    requires
        settled(client, step),
        !(step matches StepView::Failed(error) && error is Storage),
    ensures
        ({
            let (later, next) = client.react(step, what);
            &&& client.coherent() ==> later.coherent()
            &&& settled(later, next)
            &&& later.send_after == (if step is Send && what is Sent {
                next_send(step->sending, what->Sent_now)
            } else {
                client.send_after
            })
            &&& step is Receive && next is Send ==> {
                &&& crate::laws::run::time_of(what) is Some
                &&& next->pause == rest_until(
                    later.send_after,
                    crate::laws::run::time_of(what)->0,
                )
            }
            &&& !(next matches StepView::Failed(error) && error is Storage)
        }),
{
    match step {
        StepView::Receive { listening, wait: _ } => match what {
            Happening::Received { bytes, now } => {
                let fed = ClientView { buffer: client.buffer + bytes, ..client };
                if client.coherent() {
                    assert forall|key: Key| #[trigger] fed.seen(key) implies fed.state.has(key) by {
                        assert(client.seen(key));
                    }
                }
                lemma_proceed_is_in_order(fed, listening, now);
            },
            Happening::ReadFailed { fault, now } => if fault.is_timeout() {
                if let NextView::Listen(next) = client.lapsed(listening, now) {
                    lemma_proceed_is_in_order(client, next, now);
                }
            },
            _ => {},
        },
        StepView::Send { sending, pause: _, bytes: _ } => if let Happening::Sent { now } = what {
            let sent = ClientView { send_after: next_send(sending, now), ..client };
            if client.coherent() {
                assert forall|key: Key| #[trigger] sent.seen(key) implies sent.state.has(key) by {
                    assert(client.seen(key));
                }
            }
            match sending {
                SendingView::Command(command) => {
                    lemma_proceed_is_in_order(
                        sent,
                        ListeningView::Drain {
                            errand: ErrandView::Pose(QuestionView::Confirm(command)),
                            until: now + QUIET,
                        },
                        now,
                    );
                },
                SendingView::Question(question) => {
                    lemma_proceed_is_in_order(
                        sent,
                        ListeningView::Answer { question, until: now + TIMEOUT },
                        now,
                    );
                },
            }
        },
        _ => {},
    }
}

proof fn lemma_run_is_in_order(client: ClientView, step: StepView, course: Seq<Happening>)
    requires
        settled(client, step),
        !(step matches StepView::Failed(error) && error is Storage),
    ensures
        ({
            let (later, end) = client.run(step, course);
            &&& client.coherent() ==> later.coherent()
            &&& settled(later, end)
            &&& (forall|i: int| 0 <= i < course.len() ==> !(#[trigger] course[i] is Sent))
                ==> later.send_after == client.send_after
            &&& !(end matches StepView::Failed(error) && error is Storage)
        }),
    decreases course.len(),
{
    if course.len() > 0 {
        let what = course.first();
        let rest = course.drop_first();
        lemma_react_is_in_order(client, step, what);
        let (later, next) = client.react(step, what);
        lemma_run_is_in_order(later, next, rest);
        if forall|i: int| 0 <= i < course.len() ==> !(#[trigger] course[i] is Sent) {
            assert(forall|i: int| 0 <= i < rest.len() ==> !(#[trigger] rest[i] is Sent));
        }
    }
}

/// A new connection has observed nothing and knows nothing, has nothing to read
/// and may write at once; what it will observe it takes as current for ten
/// seconds.
pub proof fn law_a_new_connection_knows_nothing(now: int)
    ensures
        ({
            let client = ClientView::new(now);
            &&& client.coherent()
            &&& client.buffer.len() == 0
            &&& client.state.on is None
            &&& client.state.muted is None
            &&& client.state.volume_db is None
            &&& !client.state.volume_minimum
            &&& client.state.input is None
            &&& client.send_after == now
            &&& client.fresh == 10_000_000_000
            &&& client.observed.len() == 4
            &&& forall|place: int| 0 <= place < 4 ==> #[trigger] client.observed[place] is None
        }),
        forall|key: Key| !#[trigger] ClientView::new(now).seen(key),
        forall|key: Key, later: int| !#[trigger] ClientView::new(now).current(key, later),
{
    let client = ClientView::new(now);
    assert(forall|key: Key| !#[trigger] client.seen(key));
    assert(forall|key: Key, later: int| !#[trigger] client.current(key, later));
}

/// A value is current while less time than the window has passed since it was
/// observed, and not from then on; one that was never observed is not current.
pub proof fn law_a_value_is_current_for_its_window(client: ClientView, key: Key, now: int)
    ensures
        client.current(key, now) <==> {
            &&& client.observed[key.place()] matches Some(seen)
            &&& 0 < client.fresh
            &&& now < seen + client.fresh
        },
{
}

/// Every request keeps the state consistent and with every value that was
/// observed, whatever happens.
pub proof fn law_a_connection_stays_coherent(
    client: ClientView,
    request: Request,
    now: int,
    course: Seq<Happening>,
)
    requires
        client.coherent(),
    ensures
        ({
            let (begun, step) = client.begin(request, now);
            begun.run(step, course).0.coherent()
        }),
{
    lemma_begin_is_in_order(client, request, now);
    let (begun, step) = client.begin(request, now);
    lemma_run_is_in_order(begun, step, course);
}

/// While a request needs more from the receiver, the bytes that are kept hold no
/// end of a line and are no more than a line can have, whatever the receiver
/// sends.
pub proof fn law_what_is_kept_is_short(
    client: ClientView,
    request: Request,
    now: int,
    course: Seq<Happening>,
)
    ensures
        ({
            let (begun, step) = client.begin(request, now);
            let (later, end) = begun.run(step, course);
            end is Receive ==> {
                &&& later.buffer.len() <= crate::line::LONGEST_LINE
                &&& !later.buffer.contains(crate::line::CARRIAGE_RETURN)
            }
        }),
{
    lemma_begin_is_in_order(client, request, now);
    let (begun, step) = client.begin(request, now);
    lemma_run_is_in_order(begun, step, course);
    crate::laws::wire::law_what_waits_is_short(begun.run(step, course).0.buffer);
}

/// No request fails with the error of the settings file.
pub proof fn law_no_request_is_a_storage_failure(
    client: ClientView,
    request: Request,
    now: int,
    course: Seq<Happening>,
)
    ensures
        ({
            let (begun, step) = client.begin(request, now);
            !(begun.run(step, course).1 matches StepView::Failed(error) && error is Storage)
        }),
{
    lemma_begin_is_in_order(client, request, now);
    let (begun, step) = client.begin(request, now);
    lemma_run_is_in_order(begun, step, course);
}

/// Lines of a request keep their distance. Once one has been written, the next
/// one is not written before 50 milliseconds have passed, and after switching on
/// not before a second has passed; it does not wait any longer than that. The
/// connection remembers the time, so that it holds of the next request as well.
pub proof fn law_lines_keep_their_distance(
    client: ClientView,
    sending: SendingView,
    sent_at: int,
    course: Seq<Happening>,
    last: Happening,
)
    requires
        forall|i: int| 0 <= i < course.len() ==> !(#[trigger] course[i] is Sent),
    ensures
        ({
            let (later, step) = client.sent(sending, sent_at);
            let (there, waiting) = later.run(step, course);
            let next = there.react(waiting, last).1;
            &&& there.send_after == next_send(sending, sent_at)
            &&& waiting is Receive && next is Send ==> {
                &&& crate::laws::run::time_of(last) is Some
                &&& next->pause == rest_until(
                    next_send(sending, sent_at),
                    crate::laws::run::time_of(last)->0,
                )
            }
        }),
{
    let before = StepView::Send { sending, pause: 0, bytes: seq![] };
    let written = Happening::Sent { now: sent_at };
    lemma_react_is_in_order(client, before, written);
    let (later, step) = client.sent(sending, sent_at);
    lemma_run_is_in_order(later, step, course);
    let (there, waiting) = later.run(step, course);
    lemma_react_is_in_order(there, waiting, last);
}

/// The first line of a request is not written before the time that the
/// connection remembers, and does not wait any longer.
pub proof fn law_requests_keep_their_distance(
    client: ClientView,
    request: Request,
    now: int,
    course: Seq<Happening>,
    last: Happening,
)
    requires
        forall|i: int| 0 <= i < course.len() ==> !(#[trigger] course[i] is Sent),
    ensures
        ({
            let (begun, step) = client.begin(request, now);
            let (there, waiting) = begun.run(step, course);
            let next = there.react(waiting, last).1;
            waiting is Receive && next is Send ==> {
                &&& crate::laws::run::time_of(last) is Some
                &&& next->pause == rest_until(
                    client.send_after,
                    crate::laws::run::time_of(last)->0,
                )
            }
        }),
{
    lemma_begin_is_in_order(client, request, now);
    let (begun, step) = client.begin(request, now);
    lemma_run_is_in_order(begun, step, course);
    let (there, waiting) = begun.run(step, course);
    lemma_react_is_in_order(there, waiting, last);
}

/// The bytes that are there may as well arrive in two parts.
proof fn lemma_proceed_in_parts(client: ClientView, at: ListeningView, more: Seq<u8>, now: int)
    requires
        now < at.until(),
    ensures
        ({
            let whole = ClientView { buffer: client.buffer + more, ..client };
            let (first, step) = client.proceed(at, now);
            let rest = ClientView { buffer: first.buffer + more, ..first };
            match step {
                StepView::Receive { listening, wait: _ } => {
                    whole.proceed(at, now) == rest.proceed(listening, now)
                },
                _ => whole.proceed(at, now) == (rest, step),
            }
        }),
    decreases client.buffer.len(),
{
    crate::line::lemma_front_shrinks(client.buffer);
    crate::laws::wire::law_later_bytes_change_no_line(client.buffer, more);
    let (front, rest) = crate::line::front(client.buffer);
    let whole = ClientView { buffer: client.buffer + more, ..client };
    if let Front::Line(line) = front {
        let left = ClientView { buffer: rest, ..client };
        let noted = left.noted(line, now);
        let all = ClientView { buffer: rest + more, ..whole }.noted(line, now);
        assert forall|key: Key| #[trigger] all.current(key, now) == noted.current(key, now) by {}
        if let NextView::Listen(next) = noted.heard(at, line, now) {
            lemma_proceed_in_parts(noted, next, more, now);
        }
    }
}

/// How what the receiver sends is cut into reads does not matter: two reads at
/// one time, while the wait lasts, come to the same as one read of both. Where
/// the first of them ends the request, what came behind is kept for the next.
pub proof fn law_cuts_do_not_matter(
    client: ClientView,
    listening: ListeningView,
    first: Seq<u8>,
    second: Seq<u8>,
    now: int,
)
    requires
        now < listening.until(),
        first.len() > 0,
        second.len() > 0,
    ensures
        ({
            let (between, step) = client.received(listening, first, now);
            let whole = client.received(listening, first + second, now);
            match step {
                StepView::Receive { listening: next, wait: _ } => {
                    whole == between.received(next, second, now)
                },
                _ => whole == (
                    ClientView { buffer: between.buffer + second, ..between },
                    step,
                ),
            }
        }),
{
    let fed = ClientView { buffer: client.buffer + first, ..client };
    assert(client.buffer + (first + second) =~= fed.buffer + second);
    lemma_proceed_in_parts(fed, listening, second, now);
}

/// Whether what comes of a line does not depend on the time, while a wait lasts.
/// It does for the answer to a question of a status, behind which only what is
/// not current is asked for.
pub open spec fn timeless(listening: ListeningView) -> bool {
    !(listening matches ListeningView::Answer { question, until: _ } && question is Status)
}

/// Whether two connections differ at most in when their values were observed.
pub open spec fn even(a: ClientView, b: ClientView) -> bool {
    &&& a.buffer == b.buffer
    &&& a.state == b.state
    &&& a.send_after == b.send_after
    &&& a.fresh == b.fresh
}

/// While a wait lasts, it does not matter when values were observed.
proof fn lemma_proceed_evenly(a: ClientView, b: ClientView, at: ListeningView, now: int)
    requires
        crate::laws::lines::alike(a.buffer, b.buffer),
        even(a, ClientView { buffer: a.buffer, ..b }),
        timeless(at),
        now < at.until(),
    ensures
        ({
            let (one, step) = a.proceed(at, now);
            let (other, same) = b.proceed(at, now);
            step == same && even(one, other)
        }),
    decreases a.buffer.len(),
{
    crate::line::lemma_front_shrinks(a.buffer);
    let (front, rest) = crate::line::front(a.buffer);
    if let Front::Line(line) = front {
        let one = ClientView { buffer: rest, ..a }.noted(line, now);
        let other = ClientView { buffer: rest, ..b }.noted(line, now);
        if let NextView::Listen(next) = one.heard(at, line, now) {
            lemma_proceed_evenly(one, other, next, now);
        }
    }
}

proof fn lemma_proceed_at_two_times(
    client: ClientView,
    whole: ClientView,
    at: ListeningView,
    more: Seq<u8>,
    now: int,
    then: int,
)
    requires
        even(whole, ClientView { buffer: client.buffer + more, ..client }),
        timeless(at),
        now < at.until(),
        then < at.until(),
    ensures
        ({
            let (between, step) = client.proceed(at, now);
            let (later, end) = whole.proceed(at, then);
            let rest = ClientView { buffer: between.buffer + more, ..between };
            match step {
                StepView::Receive { listening, wait: _ } => {
                    &&& timeless(listening)
                    &&& end == rest.proceed(listening, then).1
                    &&& even(later, rest.proceed(listening, then).0)
                },
                _ => end == step && even(later, rest),
            }
        }),
    decreases client.buffer.len(),
{
    crate::line::lemma_front_shrinks(client.buffer);
    crate::laws::wire::law_later_bytes_change_no_line(client.buffer, more);
    let (front, rest) = crate::line::front(client.buffer);
    let left = ClientView { buffer: rest, ..client };
    match front {
        Front::Malformed => {},
        Front::Incomplete => {
            lemma_proceed_evenly(whole, ClientView { buffer: rest + more, ..left }, at, then);
        },
        Front::Line(line) => {
            let noted = left.noted(line, now);
            let all = ClientView { buffer: rest + more, ..whole }.noted(line, then);
            if let NextView::Listen(next) = noted.heard(at, line, now) {
                lemma_proceed_at_two_times(noted, all, next, more, now, then);
            }
        },
    }
}

/// How what the receiver sends is cut into reads does not matter at different
/// times either, while the wait lasts and unless it is for the answer to a
/// question of a status: two reads come to the same step, the same state and the
/// same bytes left as one read of both at the time of the second. Only the times
/// differ at which values were observed. Where the first read ends the request,
/// what came behind is kept for the next.
pub proof fn law_cuts_do_not_matter_over_time(
    client: ClientView,
    listening: ListeningView,
    first: Seq<u8>,
    second: Seq<u8>,
    now: int,
    then: int,
)
    requires
        timeless(listening),
        now < listening.until(),
        then < listening.until(),
        first.len() > 0,
        second.len() > 0,
    ensures
        ({
            let (between, step) = client.received(listening, first, now);
            let (later, end) = client.received(listening, first + second, then);
            match step {
                StepView::Receive { listening: next, wait: _ } => {
                    let (other, same) = between.received(next, second, then);
                    end == same && even(later, other)
                },
                _ => end == step && even(
                    later,
                    ClientView { buffer: between.buffer + second, ..between },
                ),
            }
        }),
{
    let fed = ClientView { buffer: client.buffer + first, ..client };
    let whole = ClientView { buffer: client.buffer + (first + second), ..client };
    assert(whole.buffer =~= fed.buffer + second);
    lemma_proceed_at_two_times(fed, whole, listening, second, now, then);
}

} // verus!
