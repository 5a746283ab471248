//! What holds of the reports that are waited for.
use crate::client::{ClientView, NextView};
use crate::exchange::{ListeningView, ReplyView, StepView};
use crate::laws::run::Happening;
use crate::line::Front;
use crate::state::StateView;
use vstd::prelude::*;

verus! {

/// The states after each of the reports among lines, in order.
pub open spec fn events_of(state: StateView, lines: Seq<Seq<char>>) -> Seq<StateView>
    decreases lines.len(),
{
    if lines.len() == 0 {
        seq![]
    } else {
        let after = state.after(lines.first());
        let rest = events_of(after, lines.drop_first());
        if crate::state::key_of(lines.first()) is Some {
            seq![after] + rest
        } else {
            rest
        }
    }
}

/// The events that a step ends with: one or none.
pub open spec fn told(step: StepView) -> Seq<StateView> {
    match step {
        StepView::Done(ReplyView::Event(Some(state))) => seq![state],
        _ => seq![],
    }
}

/// Whether a step belongs to a wait for a report.
pub open spec fn watches(step: StepView) -> bool {
    match step {
        StepView::Receive { listening, wait: _ } => listening is Watch,
        StepView::Send { sending: _, pause: _, bytes: _ } => false,
        StepView::Done(reply) => reply is Event,
        StepView::Failed(_) => true,
    }
}

/// Whether events are those of the lines that the bytes of a connection begin
/// with: the states after each of the reports among them, once these lines have
/// been taken and no others.
pub open spec fn told_by(
    client: ClientView,
    bytes: Seq<u8>,
    lines: Seq<Seq<char>>,
    later: ClientView,
    events: Seq<StateView>,
) -> bool {
    let all = client.buffer + bytes;
    &&& crate::laws::lines::opens(all, lines)
    &&& events == events_of(client.state, lines)
    &&& later.state == crate::laws::lines::after_lines(client.state, lines)
    &&& crate::laws::lines::alike(crate::laws::lines::behind(all, lines), later.buffer)
}

/// Whether a step is that of the lines that the bytes of a connection begin with.
/// Where it tells nothing, no whole line is left.
pub open spec fn follows(
    client: ClientView,
    bytes: Seq<u8>,
    lines: Seq<Seq<char>>,
    later: ClientView,
    step: StepView,
) -> bool {
    &&& told_by(client, bytes, lines, later, told(step))
    &&& told(step).len() == 0 ==> crate::line::front(later.buffer).0 == Front::Incomplete
}

proof fn lemma_events_of_both(state: StateView, first: Seq<Seq<char>>, second: Seq<Seq<char>>)
    ensures
        events_of(state, first + second) == events_of(state, first) + events_of(
            crate::laws::lines::after_lines(state, first),
            second,
        ),
    decreases first.len(),
{
    if first.len() == 0 {
        assert(first + second =~= second);
    } else {
        assert((first + second).drop_first() =~= first.drop_first() + second);
        lemma_events_of_both(state.after(first.first()), first.drop_first(), second);
    }
}

proof fn lemma_proceed_watches(client: ClientView, until: int, now: int) -> (lines: Seq<Seq<char>>)
    ensures
        ({
            let (later, step) = client.proceed(ListeningView::Watch { until }, now);
            &&& watches(step)
            &&& step is Failed || follows(client, seq![], lines, later, step)
        }),
    decreases client.buffer.len(),
{
    let at = ListeningView::Watch { until };
    crate::line::lemma_front_shrinks(client.buffer);
    crate::laws::wire::law_what_waits_is_short(client.buffer);
    assert(client.buffer + Seq::<u8>::empty() =~= client.buffer);
    let (front, rest) = crate::line::front(client.buffer);
    let left = ClientView { buffer: rest, ..client };
    if let Front::Line(line) = front {
        let noted = left.noted(line, now);
        assert(rest + Seq::<u8>::empty() =~= rest);
        let tail = if let NextView::Listen(_) = noted.heard(at, line, now) {
            lemma_proceed_watches(noted, until, now)
        } else {
            seq![]
        };
        crate::laws::lines::lemma_opens_none(rest, noted.state);
        assert(events_of(noted.state, seq![]) == Seq::<StateView>::empty());
        if !(client.proceed(at, now).1 is Failed) {
            crate::laws::lines::lemma_opens_next(client.buffer, client.state, tail);
        }
        assert((seq![line] + tail).drop_first() =~= tail);
        seq![line] + tail
    } else {
        seq![]
    }
}

proof fn lemma_run_watches(client: ClientView, step: StepView, course: Seq<Happening>) -> (lines: Seq<
    Seq<char>,
>)
    requires
        step matches StepView::Receive { listening, wait: _ } && listening is Watch,
        crate::line::front(client.buffer).0 == Front::Incomplete,
    ensures
        ({
            let (later, end) = client.run(step, course);
            &&& watches(end)
            &&& end is Failed || follows(client, client.taken(step, course), lines, later, end)
        }),
    decreases course.len(),
{
    if course.len() == 0 {
        assert(client.buffer + client.taken(step, course) =~= client.buffer);
        seq![]
    } else {
        let what = course.first();
        let rest = course.drop_first();
        let until = step->listening->Watch_until;
        let (later, next) = client.react(step, what);
        let more = later.taken(next, rest);
        match what {
            Happening::Received { bytes, now } => {
                let fed = ClientView { buffer: client.buffer + bytes, ..client };
                let first = lemma_proceed_watches(fed, until, now);
                assert(client.buffer + client.taken(step, course) =~= fed.buffer + more);
                assert(fed.buffer + Seq::<u8>::empty() =~= fed.buffer);
                if next is Receive {
                    let second = lemma_run_watches(later, next, rest);
                    if !(client.run(step, course).1 is Failed) {
                        crate::laws::lines::lemma_opens_later(
                            fed.buffer,
                            first,
                            later.buffer,
                            more,
                            second,
                        );
                    }
                    crate::laws::lines::lemma_after_both(client.state, first, second);
                    lemma_events_of_both(client.state, first, second);
                    first + second
                } else {
                    crate::laws::run::lemma_over_is_over(later, next, rest);
                    first
                }
            },
            Happening::ReadFailed { fault: _, now: _ } => {
                crate::laws::run::lemma_over_is_over(later, next, rest);
                assert(client.buffer + client.taken(step, course) =~= client.buffer);
                seq![]
            },
            _ => {
                assert(client.taken(step, course) =~= more);
                lemma_run_watches(later, next, rest)
            },
        }
    }
}

/// To wait for a report tells one report at most, and loses nothing. Whatever
/// happens, short of a failure: the bytes of the connection begin with lines with
/// one report among them, and the event is the state after it, or they begin with
/// lines without a report, and there is no event and no whole line left. What
/// stands behind these lines is kept.
pub proof fn law_an_event_is_one_report(
    client: ClientView,
    wait: int,
    now: int,
    course: Seq<Happening>,
)
    ensures
        ({
            let (begun, step) = client.next_event(wait, now);
            let (later, end) = begun.run(step, course);
            &&& watches(end)
            &&& end is Failed || exists|lines: Seq<Seq<char>>| #[trigger]
                follows(client, begun.taken(step, course), lines, later, end)
        }),
{
    let lines = lemma_call(client, wait, now, course);
}

proof fn lemma_call(client: ClientView, wait: int, now: int, course: Seq<Happening>) -> (lines: Seq<
    Seq<char>,
>)
    ensures
        ({
            let (begun, step) = client.next_event(wait, now);
            let (later, end) = begun.run(step, course);
            &&& watches(end)
            &&& end is Failed || follows(client, begun.taken(step, course), lines, later, end)
        }),
{
    let (begun, step) = client.next_event(wait, now);
    let first = lemma_proceed_watches(client, now + wait, now);
    let more = begun.taken(step, course);
    assert(client.buffer + Seq::<u8>::empty() =~= client.buffer);
    if step is Receive {
        let second = lemma_run_watches(begun, step, course);
        if !(begun.run(step, course).1 is Failed) {
            crate::laws::lines::lemma_opens_later(client.buffer, first, begun.buffer, more, second);
        }
        crate::laws::lines::lemma_after_both(client.state, first, second);
        lemma_events_of_both(client.state, first, second);
        first + second
    } else {
        crate::laws::run::lemma_over_is_over(begun, step, course);
        first
    }
}

/// A report that is there is told at once, whether or not there is time to wait.
pub proof fn law_a_report_that_is_there_is_told(
    client: ClientView,
    wait: int,
    now: int,
    lines: Seq<Seq<char>>,
    report: Seq<char>,
)
    requires
        crate::laws::lines::opens(client.buffer, lines.push(report)),
        forall|i: int| 0 <= i < lines.len() ==> crate::state::key_of(#[trigger] lines[i]) is None,
        crate::state::key_of(report) is Some,
    ensures
        ({
            let (later, step) = client.next_event(wait, now);
            &&& step == StepView::Done(ReplyView::Event(Some(client.state.after(report))))
            &&& later.buffer == crate::laws::lines::behind(client.buffer, lines.push(report))
        }),
{
    lemma_proceed_tells(client, now + wait, now, lines, report);
}

proof fn lemma_proceed_tells(
    client: ClientView,
    until: int,
    now: int,
    lines: Seq<Seq<char>>,
    report: Seq<char>,
)
    requires
        crate::laws::lines::opens(client.buffer, lines.push(report)),
        forall|i: int| 0 <= i < lines.len() ==> crate::state::key_of(#[trigger] lines[i]) is None,
        crate::state::key_of(report) is Some,
    ensures
        ({
            let (later, step) = client.proceed(ListeningView::Watch { until }, now);
            &&& step == StepView::Done(ReplyView::Event(Some(client.state.after(report))))
            &&& later.buffer == crate::laws::lines::behind(client.buffer, lines.push(report))
        }),
    decreases lines.len(),
{
    let all = lines.push(report);
    let rest = crate::line::front(client.buffer).1;
    let left = ClientView { buffer: rest, ..client };
    if lines.len() == 0 {
        assert(all.drop_first() =~= seq![]);
        crate::laws::lines::lemma_opens_none(rest, client.state);
    } else {
        let line = lines[0];
        assert(all.first() == line);
        assert(all.drop_first() =~= lines.drop_first().push(report));
        let noted = left.noted(line, now);
        lemma_proceed_tells(noted, until, now, lines.drop_first(), report);
    }
}

/// One wait for a report.
pub struct Call {
    pub wait: int,
    pub now: int,
    pub course: Seq<Happening>,
}

/// What a number of waits come to, one after the other: the connection, the bytes
/// that they took, and their events. There is nothing to say once one of them
/// fails, or is left before it is over.
pub open spec fn watched(client: ClientView, calls: Seq<Call>) -> Option<
    (ClientView, Seq<u8>, Seq<StateView>),
>
    decreases calls.len(),
{
    if calls.len() == 0 {
        Some((client, seq![], seq![]))
    } else {
        let call = calls.first();
        let (begun, step) = client.next_event(call.wait, call.now);
        let (later, end) = begun.run(step, call.course);
        if end is Done {
            match watched(later, calls.drop_first()) {
                Some((last, taken, events)) => Some(
                    (last, begun.taken(step, call.course) + taken, told(end) + events),
                ),
                None => None,
            }
        } else {
            None
        }
    }
}

proof fn lemma_watched(client: ClientView, calls: Seq<Call>) -> (lines: Seq<Seq<char>>)
    ensures
        watched(client, calls) matches Some((last, taken, events)) ==> told_by(
            client,
            taken,
            lines,
            last,
            events,
        ),
    decreases calls.len(),
{
    if calls.len() == 0 {
        assert(client.buffer + Seq::<u8>::empty() =~= client.buffer);
        seq![]
    } else {
        let call = calls.first();
        let (begun, step) = client.next_event(call.wait, call.now);
        let (later, end) = begun.run(step, call.course);
        let first = lemma_call(client, call.wait, call.now, call.course);
        let second = lemma_watched(later, calls.drop_first());
        if watched(client, calls) is Some {
            let (last, more, events) = watched(later, calls.drop_first())->0;
            let here = begun.taken(step, call.course);
            assert(client.buffer + (here + more) =~= (client.buffer + here) + more);
            crate::laws::lines::lemma_opens_later(
                client.buffer + here,
                first,
                later.buffer,
                more,
                second,
            );
            crate::laws::lines::lemma_after_both(client.state, first, second);
            lemma_events_of_both(client.state, first, second);
        }
        first + second
    }
}

/// Events come one by one and in order, over any number of waits: they are the
/// states after each of the reports among the lines that the connection has
/// taken, no two of them in one and none left out, and what stands behind these
/// lines is kept.
pub proof fn law_events_come_one_by_one(client: ClientView, calls: Seq<Call>)
    ensures
        watched(client, calls) matches Some((last, taken, events)) ==> exists|
            lines: Seq<Seq<char>>,
        | #[trigger]
            told_by(client, taken, lines, last, events),
{
    let lines = lemma_watched(client, calls);
}

/// Whether no line tells a value.
pub open spec fn idle(lines: Seq<Seq<char>>) -> bool {
    forall|i: int|
        0 <= i < lines.len() ==> crate::laws::words::value_in(#[trigger] lines[i]) is None
}

proof fn lemma_proceed_keeps_watch(
    client: ClientView,
    until: int,
    now: int,
    lines: Seq<Seq<char>>,
)
    requires
        now < until,
        crate::laws::lines::holds(client.buffer, lines),
        idle(lines),
    ensures
        ({
            let (later, step) = client.proceed(ListeningView::Watch { until }, now);
            &&& step == (StepView::Receive {
                listening: ListeningView::Watch { until },
                wait: until - now,
            })
            &&& later.buffer == crate::laws::lines::left_over(client.buffer, lines)
            &&& later.state == client.state
        }),
    decreases lines.len(),
{
    if lines.len() > 0 {
        let tail = lines.drop_first();
        let rest = crate::line::front(client.buffer).1;
        crate::laws::words::law_reports_are_complete(lines[0]);
        assert(crate::laws::words::value_in(lines[0]) is None);
        assert forall|i: int| 0 <= i < tail.len() implies crate::laws::words::value_in(
            #[trigger] tail[i],
        ) is None by {
            assert(tail[i] == lines[i + 1]);
        }
        lemma_proceed_keeps_watch(
            ClientView { buffer: rest, ..client }.noted(lines[0], now),
            until,
            now,
            tail,
        );
    }
}

proof fn lemma_run_keeps_watch(
    client: ClientView,
    step: StepView,
    course: Seq<Happening>,
    lines: Seq<Seq<char>>,
    until: int,
)
    requires
        step is Receive,
        step->listening == (ListeningView::Watch { until }),
        crate::laws::run::arrivals(course, until),
        crate::laws::lines::holds(client.buffer + crate::laws::run::arrived(course), lines),
        crate::line::front(client.buffer) == (Front::Incomplete, client.buffer),
        idle(lines),
    ensures
        ({
            let (later, end) = client.run(step, course);
            let all = client.buffer + crate::laws::run::arrived(course);
            &&& end is Receive
            &&& end->listening == step->listening
            &&& end->wait == (if course.len() == 0 {
                step->wait
            } else {
                until - crate::laws::run::time_of(course.last())->0
            })
            &&& later.buffer == crate::laws::lines::left_over(all, lines)
            &&& later.state == client.state
        }),
    decreases course.len(),
{
    if course.len() == 0 {
        assert(client.buffer + crate::laws::run::arrived(course) =~= client.buffer);
        assert(lines.len() == 0);
    } else {
        let rest = course.drop_first();
        let more = crate::laws::run::arrived(rest);
        if let Happening::Received { bytes, now } = course.first() {
            let fed = ClientView { buffer: client.buffer + bytes, ..client };
            assert(client.buffer + crate::laws::run::arrived(course) =~= fed.buffer + more);
            let there = crate::laws::lines::lemma_holds_in_parts(fed.buffer, more, lines);
            let (first, second) = (lines.take(there), lines.skip(there));
            assert forall|i: int| 0 <= i < second.len() implies crate::laws::words::value_in(
                #[trigger] second[i],
            ) is None by {
                assert(second[i] == lines[i + there]);
            }
            lemma_proceed_keeps_watch(fed, until, now, first);
            crate::laws::wire::law_what_waits_is_short(
                crate::laws::lines::behind(fed.buffer, first),
            );
            let (later, next) = client.react(step, course.first());
            lemma_run_keeps_watch(later, next, rest, second, until);
        }
    }
}

/// A report is waited for as long as was asked: where no line tells anything, the
/// first step waits for exactly the time that was given, and each later one, at the
/// time when bytes have arrived, for what is left of it.
pub proof fn law_a_report_is_waited_for_as_long_as_asked(
    client: ClientView,
    wait: int,
    now: int,
    course: Seq<Happening>,
    lines: Seq<Seq<char>>,
)
    requires
        wait > 0,
        crate::laws::run::arrivals(course, now + wait),
        crate::laws::lines::holds(client.buffer + crate::laws::run::arrived(course), lines),
        idle(lines),
    ensures
        ({
            let (begun, step) = client.next_event(wait, now);
            let (later, end) = begun.run(step, course);
            let all = client.buffer + crate::laws::run::arrived(course);
            &&& step is Receive
            &&& step->wait == wait
            &&& end is Receive
            &&& end->wait == now + wait - crate::laws::timing::last_time(course, now)
            &&& later.state == client.state
            &&& later.buffer == crate::laws::lines::left_over(all, lines)
        }),
{
    let more = crate::laws::run::arrived(course);
    let until = now + wait;
    let (begun, step) = client.next_event(wait, now);
    let there = crate::laws::lines::lemma_holds_in_parts(client.buffer, more, lines);
    let (first, second) = (lines.take(there), lines.skip(there));
    assert forall|i: int| 0 <= i < second.len() implies crate::laws::words::value_in(
        #[trigger] second[i],
    ) is None by {
        assert(second[i] == lines[i + there]);
    }
    lemma_proceed_keeps_watch(client, until, now, first);
    crate::laws::wire::law_what_waits_is_short(
        crate::laws::lines::behind(client.buffer, first),
    );
    lemma_run_keeps_watch(begun, step, course, second, until);
}

/// A report that comes in time is told: after any wait in which no line has told
/// anything, the next line that tells a value ends the wait, with the state after
/// it.
pub proof fn law_a_report_in_time_is_told(
    client: ClientView,
    wait: int,
    now: int,
    course: Seq<Happening>,
    lines: Seq<Seq<char>>,
    bytes: Seq<u8>,
    more: Seq<Seq<char>>,
    report: Seq<char>,
    then: int,
)
    requires
        wait > 0,
        crate::laws::run::arrivals(course, now + wait),
        ({
            let all = client.buffer + crate::laws::run::arrived(course);
            &&& crate::laws::lines::holds(all, lines)
            &&& crate::laws::lines::opens(
                crate::laws::lines::left_over(all, lines) + bytes,
                more.push(report),
            )
        }),
        idle(lines),
        idle(more),
        bytes.len() > 0,
        crate::laws::words::value_in(report) is Some,
    ensures
        ({
            let (begun, step) = client.next_event(wait, now);
            let (later, end) = begun.run(step, course);
            later.react(end, Happening::Received { bytes, now: then }).1 == StepView::Done(
                ReplyView::Event(Some(client.state.after(report))),
            )
        }),
{
    law_a_report_is_waited_for_as_long_as_asked(client, wait, now, course, lines);
    let (begun, step) = client.next_event(wait, now);
    let (later, end) = begun.run(step, course);
    crate::laws::words::law_reports_are_complete(report);
    assert forall|i: int| 0 <= i < more.len() implies crate::state::key_of(
        #[trigger] more[i],
    ) is None by {
        crate::laws::words::law_reports_are_complete(more[i]);
        assert(crate::laws::words::value_in(more[i]) is None);
    }
    law_an_event_is_one_report(client, wait, now, course);
    lemma_proceed_tells(
        ClientView { buffer: later.buffer + bytes, ..later },
        end->listening->Watch_until,
        then,
        more,
        report,
    );
}

/// Where there is no time to wait and no line tells anything, there is no event.
pub proof fn law_without_time_there_is_no_event(
    client: ClientView,
    wait: int,
    now: int,
    lines: Seq<Seq<char>>,
)
    requires
        wait <= 0,
        crate::laws::lines::holds(client.buffer, lines),
        idle(lines),
    ensures
        client.next_event(wait, now).1 == StepView::Done(ReplyView::Event(None)),
{
    lemma_proceed_gives_up(client, now + wait, now, lines);
}

proof fn lemma_proceed_gives_up(
    client: ClientView,
    until: int,
    now: int,
    lines: Seq<Seq<char>>,
)
    requires
        until <= now,
        crate::laws::lines::holds(client.buffer, lines),
        idle(lines),
    ensures
        client.proceed((ListeningView::Watch { until }), now).1 == StepView::Done(
            ReplyView::Event(None),
        ),
    decreases lines.len(),
{
    if lines.len() > 0 {
        let tail = lines.drop_first();
        let rest = crate::line::front(client.buffer).1;
        crate::laws::words::law_reports_are_complete(lines[0]);
        assert(crate::laws::words::value_in(lines[0]) is None);
        assert forall|i: int| 0 <= i < tail.len() implies crate::laws::words::value_in(
            #[trigger] tail[i],
        ) is None by {
            assert(tail[i] == lines[i + 1]);
        }
        lemma_proceed_gives_up(
            ClientView { buffer: rest, ..client }.noted(lines[0], now),
            until,
            now,
            tail,
        );
    }
}

} // verus!
