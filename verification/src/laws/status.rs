//! What holds of a status, whatever the receiver and the network do.
use crate::client::{ClientView, NextView, PACE, QUIET, TIMEOUT};
use crate::error::Fault;
use crate::exchange::{
    ErrandView, ListeningView, QuestionView, ReplyView, SendingView, StepView,
};
use crate::line::Front;
use crate::laws::run::{Happening, Request};
use crate::state::Key;
use vstd::prelude::*;

verus! {

/// Whether a sequence is another one with some of its elements left out.
pub open spec fn within<A>(part: Seq<A>, whole: Seq<A>) -> bool
    decreases whole.len(),
{
    if part.len() == 0 {
        true
    } else if whole.len() == 0 {
        false
    } else {
        ||| part.first() == whole.first() && within(part.drop_first(), whole.drop_first())
        ||| within(part, whole.drop_first())
    }
}

/// Whether a value was observed at a time or later, or so shortly before it that
/// it was current then.
pub open spec fn recent(client: ClientView, key: Key, start: int) -> bool {
    match client.observed[key.place()] {
        Some(seen) => seen >= start || start - seen < client.fresh,
        None => false,
    }
}

/// Whether the values in front of a place are all recent.
pub open spec fn recent_below(client: ClientView, place: int, start: int) -> bool {
    &&& client.observed.len() == 4
    &&& forall|key: Key| key.place() < place ==> #[trigger] recent(client, key, start)
}

/// Whether a status has reached a place: the wait is one of a status, and the
/// values in front of the place are all recent.
pub open spec fn waits_at(
    client: ClientView,
    listening: ListeningView,
    place: int,
    start: int,
) -> bool {
    &&& crate::laws::request::of_status(listening)
    &&& recent_below(client, place, start)
    &&& match listening {
        ListeningView::Drain { errand: ErrandView::Pose(QuestionView::Status(key)), until: _ } => {
            place == key.place()
        },
        ListeningView::Answer { question: QuestionView::Status(key), until: _ } => {
            place == key.place()
        },
        _ => place == 0,
    }
}

/// Whether a step belongs to a status that writes, from there on, questions of a
/// place or later ones. Where it is the last step of a success, every value is
/// recent.
pub open spec fn stands_at(client: ClientView, step: StepView, place: int, start: int) -> bool {
    match step {
        StepView::Receive { listening, wait: _ } => match listening {
            ListeningView::Answer { question: _, until: _ } => {
                waits_at(client, listening, place - 1, start)
            },
            _ => waits_at(client, listening, place, start),
        },
        StepView::Send { sending, pause: _, bytes } => {
            &&& recent_below(client, place, start)
            &&& sending matches SendingView::Question(question)
            &&& question matches QuestionView::Status(key)
            &&& key.place() == place
            &&& bytes == crate::laws::run::asking(question)
        },
        StepView::Done(reply) => {
            &&& place == 4
            &&& reply == ReplyView::State(client.state)
            &&& recent_below(client, 4, start)
        },
        StepView::Failed(_) => place == 4,
    }
}

/// Where a status goes on from a place, it goes on at that place or later.
proof fn lemma_ask_from(client: ClientView, from: int, now: int, start: int)
    requires
        0 <= from <= 4,
        recent_below(client, from, start),
        crate::laws::run::timely(now, start),
    ensures
        match client.ask_from(from, now) {
            NextView::Listen(next) => exists|place: int| #[trigger]
                waits_at(client, next, place, start) && from <= place && next is Drain
                    && next.until() == now + QUIET,
            NextView::Halt(step) => stands_at(client, step, 4, start),
        },
{
    match client.stale_from(from, now) {
        Some(key) => {
            assert forall|other: Key| other.place() < key.place() implies #[trigger] recent(
                client,
                other,
                start,
            ) by {
                if other.place() >= from {
                    assert(client.current(other, now));
                }
            }
            let next = ListeningView::Drain {
                errand: ErrandView::Pose(QuestionView::Status(key)),
                until: now + QUIET,
            };
            assert(waits_at(client, next, key.place(), start));
        },
        None => {
            assert forall|other: Key| other.place() < 4 implies #[trigger] recent(
                client,
                other,
                start,
            ) by {
                if other.place() >= from {
                    assert(client.current(other, now));
                }
            }
        },
    }
}

/// A status goes on at its place or later.
proof fn lemma_proceed_stands(
    client: ClientView,
    at: ListeningView,
    now: int,
    place: int,
    start: int,
) -> (later: int)
    requires
        waits_at(client, at, place, start),
        crate::laws::run::timely(now, start),
    ensures
        ({
            let (after, step) = client.proceed(at, now);
            &&& stands_at(after, step, later, start)
            &&& (if at is Answer { place + 1 } else { place }) <= later <= 4
        }),
    decreases client.buffer.len(), (if at.until() <= now { 1int } else { 0int }),
{
    crate::line::lemma_front_shrinks(client.buffer);
    let (front, rest) = crate::line::front(client.buffer);
    let left = ClientView { buffer: rest, ..client };
    let least = if at is Answer { place + 1 } else { place };
    assert forall|key: Key| key.place() < place implies #[trigger] recent(left, key, start) by {
        assert(recent(client, key, start));
    }
    match front {
        Front::Malformed => 4,
        Front::Incomplete => if now < at.until() {
            least
        } else {
            match left.lapsed(at, now) {
                NextView::Listen(next) => {
                    lemma_ask_from(left, 0, now, start);
                    let there = choose|p: int| #[trigger] waits_at(left, next, p, start) && 0 <= p;
                    lemma_proceed_stands(left, next, now, there, start)
                },
                NextView::Halt(step) => {
                    if at is Drain && !(at->errand is Pose) {
                        lemma_ask_from(left, 0, now, start);
                        4
                    } else if at is Answer {
                        4
                    } else {
                        place
                    }
                },
            }
        },
        Front::Line(line) => {
            let noted = left.noted(line, now);
            assert forall|key: Key| recent(left, key, start) || crate::state::key_of(line) == Some(
                key,
            ) implies #[trigger] recent(noted, key, start) by {
                if let Some(other) = crate::state::key_of(line) {
                    assert(other == key || other.place() != key.place());
                }
            }
            assert forall|key: Key| key.place() < place implies #[trigger] recent(
                noted,
                key,
                start,
            ) by {
                assert(recent(left, key, start));
            }
            match noted.heard(at, line, now) {
                NextView::Listen(next) => {
                    if next == at {
                        lemma_proceed_stands(noted, at, now, place, start)
                    } else {
                        lemma_ask_from(noted, place + 1, now, start);
                        let there = choose|p: int| #[trigger]
                            waits_at(noted, next, p, start) && place + 1 <= p;
                        lemma_proceed_stands(noted, next, now, there, start)
                    }
                },
                NextView::Halt(step) => {
                    lemma_ask_from(noted, place + 1, now, start);
                    4
                },
            }
        },
    }
}

/// The questions of a status from one place on are those of an earlier place
/// with some left out.
proof fn lemma_within_earlier(part: Seq<Seq<u8>>, place: int, later: int)
    requires
        0 <= place <= later <= 4,
        within(part, crate::laws::run::questions_from(later)),
    ensures
        within(part, crate::laws::run::questions_from(place)),
    decreases later - place,
{
    if place < later {
        lemma_within_earlier(part, place + 1, later);
        assert(crate::laws::run::questions_from(place).drop_first() =~= crate::laws::run::questions_from(
            place + 1,
        ));
    }
}

/// What is written behind a question of a status leaves the question, and the
/// rest within the later ones.
proof fn lemma_within_next(part: Seq<Seq<u8>>, key: Key, later: int)
    requires
        key.place() + 1 <= later <= 4,
        within(part, crate::laws::run::questions_from(later)),
    ensures
        within(
            seq![crate::laws::run::asking(QuestionView::Status(key))] + part,
            crate::laws::run::questions_from(key.place()),
        ),
{
    let question = crate::laws::run::asking(QuestionView::Status(key));
    let whole = crate::laws::run::questions_from(key.place());
    lemma_within_earlier(part, key.place() + 1, later);
    assert(whole.drop_first() =~= crate::laws::run::questions_from(key.place() + 1));
    assert((seq![question] + part).drop_first() =~= part);
}

/// A status reacts by going on at its place or later, and past the place of a
/// question that it has written.
proof fn lemma_react_stands(
    client: ClientView,
    step: StepView,
    what: Happening,
    place: int,
    start: int,
) -> (later: int)
    requires
        stands_at(client, step, place, start),
        0 <= place <= 4,
        crate::laws::run::time_of(what) matches Some(time) ==> crate::laws::run::timely(time, start),
    ensures
        ({
            let (after, next) = client.react(step, what);
            &&& stands_at(after, next, later, start)
            &&& place <= later <= 4
            &&& crate::laws::run::writes(step, what).len() > 0 ==> place < later
        }),
{
    match step {
        StepView::Receive { listening, wait: _ } => {
            let below = if listening is Answer { place - 1 } else { place };
            match what {
                Happening::Received { bytes, now } => if bytes.len() == 0 {
                    4
                } else {
                    let fed = ClientView { buffer: client.buffer + bytes, ..client };
                    assert forall|key: Key| key.place() < below implies #[trigger] recent(
                        fed,
                        key,
                        start,
                    ) by {
                        assert(recent(client, key, start));
                    }
                    lemma_proceed_stands(fed, listening, now, below, start)
                },
                Happening::ReadFailed { fault, now } => if fault.is_timeout() {
                    match client.lapsed(listening, now) {
                        NextView::Listen(next) => {
                            lemma_ask_from(client, 0, now, start);
                            let there = choose|p: int| #[trigger]
                                waits_at(client, next, p, start) && 0 <= p;
                            lemma_proceed_stands(client, next, now, there, start)
                        },
                        NextView::Halt(_) => {
                            if listening is Drain && !(listening->errand is Pose) {
                                lemma_ask_from(client, 0, now, start);
                                4
                            } else if listening is Answer {
                                4
                            } else {
                                place
                            }
                        },
                    }
                } else {
                    4
                },
                _ => place,
            }
        },
        StepView::Send { sending, pause: _, bytes: _ } => match what {
            Happening::Sent { now } => {
                let sent = ClientView { send_after: now + PACE, ..client };
                assert forall|key: Key| key.place() < place implies #[trigger] recent(
                    sent,
                    key,
                    start,
                ) by {
                    assert(recent(client, key, start));
                }
                lemma_proceed_stands(
                    sent,
                    ListeningView::Answer {
                        question: sending->Question_0,
                        until: now + TIMEOUT,
                    },
                    now,
                    place,
                    start,
                )
            },
            Happening::WriteFailed { fault: _ } => 4,
            _ => place,
        },
        _ => place,
    }
}

/// A status writes questions of its place and later ones, each at most once and
/// in order.
proof fn lemma_run_stands(
    client: ClientView,
    step: StepView,
    course: Seq<Happening>,
    place: int,
    start: int,
) -> (last: int)
    requires
        stands_at(client, step, place, start),
        0 <= place <= 4,
        crate::laws::run::all_timely(course, start),
    ensures
        within(client.written(step, course), crate::laws::run::questions_from(place)),
        ({
            let (later, end) = client.run(step, course);
            stands_at(later, end, last, start)
        }),
    decreases course.len(),
{
    if course.len() == 0 {
        place
    } else {
        let what = course[0];
        let rest = course.drop_first();
        assert(crate::laws::run::all_timely(rest, start));
        let (later, next) = client.react(step, what);
        let there = lemma_react_stands(client, step, what, place, start);
        let last = lemma_run_stands(later, next, rest, there, start);
        let tail = later.written(next, rest);
        let done = crate::laws::run::writes(step, what);
        if done.len() == 0 {
            lemma_within_earlier(tail, place, there);
        } else {
            let key = step->sending->Question_0->Status_0;
            lemma_within_next(tail, key, there);
        }
        last
    }
}

proof fn lemma_status_run(client: ClientView, now: int, course: Seq<Happening>, start: int)
    requires
        client.observed.len() == 4,
        crate::laws::run::timely(now, start),
        crate::laws::run::all_timely(course, start),
    ensures
        ({
            let (begun, step) = client.status(now);
            let (later, end) = begun.run(step, course);
            &&& within(begun.written(step, course), crate::laws::run::questions_from(0))
            &&& end matches StepView::Done(reply) ==> {
                &&& reply == ReplyView::State(later.state)
                &&& forall|key: Key| #[trigger] recent(later, key, start)
            }
        }),
{
    let (begun, step) = client.status(now);
    let there = lemma_proceed_stands(
        client,
        ListeningView::Drain { errand: ErrandView::Settle, until: now + QUIET },
        now,
        0,
        start,
    );
    let last = lemma_run_stands(begun, step, course, there, start);
    lemma_within_earlier(begun.written(step, course), 0, there);
    let (later, end) = begun.run(step, course);
    if end is Done {
        assert(forall|key: Key| key.place() < 4);
    }
}

/// A status asks for power, volume, mute and input in this order, for each at
/// most once, whatever happens.
pub proof fn law_a_status_asks_each_value_once(
    client: ClientView,
    now: int,
    course: Seq<Happening>,
)
    requires
        client.observed.len() == 4,
    ensures
        ({
            let (begun, step) = client.status(now);
            within(begun.written(step, course), crate::laws::run::questions_from(0))
        }),
{
    lemma_status_run(client, now, course, 0);
}

/// A status succeeds only with the state of the connection, and that state has
/// each of the four values: power, mute, input, and either a number for the volume
/// or minimum volume.
pub proof fn law_a_status_has_every_value(client: ClientView, now: int, course: Seq<Happening>)
    requires
        client.coherent(),
    ensures
        ({
            let (begun, step) = client.status(now);
            let (later, end) = begun.run(step, course);
            end matches StepView::Done(reply) ==> {
                &&& reply == ReplyView::State(later.state)
                &&& later.state.consistent()
                &&& forall|key: Key| #[trigger] later.state.has(key)
                &&& later.state.on is Some
                &&& later.state.muted is Some
                &&& later.state.input is Some
                &&& later.state.volume_db is None <==> later.state.volume_minimum
            }
        }),
{
    lemma_status_run(client, now, course, 0);
    crate::laws::connection::law_a_connection_stays_coherent(client, Request::Status, now, course);
    let (begun, step) = client.status(now);
    let (later, end) = begun.run(step, course);
    if end is Done {
        assert forall|key: Key| #[trigger] later.state.has(key) by {
            assert(recent(later, key, 0));
            assert(later.seen(key));
        }
        assert(later.state.has(Key::Power) && later.state.has(Key::Mute));
        assert(later.state.has(Key::Input) && later.state.has(Key::Volume));
    }
}

/// What a status reports is current: where it succeeds, each value has been
/// observed since the status began, or was current when it began.
pub proof fn law_a_status_is_current(client: ClientView, now: int, course: Seq<Happening>)
    requires
        client.observed.len() == 4,
        0 <= now <= u64::MAX,
        forall|i: int| #![trigger course[i]]
            0 <= i < course.len() ==> (crate::laws::run::time_of(course[i]) matches Some(
                time,
            ) ==> now <= time <= u64::MAX),
    ensures
        ({
            let (begun, step) = client.status(now);
            let (later, end) = begun.run(step, course);
            end is Done ==> forall|key: Key| #[trigger] recent(later, key, now)
        }),
{
    lemma_status_run(client, now, course, now);
}

/// Whether a value was observed at a time or later.
pub open spec fn seen_since(client: ClientView, key: Key, time: int) -> bool {
    &&& client.observed.len() == 4
    &&& client.observed[key.place()] matches Some(seen)
    &&& seen >= time
}

/// Whether a wait belongs to a status and is not there to ask for a value.
pub open spec fn spared(listening: ListeningView, key: Key) -> bool {
    &&& crate::laws::request::of_status(listening)
    &&& !(listening matches ListeningView::Drain { errand, until: _ } && errand
        == ErrandView::Pose(QuestionView::Status(key)))
}

/// Whether a step belongs to a status and does not ask for a value.
pub open spec fn spares(step: StepView, key: Key) -> bool {
    match step {
        StepView::Receive { listening, wait: _ } => spared(listening, key),
        StepView::Send { sending, pause: _, bytes } => {
            &&& sending matches SendingView::Question(question)
            &&& question matches QuestionView::Status(other)
            &&& other != key
            &&& bytes == crate::laws::run::asking(question)
        },
        _ => true,
    }
}

proof fn lemma_proceed_spares(
    client: ClientView,
    at: ListeningView,
    now: int,
    key: Key,
    since: int,
)
    requires
        spared(at, key),
        seen_since(client, key, since),
        0 <= since <= now <= u64::MAX,
        now - since < client.fresh,
    ensures
        ({
            let (later, step) = client.proceed(at, now);
            &&& spares(step, key)
            &&& seen_since(later, key, since)
            &&& later.fresh == client.fresh
        }),
    decreases client.buffer.len(), (if at.until() <= now { 1int } else { 0int }),
{
    crate::line::lemma_front_shrinks(client.buffer);
    let (front, rest) = crate::line::front(client.buffer);
    let left = ClientView { buffer: rest, ..client };
    assert(left.current(key, now));
    match front {
        Front::Malformed => {},
        Front::Incomplete => if now >= at.until() {
            if let NextView::Listen(next) = left.lapsed(at, now) {
                lemma_proceed_spares(left, next, now, key, since);
            }
        },
        Front::Line(line) => {
            let noted = left.noted(line, now);
            assert(noted.current(key, now));
            if let NextView::Listen(next) = noted.heard(at, line, now) {
                lemma_proceed_spares(noted, next, now, key, since);
            }
        },
    }
}

/// Different values are asked for by different bytes.
proof fn lemma_questions_differ(a: Key, b: Key)
    requires
        a != b,
    ensures
        crate::laws::run::asking(QuestionView::Status(a)) != crate::laws::run::asking(
            QuestionView::Status(b),
        ),
{
    reveal_strlit("ZM");
    reveal_strlit("MV");
    reveal_strlit("MU");
    reveal_strlit("SI");
    reveal_strlit("?");
    let (one, other) = (QuestionView::Status(a).line(), QuestionView::Status(b).line());
    vstd::utf8::encode_utf8_decode_utf8(one);
    vstd::utf8::encode_utf8_decode_utf8(other);
    assert(one[0] != other[0] || one[1] != other[1]);
    assert(crate::exchange::line_bytes(one).drop_last() =~= vstd::utf8::encode_utf8(one));
    assert(crate::exchange::line_bytes(other).drop_last() =~= vstd::utf8::encode_utf8(other));
}

proof fn lemma_run_spares(
    client: ClientView,
    step: StepView,
    course: Seq<Happening>,
    key: Key,
    since: int,
    last: int,
)
    requires
        spares(step, key),
        seen_since(client, key, since),
        0 <= since,
        last <= u64::MAX,
        last - since < client.fresh,
        forall|i: int| #![trigger course[i]]
            0 <= i < course.len() ==> (crate::laws::run::time_of(course[i]) matches Some(time)
                ==> since <= time <= last),
    ensures
        !client.written(step, course).contains(
            crate::laws::run::asking(QuestionView::Status(key)),
        ),
    decreases course.len(),
{
    if course.len() > 0 {
        let what = course[0];
        let rest = course.drop_first();
        let (later, next) = client.react(step, what);
        match step {
            StepView::Receive { listening, wait: _ } => match what {
                Happening::Received { bytes, now } => {
                    lemma_proceed_spares(
                        ClientView { buffer: client.buffer + bytes, ..client },
                        listening,
                        now,
                        key,
                        since,
                    );
                },
                Happening::ReadFailed { fault: _, now } => {
                    assert(client.current(key, now));
                    if let NextView::Listen(next) = client.lapsed(listening, now) {
                        lemma_proceed_spares(client, next, now, key, since);
                    }
                },
                _ => {},
            },
            StepView::Send { sending, pause: _, bytes: _ } => {
                lemma_questions_differ(sending->Question_0->Status_0, key);
                if let Happening::Sent { now } = what {
                    lemma_proceed_spares(
                        ClientView { send_after: now + PACE, ..client },
                        ListeningView::Answer {
                            question: sending->Question_0,
                            until: now + TIMEOUT,
                        },
                        now,
                        key,
                        since,
                    );
                }
            },
            _ => {},
        }
        lemma_run_spares(later, next, rest, key, since, last);
    }
}

/// A status does not ask for a value that is current: where one was observed
/// since a time, and the status takes place before the freshness that counts from
/// that time is over, it does not write the question for that value, whatever
/// happens and whatever it asks for besides.
pub proof fn law_a_status_asks_nothing_that_is_current(
    client: ClientView,
    now: int,
    course: Seq<Happening>,
    key: Key,
    since: int,
    last: int,
)
    requires
        seen_since(client, key, since),
        0 <= since <= now <= last <= u64::MAX,
        last - since < client.fresh,
        forall|i: int| #![trigger course[i]]
            0 <= i < course.len() ==> (crate::laws::run::time_of(course[i]) matches Some(time)
                ==> since <= time <= last),
    ensures
        ({
            let (begun, step) = client.status(now);
            !begun.written(step, course).contains(
                crate::laws::run::asking(QuestionView::Status(key)),
            )
        }),
{
    let at = ListeningView::Drain { errand: ErrandView::Settle, until: now + QUIET };
    lemma_proceed_spares(client, at, now, key, since);
    let (begun, step) = client.status(now);
    lemma_run_spares(begun, step, course, key, since, last);
}

/// What is left of a sequence was in it.
proof fn lemma_within_contains<A>(part: Seq<A>, whole: Seq<A>)
    requires
        within(part, whole),
        part.len() > 0,
    ensures
        whole.contains(part.first()),
    decreases whole.len(),
{
    if part.first() == whole.first() {
        assert(whole[0] == part.first());
    } else {
        lemma_within_contains(part, whole.drop_first());
        let i = choose|i: int|
            0 <= i < whole.drop_first().len() && whole.drop_first()[i] == part.first();
        assert(whole[i + 1] == part.first());
    }
}

/// A status writes nothing at all while every value is current.
pub proof fn law_a_current_status_is_silent(
    client: ClientView,
    now: int,
    course: Seq<Happening>,
    since: int,
    last: int,
)
    requires
        forall|key: Key| #[trigger] seen_since(client, key, since),
        0 <= since <= now <= last <= u64::MAX,
        last - since < client.fresh,
        forall|i: int| #![trigger course[i]]
            0 <= i < course.len() ==> (crate::laws::run::time_of(course[i]) matches Some(time)
                ==> since <= time <= last),
    ensures
        ({
            let (begun, step) = client.status(now);
            begun.written(step, course).len() == 0
        }),
{
    let (begun, step) = client.status(now);
    let written = begun.written(step, course);
    assert(seen_since(client, Key::Power, since));
    lemma_status_run(client, now, course, 0);
    if written.len() > 0 {
        lemma_within_contains(written, crate::laws::run::questions_from(0));
        assert(written.contains(written[0]));
        assert forall|key: Key| written[0] != #[trigger] crate::laws::run::asking(
            QuestionView::Status(key),
        ) by {
            assert(seen_since(client, key, since));
            law_a_status_asks_nothing_that_is_current(client, now, course, key, since, last);
        }
    }
}

/// Where every value is current, nothing is left to read and the receiver is
/// quiet, a status succeeds at once, with the state of the connection.
pub proof fn law_a_current_status_succeeds(
    client: ClientView,
    now: int,
    quiet: Fault,
    later: int,
)
    requires
        client.buffer.len() == 0,
        quiet.is_timeout(),
        forall|key: Key| #[trigger] client.current(key, later),
    ensures
        ({
            let (begun, step) = client.status(now);
            begun.react(step, Happening::ReadFailed { fault: quiet, now: later }) == (
                client,
                StepView::Done(ReplyView::State(client.state)),
            )
        }),
{
    client.buffer.index_of_first_ensures(crate::line::CARRIAGE_RETURN);
}

/// A connection once lines have been taken over at a time, one after the other.
pub open spec fn noted_lines(client: ClientView, lines: Seq<Seq<char>>, now: int) -> ClientView
    decreases lines.len(),
{
    if lines.len() == 0 {
        client
    } else {
        noted_lines(client.noted(lines.first(), now), lines.drop_first(), now)
    }
}

/// A connection once the lines that its bytes begin with have been taken.
pub open spec fn took(client: ClientView, lines: Seq<Seq<char>>, now: int) -> ClientView {
    let left = ClientView {
        buffer: crate::laws::lines::behind(client.buffer, lines),
        ..client
    };
    noted_lines(left, lines, now)
}

/// How a status goes on from a place, with the bytes that are there.
pub open spec fn goes_on(client: ClientView, place: int, now: int) -> (ClientView, StepView) {
    match client.ask_from(place, now) {
        NextView::Listen(next) => client.proceed(next, now),
        NextView::Halt(step) => (client, step),
    }
}

proof fn lemma_noted_lines(client: ClientView, lines: Seq<Seq<char>>, now: int)
    requires
        client.observed.len() == 4,
    ensures
        ({
            let noted = noted_lines(client, lines, now);
            &&& noted.state == crate::laws::lines::after_lines(client.state, lines)
            &&& noted.buffer == client.buffer
            &&& noted.observed.len() == 4
            &&& noted.fresh == client.fresh
            &&& noted.send_after == client.send_after
        }),
    decreases lines.len(),
{
    if lines.len() > 0 {
        lemma_noted_lines(client.noted(lines.first(), now), lines.drop_first(), now);
    }
}

proof fn lemma_answer_is_seen(
    client: ClientView,
    lines: Seq<Seq<char>>,
    answer: Seq<char>,
    key: Key,
    now: int,
)
    requires
        client.observed.len() == 4,
        crate::state::key_of(answer) == Some(key),
    ensures
        noted_lines(client, lines.push(answer), now).observed[key.place()] == Some(now as u64),
    decreases lines.len(),
{
    let all = lines.push(answer);
    if lines.len() == 0 {
        let noted = client.noted(answer, now);
        assert(all.drop_first() =~= seq![]);
        assert(noted_lines(noted, seq![], now) == noted);
    } else {
        assert(all.drop_first() =~= lines.drop_first().push(answer));
        lemma_answer_is_seen(client.noted(lines[0], now), lines.drop_first(), answer, key, now);
    }
}

proof fn lemma_proceed_is_told(
    client: ClientView,
    key: Key,
    until: int,
    now: int,
    lines: Seq<Seq<char>>,
    answer: Seq<char>,
)
    requires
        crate::laws::lines::opens(client.buffer, lines.push(answer)),
        forall|i: int|
            0 <= i < lines.len() ==> crate::state::key_of(#[trigger] lines[i]) != Some(key),
        crate::state::key_of(answer) == Some(key),
    ensures
        client.proceed(
            (ListeningView::Answer { question: QuestionView::Status(key), until }),
            now,
        ) == goes_on(took(client, lines.push(answer), now), key.place() + 1, now),
    decreases lines.len(),
{
    let all = lines.push(answer);
    let rest = crate::line::front(client.buffer).1;
    let left = ClientView { buffer: rest, ..client };
    let noted = left.noted(all[0], now);
    let behind = crate::laws::lines::behind(client.buffer, all);
    let skipped = ClientView { buffer: behind, ..client };
    assert(skipped.noted(all[0], now) =~= ClientView { buffer: behind, ..noted });
    if lines.len() == 0 {
        assert(all.drop_first() =~= seq![]);
        crate::laws::lines::lemma_opens_none(rest, client.state);
        assert(noted_lines(noted, seq![], now) == noted);
    } else {
        assert(all.drop_first() =~= lines.drop_first().push(answer));
        lemma_proceed_is_told(noted, key, until, now, lines.drop_first(), answer);
    }
}

/// An answered status goes on. Whenever a status waits for one of its values, it
/// goes by the first report of that value, behind any other lines: it takes all
/// of these lines into its state, and asks for the next value that is not
/// current, or is done where there is none. The value that was asked for has then
/// been observed.
pub proof fn law_an_answered_status_goes_on(
    client: ClientView,
    key: Key,
    until: int,
    bytes: Seq<u8>,
    now: int,
    lines: Seq<Seq<char>>,
    answer: Seq<char>,
)
    requires
        client.observed.len() == 4,
        bytes.len() > 0,
        crate::laws::lines::opens(client.buffer + bytes, lines.push(answer)),
        forall|i: int|
            0 <= i < lines.len() ==> crate::state::key_of(#[trigger] lines[i]) != Some(key),
        crate::state::key_of(answer) == Some(key),
    ensures
        ({
            let at = ListeningView::Answer { question: QuestionView::Status(key), until };
            let fed = ClientView { buffer: client.buffer + bytes, ..client };
            let told = took(fed, lines.push(answer), now);
            &&& client.received(at, bytes, now) == goes_on(told, key.place() + 1, now)
            &&& told.state == crate::laws::lines::after_lines(client.state, lines.push(answer))
            &&& told.buffer == crate::laws::lines::behind(fed.buffer, lines.push(answer))
            &&& told.observed[key.place()] == Some(now as u64)
        }),
{
    let fed = ClientView { buffer: client.buffer + bytes, ..client };
    let all = lines.push(answer);
    let left = ClientView { buffer: crate::laws::lines::behind(fed.buffer, all), ..fed };
    lemma_proceed_is_told(fed, key, until, now, lines, answer);
    lemma_noted_lines(left, all, now);
    lemma_answer_is_seen(left, lines, answer, key, now);
}

/// What happens for one question of a status: the receiver is quiet, the question
/// is written, and bytes arrive that hold other lines and then an answer.
pub struct Round {
    pub lull: int,
    pub sent: int,
    pub bytes: Seq<u8>,
    pub heard: int,
    pub lines: Seq<Seq<char>>,
    pub answer: Seq<char>,
}

impl Round {
    /// What happens in the round.
    pub open spec fn course(self, quiet: Fault) -> Seq<Happening> {
        seq![
            Happening::ReadFailed { fault: quiet, now: self.lull },
            Happening::Sent { now: self.sent },
            Happening::Received { bytes: self.bytes, now: self.heard },
        ]
    }

    /// Whether the round answers the question for a value: the bytes that are
    /// there hold lines, the last of which is the first report of the value.
    pub open spec fn answers(self, buffer: Seq<u8>, key: Key) -> bool {
        &&& self.bytes.len() > 0
        &&& crate::laws::lines::holds(buffer + self.bytes, self.lines.push(self.answer))
        &&& forall|i: int|
            0 <= i < self.lines.len() ==> crate::state::key_of(#[trigger] self.lines[i]) != Some(
                key,
            )
        &&& crate::state::key_of(self.answer) == Some(key)
    }
}

/// What happens in rounds, one after the other.
pub open spec fn course_of(rounds: Seq<Round>, quiet: Fault) -> Seq<Happening>
    decreases rounds.len(),
{
    if rounds.len() == 0 {
        seq![]
    } else {
        rounds.first().course(quiet) + course_of(rounds.drop_first(), quiet)
    }
}

/// Whether rounds answer a status: each answers the question that the status then
/// is about to ask, as long as there is one.
pub open spec fn answered(
    client: ClientView,
    step: StepView,
    rounds: Seq<Round>,
    quiet: Fault,
) -> bool
    decreases rounds.len(),
{
    rounds.len() == 0 || match step {
        StepView::Receive { listening, wait: _ } => {
            &&& listening matches ListeningView::Drain { errand, until: _ }
            &&& errand matches ErrandView::Pose(question)
            &&& question matches QuestionView::Status(key)
            &&& rounds.first().answers(client.buffer, key)
            &&& {
                let (later, next) = client.run(step, rounds.first().course(quiet));
                answered(later, next, rounds.drop_first(), quiet)
            }
        },
        _ => true,
    }
}

/// Whether a step is about to ask for a value at a place or later, with no whole
/// line left, or the status has succeeded.
pub open spec fn asks_from(client: ClientView, step: StepView, place: int) -> bool {
    match step {
        StepView::Receive { listening, wait: _ } => {
            &&& crate::line::front(client.buffer) == (Front::Incomplete, client.buffer)
            &&& listening matches ListeningView::Drain { errand, until: _ }
            &&& errand matches ErrandView::Pose(question)
            &&& question matches QuestionView::Status(key)
            &&& place <= key.place()
        },
        StepView::Done(reply) => reply == ReplyView::State(client.state),
        _ => false,
    }
}

proof fn lemma_goes_on(client: ClientView, place: int, now: int)
    requires
        crate::line::front(client.buffer).0 == Front::Incomplete,
    ensures
        ({
            let (later, step) = goes_on(client, place, now);
            &&& asks_from(later, step, place)
            &&& later.observed == client.observed
        }),
{
    crate::laws::wire::law_what_waits_is_short(client.buffer);
}

proof fn lemma_round(client: ClientView, step: StepView, round: Round, place: int, quiet: Fault)
    requires
        client.observed.len() == 4,
        step is Receive,
        asks_from(client, step, place),
        round.answers(client.buffer, step->listening->errand->Pose_0->Status_0),
        quiet.is_timeout(),
    ensures
        ({
            let (later, next) = client.run(step, round.course(quiet));
            &&& asks_from(later, next, place + 1)
            &&& later.observed.len() == 4
        }),
{
    let key = step->listening->errand->Pose_0->Status_0;
    let course = round.course(quiet);
    let (c0, c1, c2) = (course[0], course[1], course[2]);
    let (s1, step1) = client.react(step, c0);
    let (s2, step2) = s1.react(step1, c1);
    let (s3, step3) = s2.react(step2, c2);
    assert(course.drop_first() =~= seq![c1, c2]);
    assert(seq![c1, c2].drop_first() =~= seq![c2]);
    assert(seq![c2].drop_first() =~= seq![]);
    assert(s3.run(step3, seq![]) == (s3, step3));
    assert(s2.run(step2, seq![c2]) == (s3, step3));
    assert(s1.run(step1, seq![c1, c2]) == (s3, step3));
    law_an_answered_status_goes_on(
        s2,
        key,
        round.sent + TIMEOUT,
        round.bytes,
        round.heard,
        round.lines,
        round.answer,
    );
    let fed = ClientView { buffer: s2.buffer + round.bytes, ..s2 };
    let all = round.lines.push(round.answer);
    let left = ClientView { buffer: crate::laws::lines::behind(fed.buffer, all), ..fed };
    lemma_noted_lines(left, all, round.heard);
    lemma_goes_on(took(fed, all, round.heard), key.place() + 1, round.heard);
}

proof fn lemma_rounds(
    client: ClientView,
    step: StepView,
    rounds: Seq<Round>,
    place: int,
    quiet: Fault,
)
    requires
        client.observed.len() == 4,
        asks_from(client, step, place),
        answered(client, step, rounds, quiet),
        quiet.is_timeout(),
        rounds.len() >= 4 - place,
    ensures
        ({
            let (later, end) = client.run(step, course_of(rounds, quiet));
            end == StepView::Done(ReplyView::State(later.state))
        }),
    decreases rounds.len(),
{
    if step is Done {
        crate::laws::run::lemma_over_is_over(client, step, course_of(rounds, quiet));
    } else {
        let round = rounds.first();
        let rest = rounds.drop_first();
        let (later, next) = client.run(step, round.course(quiet));
        lemma_round(client, step, round, place, quiet);
        lemma_rounds(later, next, rest, place + 1, quiet);
        crate::laws::run::lemma_run_both(
            client,
            step,
            round.course(quiet),
            course_of(rest, quiet),
        );
    }
}

/// A status whose questions are answered succeeds, after four of them at most.
/// The receiver may have reported something before, and may report other things
/// in front of each answer.
pub proof fn law_an_answered_status_succeeds(
    client: ClientView,
    now: int,
    before: Seq<Seq<char>>,
    quiet: Fault,
    lull: int,
    rounds: Seq<Round>,
)
    requires
        client.observed.len() == 4,
        crate::laws::lines::holds(client.buffer, before),
        quiet.is_timeout(),
        rounds.len() == 4,
        ({
            let (begun, step) = client.status(now);
            let (there, next) = begun.react(
                step,
                Happening::ReadFailed { fault: quiet, now: lull },
            );
            answered(there, next, rounds, quiet)
        }),
    ensures
        ({
            let (begun, step) = client.status(now);
            let course = seq![Happening::ReadFailed { fault: quiet, now: lull }] + course_of(
                rounds,
                quiet,
            );
            let (later, end) = begun.run(step, course);
            end == StepView::Done(ReplyView::State(later.state))
        }),
{
    let at = ListeningView::Drain { errand: ErrandView::Settle, until: now + QUIET };
    crate::laws::request::lemma_proceed_hears_out(client, at, now, before);
    let (begun, step) = client.status(now);
    lemma_proceed_keeps_observed(client, at, now);
    crate::laws::wire::law_what_waits_is_short(
        crate::laws::lines::behind(client.buffer, before),
    );
    let silence = Happening::ReadFailed { fault: quiet, now: lull };
    let (there, next) = begun.react(step, silence);
    lemma_goes_on(begun, 0, lull);
    lemma_rounds(there, next, rounds, 0, quiet);
    let course = seq![silence] + course_of(rounds, quiet);
    assert(course.drop_first() =~= course_of(rounds, quiet));
}

proof fn lemma_proceed_keeps_observed(client: ClientView, at: ListeningView, now: int)
    requires
        client.observed.len() == 4,
    ensures
        client.proceed(at, now).0.observed.len() == 4,
    decreases client.buffer.len(), (if at.until() <= now { 1int } else { 0int }),
{
    crate::line::lemma_front_shrinks(client.buffer);
    let (front, rest) = crate::line::front(client.buffer);
    let left = ClientView { buffer: rest, ..client };
    match front {
        Front::Malformed => {},
        Front::Incomplete => if now >= at.until() {
            if let NextView::Listen(next) = left.lapsed(at, now) {
                lemma_proceed_keeps_observed(left, next, now);
            }
        },
        Front::Line(line) => {
            let noted = left.noted(line, now);
            if let NextView::Listen(next) = noted.heard(at, line, now) {
                lemma_proceed_keeps_observed(noted, next, now);
            }
        },
    }
}

} // verus!
