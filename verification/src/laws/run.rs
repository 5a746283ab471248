//! Whole requests: from the first step to the last, whatever the receiver and
//! the network do in between.
use crate::client::ClientView;
use crate::command::CommandView;
use crate::error::Fault;
use crate::exchange::{QuestionView, SendingView, StepView};
use crate::state::Key;
use vstd::prelude::*;

verus! {

/// What can come of a step.
pub enum Happening {
    /// Bytes have arrived, or none, where the connection was closed.
    Received { bytes: Seq<u8>, now: int },
    /// The read has failed.
    ReadFailed { fault: Fault, now: int },
    /// The bytes have been written.
    Sent { now: int },
    /// The write has failed.
    WriteFailed { fault: Fault },
}

/// What can be asked of a connection.
pub enum Request {
    Status,
    Command(CommandView),
    Sources,
    Event { wait: int },
}

impl ClientView {
    /// The first step of a request.
    pub open spec fn begin(self, request: Request, now: int) -> (ClientView, StepView) {
        match request {
            Request::Status => self.status(now),
            Request::Command(command) => self.command(command, now),
            Request::Sources => self.sources(now),
            Request::Event { wait } => self.next_event(wait, now),
        }
    }

    /// How a request goes on after a step. What cannot come of the step leaves
    /// it as it is; so does everything once the request is over.
    pub open spec fn react(self, step: StepView, what: Happening) -> (ClientView, StepView) {
        match step {
            StepView::Receive { listening, wait: _ } => match what {
                Happening::Received { bytes, now } => self.received(listening, bytes, now),
                Happening::ReadFailed { fault, now } => self.read_failed(listening, fault, now),
                _ => (self, step),
            },
            StepView::Send { sending, pause: _, bytes: _ } => match what {
                Happening::Sent { now } => self.sent(sending, now),
                Happening::WriteFailed { fault } => self.write_failed(fault),
                _ => (self, step),
            },
            _ => (self, step),
        }
    }

    /// Where a request is after a number of happenings.
    pub open spec fn run(self, step: StepView, course: Seq<Happening>) -> (ClientView, StepView)
        decreases course.len(),
    {
        if course.len() == 0 {
            (self, step)
        } else {
            let (client, next) = self.react(step, course.first());
            client.run(next, course.drop_first())
        }
    }

    /// The bytes that a request takes from the connection.
    pub open spec fn taken(self, step: StepView, course: Seq<Happening>) -> Seq<u8>
        decreases course.len(),
    {
        if course.len() == 0 {
            seq![]
        } else {
            let (client, next) = self.react(step, course.first());
            takes(step, course.first()) + client.taken(next, course.drop_first())
        }
    }

    /// What a request writes to the connection, in order, whether the writes
    /// succeed or not.
    pub open spec fn written(self, step: StepView, course: Seq<Happening>) -> Seq<Seq<u8>>
        decreases course.len(),
    {
        if course.len() == 0 {
            seq![]
        } else {
            let (client, next) = self.react(step, course.first());
            writes(step, course.first()) + client.written(next, course.drop_first())
        }
    }
}

/// The bytes that a happening says to have arrived.
pub open spec fn takes(step: StepView, what: Happening) -> Seq<u8> {
    match what {
        Happening::Received { bytes, now: _ } => if step is Receive {
            bytes
        } else {
            seq![]
        },
        _ => seq![],
    }
}

/// What a happening says to have been written.
pub open spec fn writes(step: StepView, what: Happening) -> Seq<Seq<u8>> {
    match step {
        StepView::Send { sending: _, pause: _, bytes } => match what {
            Happening::Sent { now: _ } => seq![bytes],
            Happening::WriteFailed { fault: _ } => seq![bytes],
            _ => seq![],
        },
        _ => seq![],
    }
}

/// A request that is over stays as it is, and neither writes nor takes anything.
pub proof fn lemma_over_is_over(client: ClientView, step: StepView, course: Seq<Happening>)
    requires
        step is Failed || step is Done,
    ensures
        client.run(step, course) == (client, step),
        client.written(step, course) == Seq::<Seq<u8>>::empty(),
        client.taken(step, course) == Seq::<u8>::empty(),
    decreases course.len(),
{
    if course.len() > 0 {
        lemma_over_is_over(client, step, course.drop_first());
    }
}

/// Whether a question is written at a place of a course.
pub open spec fn asks_at(
    client: ClientView,
    step: StepView,
    course: Seq<Happening>,
    place: int,
    question: QuestionView,
) -> bool {
    &&& 0 <= place < course.len()
    &&& course[place] is Sent
    &&& client.run(step, course.take(place)).1 matches StepView::Send { sending, pause: _, bytes }
    &&& sending == SendingView::Question(question)
    &&& bytes == asking(question)
}

/// A place of the rest of a course is one further on in the course.
pub proof fn lemma_further_on(
    client: ClientView,
    step: StepView,
    course: Seq<Happening>,
    place: int,
    question: QuestionView,
)
    requires
        course.len() > 0,
        ({
            let (later, next) = client.react(step, course.first());
            asks_at(later, next, course.drop_first(), place, question)
        }),
    ensures
        asks_at(client, step, course, place + 1, question),
        ({
            let (later, next) = client.react(step, course.first());
            client.run(step, course.take(place + 1)) == later.run(
                next,
                course.drop_first().take(place),
            )
        }),
        course.skip(place + 1) == course.drop_first().skip(place),
{
    assert(course.take(place + 1).drop_first() =~= course.drop_first().take(place));
}

/// The bytes that ask a question.
pub open spec fn asking(question: QuestionView) -> Seq<u8> {
    crate::exchange::line_bytes(question.line())
}

/// The questions of a status from a place on.
pub open spec fn questions_from(place: int) -> Seq<Seq<u8>> {
    let power = seq![asking(QuestionView::Status(Key::Power))];
    let volume = seq![asking(QuestionView::Status(Key::Volume))];
    let mute = seq![asking(QuestionView::Status(Key::Mute))];
    let input = seq![asking(QuestionView::Status(Key::Input))];
    if place <= 0 {
        power + (volume + (mute + input))
    } else if place == 1 {
        volume + (mute + input)
    } else if place == 2 {
        mute + input
    } else if place == 3 {
        input
    } else {
        seq![]
    }
}

/// When something happened.
pub open spec fn time_of(what: Happening) -> Option<int> {
    match what {
        Happening::Received { bytes: _, now } => Some(now),
        Happening::ReadFailed { fault: _, now } => Some(now),
        Happening::Sent { now } => Some(now),
        Happening::WriteFailed { fault: _ } => None,
    }
}

/// Whether a time is not before another, as far as the clock goes. Everything is
/// after the beginning of time.
pub open spec fn timely(time: int, start: int) -> bool {
    start <= 0 || start <= time <= u64::MAX
}

/// Whether everything happens at a time or later.
pub open spec fn all_timely(course: Seq<Happening>, start: int) -> bool {
    forall|i: int| #![trigger course[i]]
        0 <= i < course.len() ==> (time_of(course[i]) matches Some(time)
            ==> timely(time, start))
}

/// Whether the clock does not go back along a course, from a time on.
pub open spec fn clocked(course: Seq<Happening>, start: int) -> bool
    decreases course.len(),
{
    course.len() == 0 || match time_of(course.first()) {
        Some(time) => start <= time <= u64::MAX && clocked(course.drop_first(), time),
        None => clocked(course.drop_first(), start),
    }
}

/// Where the clock does not go back, everything happens at the start or later.
pub proof fn lemma_clocked_is_timely(course: Seq<Happening>, start: int, earlier: int)
    requires
        clocked(course, start),
        earlier <= start,
    ensures
        all_timely(course, earlier),
    decreases course.len(),
{
    if course.len() > 0 {
        let rest = course.drop_first();
        let next = match time_of(course.first()) {
            Some(time) => time,
            None => start,
        };
        lemma_clocked_is_timely(rest, next, earlier);
        assert forall|i: int| #![trigger course[i]] 0 <= i < course.len() implies (
        time_of(course[i]) matches Some(time) ==> timely(time, earlier)) by {
            if i > 0 {
                assert(course[i] == rest[i - 1]);
            }
        }
    }
}

/// A course comes to the same in two parts.
pub proof fn lemma_run_both(
    client: ClientView,
    step: StepView,
    first: Seq<Happening>,
    second: Seq<Happening>,
)
    ensures
        ({
            let (there, next) = client.run(step, first);
            client.run(step, first + second) == there.run(next, second)
        }),
    decreases first.len(),
{
    if first.len() == 0 {
        assert(first + second =~= second);
    } else {
        let (later, next) = client.react(step, first.first());
        assert((first + second).drop_first() =~= first.drop_first() + second);
        lemma_run_both(later, next, first.drop_first(), second);
    }
}

/// Whether a course is bytes that arrive, all of them before a time.
pub open spec fn arrivals(course: Seq<Happening>, until: int) -> bool
    decreases course.len(),
{
    course.len() == 0 || {
        &&& course.first() matches Happening::Received { bytes, now }
        &&& bytes.len() > 0
        &&& now < until
        &&& arrivals(course.drop_first(), until)
    }
}

/// The bytes that arrive in a course.
pub open spec fn arrived(course: Seq<Happening>) -> Seq<u8>
    decreases course.len(),
{
    if course.len() == 0 {
        seq![]
    } else {
        let rest = arrived(course.drop_first());
        match course.first() {
            Happening::Received { bytes, now: _ } => bytes + rest,
            _ => rest,
        }
    }
}

} // verus!
