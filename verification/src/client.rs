//! A connection to the receiver, as far as it is not a socket.
use crate::command::{Command, CommandView};
use crate::error::{Error, Fault, FaultKind};
use crate::exchange::{
    Errand, ErrandView, Listening, ListeningView, Question, QuestionView, Reply, ReplyView,
    Sending, SendingView, Step, StepView,
};
use crate::line::{next_line, Front, Reading, ReadingView, CARRIAGE_RETURN};
use crate::sources::source;
use crate::state::{observe, Key, State, StateView};
use crate::text::{chars_of, same};
use vstd::prelude::*;

verus! {

/// How long the receiver has to accept a connection or to answer, in
/// nanoseconds.
pub const TIMEOUT: u64 = 2_000_000_000;

/// How long reports are awaited before something is sent.
pub const QUIET: u64 = 10_000_000;

/// The least time between two lines that are sent.
pub const PACE: u64 = 50_000_000;

/// How long the receiver is left alone once it was switched on.
pub const WARM_UP: u64 = 1_000_000_000;

/// How long an observed value is taken as current without asking again. The
/// receiver reports every change on the open connection, and a lost connection
/// discards the client and everything it observed, so this is a guard against a
/// model that stays silent about a change, not the mechanism.
pub const FRESH: u64 = 10_000_000_000;

/// The most inputs that a receiver may list.
pub const MOST_SOURCES: usize = 100;

/// One connection: what has arrived on it, what it has told, and when the next
/// line may be sent. Times are in nanoseconds of a clock that does not go back.
pub struct Client {
    pub buffer: Vec<u8>,
    pub state: State,
    pub send_after: u64,
    /// When each of the values was last observed, from an answer or a report.
    pub observed: [Option<u64>; 4],
    pub fresh: u64,
}

/// A [`Client`] as a mathematical value.
#[verifier::ext_equal]
pub struct ClientView {
    pub buffer: Seq<u8>,
    pub state: StateView,
    pub send_after: int,
    pub observed: Seq<Option<u64>>,
    pub fresh: int,
}

impl View for Client {
    type V = ClientView;

    open spec fn view(&self) -> ClientView {
        ClientView {
            buffer: self.buffer@,
            state: self.state@,
            send_after: self.send_after as int,
            observed: self.observed@,
            fresh: self.fresh as int,
        }
    }
}

/// Whether the clock has room for the longest wait.
pub open spec fn in_time(now: u64) -> bool {
    now + TIMEOUT <= u64::MAX
}

/// How a request goes on: with another wait, or with a step to perform.
pub enum NextView {
    Listen(ListeningView),
    Halt(StepView),
}

enum Next {
    Listen(Listening),
    Halt(Step),
}

impl View for Next {
    type V = NextView;

    closed spec fn view(&self) -> NextView {
        match *self {
            Next::Listen(listening) => NextView::Listen(listening@),
            Next::Halt(step) => NextView::Halt(step@),
        }
    }
}

impl ClientView {
    /// A connection that has just been made.
    pub open spec fn new(now: int) -> ClientView {
        ClientView {
            buffer: seq![],
            state: StateView::unknown(),
            send_after: now,
            observed: seq![None, None, None, None],
            fresh: FRESH as int,
        }
    }

    /// The next line that has arrived. Where there is no whole one, there may be
    /// time left to wait for it; the bytes that are there are kept either way.
    pub open spec fn line(self, until: int, now: int) -> (ClientView, ReadingView) {
        let (front, rest) = crate::line::front(self.buffer);
        (
            ClientView { buffer: rest, ..self },
            match front {
                Front::Line(line) => ReadingView::Line(line),
                Front::Malformed => ReadingView::Failed(Error::Protocol),
                Front::Incomplete => if now < until {
                    ReadingView::Wait(until - now)
                } else {
                    ReadingView::Failed(Error::Timeout)
                },
            },
        )
    }

    /// The connection once a line has been taken over, and the time noted.
    pub open spec fn noted(self, line: Seq<char>, now: int) -> ClientView {
        ClientView {
            state: self.state.after(line),
            observed: match crate::state::key_of(line) {
                Some(key) => self.observed.update(key.place(), Some(now as u64)),
                None => self.observed,
            },
            ..self
        }
    }

    /// Whether a value was ever observed.
    pub open spec fn seen(self, key: Key) -> bool {
        self.observed[key.place()] is Some
    }

    /// Whether the state is consistent and has every value that was observed.
    pub open spec fn coherent(self) -> bool {
        &&& self.observed.len() == 4
        &&& self.state.consistent()
        &&& forall|key: Key| #[trigger] self.seen(key) ==> self.state.has(key)
    }

    /// Whether a value was observed so lately that it is taken as current.
    pub open spec fn current(self, key: Key, now: int) -> bool {
        match self.observed[key.place()] {
            Some(seen) => if seen <= now {
                now - seen < self.fresh
            } else {
                0 < self.fresh
            },
            None => false,
        }
    }

    /// The first value of a status, from a place on, that is not current.
    pub open spec fn stale_from(self, place: int, now: int) -> Option<Key> {
        if place <= 0 && !self.current(Key::Power, now) {
            Some(Key::Power)
        } else if place <= 1 && !self.current(Key::Volume, now) {
            Some(Key::Volume)
        } else if place <= 2 && !self.current(Key::Mute, now) {
            Some(Key::Mute)
        } else if place <= 3 && !self.current(Key::Input, now) {
            Some(Key::Input)
        } else {
            None
        }
    }

    /// How a status goes on: it asks for the next value that is not current, or
    /// is done.
    pub open spec fn ask_from(self, place: int, now: int) -> NextView {
        match self.stale_from(place, now) {
            Some(key) => NextView::Listen(
                ListeningView::Drain {
                    errand: ErrandView::Pose(QuestionView::Status(key)),
                    until: now + QUIET,
                },
            ),
            None => NextView::Halt(StepView::Done(ReplyView::State(self.state))),
        }
    }

    /// The step that sends a line, no earlier than the pace allows.
    pub open spec fn send(self, sending: SendingView, line: Seq<char>, now: int) -> StepView {
        StepView::Send {
            sending,
            pause: if now < self.send_after {
                self.send_after - now
            } else {
                0
            },
            bytes: crate::exchange::line_bytes(line),
        }
    }

    /// How a request goes on when its wait is over. Where reports were awaited,
    /// the receiver is quiet and the errand is run; where an answer was awaited,
    /// there is none; where a report was awaited, none came.
    pub open spec fn lapsed(self, at: ListeningView, now: int) -> NextView {
        match at {
            ListeningView::Drain { errand: ErrandView::Settle, until: _ } => {
                self.ask_from(0, now)
            },
            ListeningView::Drain { errand: ErrandView::Issue { command, line }, until: _ } => {
                NextView::Halt(self.send(SendingView::Command(command), line, now))
            },
            ListeningView::Drain { errand: ErrandView::Pose(question), until: _ } => {
                NextView::Halt(self.send(SendingView::Question(question), question.line(), now))
            },
            ListeningView::Answer { question: _, until: _ } => {
                NextView::Halt(StepView::Failed(Error::Timeout))
            },
            ListeningView::Watch { until: _ } => {
                NextView::Halt(StepView::Done(ReplyView::Event(None)))
            },
        }
    }

    /// How a request goes on after a line, which has been noted.
    pub open spec fn heard(self, at: ListeningView, line: Seq<char>, now: int) -> NextView {
        let key = crate::state::key_of(line);
        match at {
            ListeningView::Drain { errand: _, until: _ } => NextView::Listen(at),
            ListeningView::Answer { question: QuestionView::Status(asked), until: _ } => {
                if key == Some(asked) {
                    self.ask_from(asked.place() + 1, now)
                } else {
                    NextView::Listen(at)
                }
            },
            ListeningView::Answer { question: QuestionView::Confirm(command), until: _ } => {
                if key == Some(command.key()) {
                    NextView::Halt(
                        if command.confirmed(self.state) {
                            StepView::Done(ReplyView::State(self.state))
                        } else {
                            StepView::Failed(Error::Protocol)
                        },
                    )
                } else {
                    NextView::Listen(at)
                }
            },
            ListeningView::Answer { question: QuestionView::Sources(found), until } => {
                if line == "SSFUN END"@ {
                    NextView::Halt(StepView::Done(ReplyView::Sources(found)))
                } else {
                    match crate::sources::source_of(line) {
                        Some(told) => if found.len() >= MOST_SOURCES {
                            NextView::Halt(StepView::Failed(Error::Protocol))
                        } else {
                            NextView::Listen(
                                ListeningView::Answer {
                                    question: QuestionView::Sources(found.push(told)),
                                    until,
                                },
                            )
                        },
                        None => NextView::Listen(at),
                    }
                }
            },
            ListeningView::Watch { until: _ } => {
                if key is Some {
                    NextView::Halt(StepView::Done(ReplyView::Event(Some(self.state))))
                } else {
                    NextView::Listen(at)
                }
            },
        }
    }

    /// How a request goes on with the bytes that are there: it takes one whole
    /// line after the other. Where they run out before its time does it needs
    /// more; a malformed line ends it.
    pub open spec fn proceed(self, at: ListeningView, now: int) -> (ClientView, StepView)
        decreases self.buffer.len(), (if at.until() <= now { 1int } else { 0int }),
    {
        let (front, rest) = crate::line::front(self.buffer);
        let client = ClientView { buffer: rest, ..self };
        proof {
            crate::line::lemma_front_shrinks(self.buffer);
        }
        match front {
            Front::Malformed => (client, StepView::Failed(Error::Protocol)),
            Front::Incomplete => if now < at.until() {
                (client, StepView::Receive { listening: at, wait: at.until() - now })
            } else {
                match client.lapsed(at, now) {
                    NextView::Listen(next) => client.proceed(next, now),
                    NextView::Halt(step) => (client, step),
                }
            },
            Front::Line(line) => {
                let client = client.noted(line, now);
                match client.heard(at, line, now) {
                    NextView::Listen(next) => client.proceed(next, now),
                    NextView::Halt(step) => (client, step),
                }
            },
        }
    }

    /// A status: the receiver's reports are taken first, then each value that is
    /// not current is asked for.
    pub open spec fn status(self, now: int) -> (ClientView, StepView) {
        self.proceed(
            ListeningView::Drain { errand: ErrandView::Settle, until: now + QUIET },
            now,
        )
    }

    /// A command: the receiver's reports are taken first, then its line is sent,
    /// then the value that it changes is asked for. One without a line fails
    /// before anything else.
    pub open spec fn command(self, command: CommandView, now: int) -> (ClientView, StepView) {
        match command.line() {
            Some(line) => self.proceed(
                ListeningView::Drain {
                    errand: ErrandView::Issue { command, line },
                    until: now + QUIET,
                },
                now,
            ),
            None => (self, StepView::Failed(Error::Invalid)),
        }
    }

    /// The list of inputs: the receiver's reports are taken first, then it is
    /// asked for.
    pub open spec fn sources(self, now: int) -> (ClientView, StepView) {
        self.proceed(
            ListeningView::Drain {
                errand: ErrandView::Pose(QuestionView::Sources(seq![])),
                until: now + QUIET,
            },
            now,
        )
    }

    /// The next report, within a time.
    pub open spec fn next_event(self, wait: int, now: int) -> (ClientView, StepView) {
        self.proceed(ListeningView::Watch { until: now + wait }, now)
    }

    /// Bytes have arrived; none at all mean that the receiver has closed the
    /// connection.
    pub open spec fn received(self, at: ListeningView, bytes: Seq<u8>, now: int) -> (
        ClientView,
        StepView,
    ) {
        if bytes.len() == 0 {
            (self, StepView::Failed(Error::Io(Fault::closed())))
        } else {
            ClientView { buffer: self.buffer + bytes, ..self }.proceed(at, now)
        }
    }

    /// The read has failed. One that ran out of time ends the wait, any other
    /// the request.
    pub open spec fn read_failed(self, at: ListeningView, fault: Fault, now: int) -> (
        ClientView,
        StepView,
    ) {
        if fault.is_timeout() {
            match self.lapsed(at, now) {
                NextView::Listen(next) => self.proceed(next, now),
                NextView::Halt(step) => (self, step),
            }
        } else {
            (self, StepView::Failed(Error::Io(fault)))
        }
    }

    /// The write has failed, and with it the request.
    pub open spec fn write_failed(self, fault: Fault) -> (ClientView, StepView) {
        (self, StepView::Failed(Error::of(fault)))
    }

    /// The line has been sent. After a command the receiver's reports are taken
    /// and the value is asked for; after a question the answer is awaited.
    pub open spec fn sent(self, at: SendingView, now: int) -> (ClientView, StepView) {
        match at {
            SendingView::Command(command) => ClientView {
                send_after: now + (if command == CommandView::Power(true) {
                    WARM_UP
                } else {
                    PACE
                }),
                ..self
            }.proceed(
                ListeningView::Drain {
                    errand: ErrandView::Pose(QuestionView::Confirm(command)),
                    until: now + QUIET,
                },
                now,
            ),
            SendingView::Question(question) => ClientView {
                send_after: now + PACE,
                ..self
            }.proceed(ListeningView::Answer { question, until: now + TIMEOUT }, now),
        }
    }
}

/// The bytes that a line is sent as.
fn with_return(line: &str) -> (bytes: Vec<u8>)
    ensures
        bytes@ == crate::exchange::line_bytes(line@),
{
    let mut bytes = line.as_bytes_vec();
    bytes.push(CARRIAGE_RETURN);
    bytes
}

impl Client {
    /// A connection that has just been made.
    pub fn new(now: u64) -> (client: Client)
        ensures
            client@ == ClientView::new(now as int),
    {
        let client = Client {
            buffer: Vec::new(),
            state: State::default(),
            send_after: now,
            observed: [None, None, None, None],
            fresh: FRESH,
        };
        client
    }

    /// Takes the next line that has arrived. Where there is no whole one, it says
    /// how long to wait for more bytes, or that the time is over.
    pub fn line(&mut self, until: u64, now: u64) -> (reading: Reading)
        ensures
            (final(self)@, reading@) == old(self)@.line(until as int, now as int),
    {
        match next_line(&mut self.buffer) {
            Ok(Some(line)) => Reading::Line(line),
            Ok(None) => if now < until {
                Reading::Wait(until - now)
            } else {
                Reading::Failed(Error::Timeout)
            },
            Err(error) => Reading::Failed(error),
        }
    }

    /// Applies a line from the receiver and remembers when its value was seen.
    pub fn note(&mut self, line: &str, now: u64) -> (key: Option<Key>)
        ensures
            key == crate::state::key_of(line@),
            final(self)@ == old(self)@.noted(line@, now as int),
    {
        let key = observe(&mut self.state, line);
        if let Some(seen) = key {
            let index: usize = seen.index();
            self.observed[index] = Some(now);
        }
        key
    }

    /// Whether a value was observed so lately that it is taken as current.
    pub fn current(&self, key: Key, now: u64) -> (is: bool)
        ensures
            is == self@.current(key, now as int),
    {
        match self.observed[key.index()] {
            Some(seen) => (if seen <= now {
                now - seen
            } else {
                0
            }) < self.fresh,
            None => false,
        }
    }

    /// How a status goes on from the value at `place` on.
    fn ask_from(&self, place: usize, now: u64) -> (next: Next)
        requires
            in_time(now),
        ensures
            next@ == self@.ask_from(place as int, now as int),
    {
        let stale = if place <= 0 && !self.current(Key::Power, now) {
            Some(Key::Power)
        } else if place <= 1 && !self.current(Key::Volume, now) {
            Some(Key::Volume)
        } else if place <= 2 && !self.current(Key::Mute, now) {
            Some(Key::Mute)
        } else if place <= 3 && !self.current(Key::Input, now) {
            Some(Key::Input)
        } else {
            None
        };
        match stale {
            Some(key) => Next::Listen(
                Listening::Drain {
                    errand: Errand::Pose(Question::Status(key)),
                    until: now + QUIET,
                },
            ),
            None => Next::Halt(Step::Done(Reply::State(self.state.clone()))),
        }
    }

    /// The step that sends a line, no earlier than the pace allows.
    fn send(&self, sending: Sending, line: &str, now: u64) -> (step: Step)
        ensures
            step@ == self@.send(sending@, line@, now as int),
    {
        let pause: u64 = if now < self.send_after {
            self.send_after - now
        } else {
            0
        };
        Step::Send { sending, pause, bytes: with_return(line) }
    }

    /// How a request goes on when its wait is over.
    fn lapsed(&self, at: Listening, now: u64) -> (next: Next)
        requires
            in_time(now),
        ensures
            next@ == self@.lapsed(at@, now as int),
    {
        match at {
            Listening::Drain { errand, until: _ } => match errand {
                Errand::Settle => self.ask_from(0, now),
                Errand::Issue { command, line } => Next::Halt(
                    self.send(Sending::Command(command), line.as_str(), now),
                ),
                Errand::Pose(question) => {
                    let line = question.wire();
                    Next::Halt(self.send(Sending::Question(question), line.as_str(), now))
                },
            },
            Listening::Answer { question: _, until: _ } => Next::Halt(Step::Failed(Error::Timeout)),
            Listening::Watch { until: _ } => Next::Halt(Step::Done(Reply::Event(None))),
        }
    }

    /// How the listing of inputs goes on after a line.
    fn listed(&self, found: Vec<(String, String)>, until: u64, line: &str, now: u64) -> (next: Next)
        ensures
            next@ == self@.heard(
                (ListeningView::Answer {
                    question: QuestionView::Sources(crate::sources::views(found@)),
                    until: until as int,
                }),
                line@,
                now as int,
            ),
    {
        if same(&chars_of(line), "SSFUN END") {
            return Next::Halt(Step::Done(Reply::Sources(found)));
        }
        match source(line) {
            Some(told) => {
                if found.len() >= MOST_SOURCES {
                    return Next::Halt(Step::Failed(Error::Protocol));
                }
                let mut found = found;
                let ghost before = found@;
                let ghost view = (told.0@, told.1@);
                found.push(told);
                assert(crate::sources::views(found@) == crate::sources::views(before).push(view));
                Next::Listen(Listening::Answer { question: Question::Sources(found), until })
            },
            None => Next::Listen(Listening::Answer { question: Question::Sources(found), until }),
        }
    }

    /// How a request goes on after a line, which has been noted.
    fn heard(&self, at: Listening, line: &str, key: Option<Key>, now: u64) -> (next: Next)
        requires
            in_time(now),
            key == crate::state::key_of(line@),
        ensures
            next@ == self@.heard(at@, line@, now as int),
    {
        match at {
            Listening::Drain { errand, until } => Next::Listen(Listening::Drain { errand, until }),
            Listening::Answer { question, until } => match question {
                Question::Status(asked) => if key == Some(asked) {
                    self.ask_from(asked.index() + 1, now)
                } else {
                    Next::Listen(Listening::Answer { question: Question::Status(asked), until })
                },
                Question::Confirm(command) => if key == Some(command.key()) {
                    if command.confirmed(&self.state) {
                        Next::Halt(Step::Done(Reply::State(self.state.clone())))
                    } else {
                        Next::Halt(Step::Failed(Error::Protocol))
                    }
                } else {
                    Next::Listen(Listening::Answer { question: Question::Confirm(command), until })
                },
                Question::Sources(found) => self.listed(found, until, line, now),
            },
            Listening::Watch { until } => if key.is_some() {
                Next::Halt(Step::Done(Reply::Event(Some(self.state.clone()))))
            } else {
                Next::Listen(Listening::Watch { until })
            },
        }
    }

    /// Goes on with a request, as far as the bytes that are there allow.
    fn proceed(&mut self, at: Listening, now: u64) -> (step: Step)
        requires
            in_time(now),
        ensures
            (final(self)@, step@) == old(self)@.proceed(at@, now as int),
    {
        let mut here = at;
        loop
            invariant
                in_time(now),
                self@.proceed(here@, now as int) == old(self)@.proceed(at@, now as int),
            decreases self.buffer.len(), (if here@.until() <= now { 1int } else { 0int }),
        {
            proof {
                crate::line::lemma_front_shrinks(self.buffer@);
            }
            match self.line(here.until(), now) {
                Reading::Failed(Error::Timeout) => match self.lapsed(here, now) {
                    Next::Listen(next) => {
                        here = next;
                    },
                    Next::Halt(step) => return step,
                },
                Reading::Failed(error) => {
                    return Step::Failed(error);
                },
                Reading::Wait(wait) => {
                    return Step::Receive { listening: here, wait };
                },
                Reading::Line(line) => {
                    let key = self.note(line.as_str(), now);
                    match self.heard(here, line.as_str(), key, now) {
                        Next::Listen(next) => {
                            here = next;
                        },
                        Next::Halt(step) => return step,
                    }
                },
            }
        }
    }

    /// Begins a request for the receiver's state, which asks only for what has
    /// not been seen lately.
    ///
    /// Each question costs a paced round trip, and most are answered already: a
    /// command ends by observing its own value, and the receiver reports every
    /// other change as it happens. Reports that wait on the connection are taken
    /// first, so a value changed at the receiver itself is current without a
    /// question.
    pub fn status(&mut self, now: u64) -> (step: Step)
        requires
            in_time(now),
        ensures
            (final(self)@, step@) == old(self)@.status(now as int),
    {
        self.proceed(Listening::Drain { errand: Errand::Settle, until: now + QUIET }, now)
    }

    /// Begins a command. It is sent once, and once it is sent the value that it
    /// changes is asked for: an absolute command only succeeds when the receiver
    /// confirms the value.
    pub fn command(&mut self, command: Command, now: u64) -> (step: Step)
        requires
            in_time(now),
        ensures
            (final(self)@, step@) == old(self)@.command(command@, now as int),
    {
        match command.wire() {
            Ok(line) => self.proceed(
                Listening::Drain { errand: Errand::Issue { command, line }, until: now + QUIET },
                now,
            ),
            Err(error) => Step::Failed(error),
        }
    }

    /// Begins a request for the inputs and the names that the user gave them.
    pub fn sources(&mut self, now: u64) -> (step: Step)
        requires
            in_time(now),
        ensures
            (final(self)@, step@) == old(self)@.sources(now as int),
    {
        let found: Vec<(String, String)> = Vec::new();
        assert(crate::sources::views(found@) == Seq::<(Seq<char>, Seq<char>)>::empty());
        self.proceed(
            Listening::Drain {
                errand: Errand::Pose(Question::Sources(found)),
                until: now + QUIET,
            },
            now,
        )
    }

    /// Begins a wait of up to `wait` nanoseconds for a report that was not asked
    /// for.
    pub fn next_event(&mut self, wait: u64, now: u64) -> (step: Step)
        requires
            in_time(now),
            now + wait <= u64::MAX,
        ensures
            (final(self)@, step@) == old(self)@.next_event(wait as int, now as int),
    {
        self.proceed(Listening::Watch { until: now + wait }, now)
    }

    /// Hands over bytes that have arrived. No bytes at all mean that the
    /// receiver has closed the connection.
    pub fn received(&mut self, listening: Listening, bytes: &[u8], now: u64) -> (step: Step)
        requires
            in_time(now),
        ensures
            (final(self)@, step@) == old(self)@.received(listening@, bytes@, now as int),
    {
        if bytes.len() == 0 {
            return Step::Failed(
                Error::Io(Fault { kind: FaultKind::UnexpectedEof, os_code: None }),
            );
        }
        let ghost before = self@;
        self.buffer.extend_from_slice(bytes);
        assert(self@ == ClientView { buffer: before.buffer + bytes@, ..before });
        self.proceed(listening, now)
    }

    /// Hands over the failure of a read.
    pub fn read_failed(&mut self, listening: Listening, fault: Fault, now: u64) -> (step: Step)
        requires
            in_time(now),
        ensures
            (final(self)@, step@) == old(self)@.read_failed(listening@, fault, now as int),
    {
        match Error::from(fault) {
            Error::Timeout => match self.lapsed(listening, now) {
                Next::Listen(next) => self.proceed(next, now),
                Next::Halt(step) => step,
            },
            error => Step::Failed(error),
        }
    }

    /// Hands over the failure of a write. It ends the request: what has to be
    /// written is never written again.
    pub fn write_failed(&self, fault: Fault) -> (step: Step)
        ensures
            (self@, step@) == self@.write_failed(fault),
    {
        Step::Failed(Error::from(fault))
    }

    /// Says that the bytes of a [`Step::Send`] have been written.
    pub fn sent(&mut self, sending: Sending, now: u64) -> (step: Step)
        requires
            in_time(now),
        ensures
            (final(self)@, step@) == old(self)@.sent(sending@, now as int),
    {
        self.send_after = now + PACE;
        match sending {
            Sending::Command(command) => {
                if let Command::Power(true) = command {
                    self.send_after = now + WARM_UP;
                }
                self.proceed(
                    Listening::Drain {
                        errand: Errand::Pose(Question::Confirm(command)),
                        until: now + QUIET,
                    },
                    now,
                )
            },
            Sending::Question(question) => {
                self.proceed(Listening::Answer { question, until: now + TIMEOUT }, now)
            },
        }
    }
}

} // verus!
