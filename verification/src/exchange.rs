//! The course of a request: what is waited for, what is sent, what comes of it.
use crate::command::{Command, CommandView};
use crate::error::Error;
use crate::state::{Key, State, StateView};
use vstd::prelude::*;

verus! {

/// Something the receiver is asked, and what its answer is for.
pub enum Question {
    /// One of the values of a status.
    Status(Key),
    /// The value that a command has changed.
    Confirm(Command),
    /// The list of inputs, with those that it has told so far.
    Sources(Vec<(String, String)>),
}

/// What is to be done once the receiver has gone quiet.
pub enum Errand {
    /// Ask for the values of a status that are not known to be current.
    Settle,
    /// Give a command, by its line.
    Issue { command: Command, line: String },
    /// Ask a question.
    Pose(Question),
}

/// A request that needs more from the receiver. Times are in nanoseconds.
pub enum Listening {
    /// Until then, take what the receiver reports unasked.
    Drain { errand: Errand, until: u64 },
    /// Until then, wait for the answer.
    Answer { question: Question, until: u64 },
    /// Until then, wait for a report.
    Watch { until: u64 },
}

/// A request that has something on its way to the receiver.
pub enum Sending {
    Command(Command),
    Question(Question),
}

/// What came of a request.
pub enum Reply {
    /// The state of the receiver, of a status or after a command.
    State(State),
    /// The inputs and their names.
    Sources(Vec<(String, String)>),
    /// The state after a report, or nothing where none came in time.
    Event(Option<State>),
}

/// What the owner of the connection does next for a request.
pub enum Step {
    /// Wait for bytes, up to `wait` nanoseconds, and hand them over with
    /// [`Client::received`](crate::Client::received) or the failure with
    /// [`Client::read_failed`](crate::Client::read_failed).
    Receive { listening: Listening, wait: u64 },
    /// Pause for `pause` nanoseconds, write the bytes, and say so with
    /// [`Client::sent`](crate::Client::sent), or hand over the failure with
    /// [`Client::write_failed`](crate::Client::write_failed).
    Send { sending: Sending, pause: u64, bytes: Vec<u8> },
    /// The request has succeeded.
    Done(Reply),
    /// The request has failed.
    Failed(Error),
}

/// A [`Question`] as a mathematical value.
pub enum QuestionView {
    Status(Key),
    Confirm(CommandView),
    Sources(Seq<(Seq<char>, Seq<char>)>),
}

/// An [`Errand`] as a mathematical value.
pub enum ErrandView {
    Settle,
    Issue { command: CommandView, line: Seq<char> },
    Pose(QuestionView),
}

/// A [`Listening`] as a mathematical value.
pub enum ListeningView {
    Drain { errand: ErrandView, until: int },
    Answer { question: QuestionView, until: int },
    Watch { until: int },
}

/// A [`Sending`] as a mathematical value.
pub enum SendingView {
    Command(CommandView),
    Question(QuestionView),
}

/// A [`Reply`] as a mathematical value.
pub enum ReplyView {
    State(StateView),
    Sources(Seq<(Seq<char>, Seq<char>)>),
    Event(Option<StateView>),
}

/// A [`Step`] as a mathematical value.
pub enum StepView {
    Receive { listening: ListeningView, wait: int },
    Send { sending: SendingView, pause: int, bytes: Seq<u8> },
    Done(ReplyView),
    Failed(Error),
}

impl View for Question {
    type V = QuestionView;

    open spec fn view(&self) -> QuestionView {
        match *self {
            Question::Status(key) => QuestionView::Status(key),
            Question::Confirm(command) => QuestionView::Confirm(command@),
            Question::Sources(found) => QuestionView::Sources(crate::sources::views(found@)),
        }
    }
}

impl View for Errand {
    type V = ErrandView;

    open spec fn view(&self) -> ErrandView {
        match *self {
            Errand::Settle => ErrandView::Settle,
            Errand::Issue { command, line } => ErrandView::Issue {
                command: command@,
                line: line@,
            },
            Errand::Pose(question) => ErrandView::Pose(question@),
        }
    }
}

impl View for Listening {
    type V = ListeningView;

    open spec fn view(&self) -> ListeningView {
        match *self {
            Listening::Drain { errand, until } => ListeningView::Drain {
                errand: errand@,
                until: until as int,
            },
            Listening::Answer { question, until } => ListeningView::Answer {
                question: question@,
                until: until as int,
            },
            Listening::Watch { until } => ListeningView::Watch { until: until as int },
        }
    }
}

impl View for Sending {
    type V = SendingView;

    open spec fn view(&self) -> SendingView {
        match *self {
            Sending::Command(command) => SendingView::Command(command@),
            Sending::Question(question) => SendingView::Question(question@),
        }
    }
}

impl View for Reply {
    type V = ReplyView;

    open spec fn view(&self) -> ReplyView {
        match *self {
            Reply::State(state) => ReplyView::State(state@),
            Reply::Sources(sources) => ReplyView::Sources(crate::sources::views(sources@)),
            Reply::Event(Some(state)) => ReplyView::Event(Some(state@)),
            Reply::Event(None) => ReplyView::Event(None),
        }
    }
}

impl View for Step {
    type V = StepView;

    open spec fn view(&self) -> StepView {
        match *self {
            Step::Receive { listening, wait } => StepView::Receive {
                listening: listening@,
                wait: wait as int,
            },
            Step::Send { sending, pause, bytes } => StepView::Send {
                sending: sending@,
                pause: pause as int,
                bytes: bytes@,
            },
            Step::Done(reply) => StepView::Done(reply@),
            Step::Failed(error) => StepView::Failed(error),
        }
    }
}

impl QuestionView {
    /// The line that asks the question.
    pub open spec fn line(self) -> Seq<char> {
        match self {
            QuestionView::Status(key) => key.text() + "?"@,
            QuestionView::Confirm(command) => command.key().text() + "?"@,
            QuestionView::Sources(_) => "SSFUN ?"@,
        }
    }
}

impl ListeningView {
    /// When the wait is over.
    pub open spec fn until(self) -> int {
        match self {
            ListeningView::Drain { errand: _, until } => until,
            ListeningView::Answer { question: _, until } => until,
            ListeningView::Watch { until } => until,
        }
    }
}

/// The bytes that a line is sent as.
pub open spec fn line_bytes(line: Seq<char>) -> Seq<u8> {
    vstd::utf8::encode_utf8(line).push(crate::line::CARRIAGE_RETURN)
}

impl Question {
    /// The line that asks the question.
    pub fn wire(&self) -> (line: String)
        ensures
            line@ == self@.line(),
    {
        match self {
            Question::Status(key) => key.prefix().to_owned().concat("?"),
            Question::Confirm(command) => command.key().prefix().to_owned().concat("?"),
            Question::Sources(_) => "SSFUN ?".to_owned(),
        }
    }
}

impl Listening {
    /// When the wait is over.
    pub fn until(&self) -> (until: u64)
        ensures
            until == self@.until(),
    {
        match self {
            Listening::Drain { errand: _, until } => *until,
            Listening::Answer { question: _, until } => *until,
            Listening::Watch { until } => *until,
        }
    }
}

} // verus!
