//! The mathematical values show what they stand for, and nothing of it is left out.
use crate::client::Client;
use crate::command::{Command, CommandView};
use crate::dial::{Turn, TurnView};
use crate::exchange::{
    Errand, ErrandView, Listening, ListeningView, Question, QuestionView, Reply, ReplyView,
    Sending, SendingView, Step, StepView,
};
use crate::line::{Reading, ReadingView};
use crate::state::State;
use vstd::prelude::*;

verus! {

/// A state shows each of its values.
pub proof fn law_a_state_is_shown(state: State)
    ensures
        state@.on == state.on,
        state@.muted == state.muted,
        state@.volume_db == state.volume_db,
        state@.volume_minimum == state.volume_minimum,
        state@.input is Some <==> state.input is Some,
        state.input is Some ==> state@.input->0 == state.input->0@,
{
}

/// A connection shows its bytes, its state and its times.
pub proof fn law_a_client_is_shown(client: Client)
    ensures
        client@.buffer == client.buffer@,
        client@.state == client.state@,
        client@.send_after == client.send_after,
        client@.observed == client.observed@,
        client@.fresh == client.fresh,
{
}

/// A command shows what it asks for.
pub proof fn law_a_command_is_shown(command: Command)
    ensures
        command@ == (match command {
            Command::Power(on) => CommandView::Power(on),
            Command::Mute(on) => CommandView::Mute(on),
            Command::VolumeUp => CommandView::VolumeUp,
            Command::VolumeDown => CommandView::VolumeDown,
            Command::VolumeDb(db) => CommandView::VolumeDb(db),
            Command::Input(id) => CommandView::Input(id@),
        }),
{
}

/// A list of inputs shows each of them, with its name, in order.
pub proof fn law_a_list_is_shown(sources: Seq<(String, String)>)
    ensures
        crate::sources::views(sources).len() == sources.len(),
        forall|i: int|
            0 <= i < sources.len() ==> (#[trigger] crate::sources::views(sources)[i]) == (
                sources[i].0@,
                sources[i].1@,
            ),
{
}

/// A reply shows what was asked for.
pub proof fn law_a_reply_is_shown(reply: Reply)
    ensures
        match reply {
            Reply::State(state) => reply@ == ReplyView::State(state@),
            Reply::Sources(found) => reply@ == ReplyView::Sources(crate::sources::views(found@)),
            Reply::Event(Some(state)) => reply@ == ReplyView::Event(Some(state@)),
            Reply::Event(None) => reply@ == ReplyView::Event(None),
        },
{
}

/// A step shows what is to be done: how long to wait or to pause, which bytes to
/// write, and what the request comes to.
pub proof fn law_a_step_is_shown(step: Step)
    ensures
        match step {
            Step::Receive { listening, wait } => step@ == (StepView::Receive {
                listening: listening@,
                wait: wait as int,
            }),
            Step::Send { sending, pause, bytes } => step@ == (StepView::Send {
                sending: sending@,
                pause: pause as int,
                bytes: bytes@,
            }),
            Step::Done(reply) => step@ == StepView::Done(reply@),
            Step::Failed(error) => step@ == StepView::Failed(error),
        },
{
}

/// A question shows what is asked, and for what.
pub proof fn law_a_question_is_shown(question: Question)
    ensures
        match question {
            Question::Status(key) => question@ == QuestionView::Status(key),
            Question::Confirm(command) => question@ == QuestionView::Confirm(command@),
            Question::Sources(found) => question@ == QuestionView::Sources(
                crate::sources::views(found@),
            ),
        },
{
}

/// A wait shows what is waited for, and until when.
pub proof fn law_a_wait_is_shown(listening: Listening, errand: Errand, sending: Sending)
    ensures
        match listening {
            Listening::Drain { errand, until } => listening@ == (ListeningView::Drain {
                errand: errand@,
                until: until as int,
            }),
            Listening::Answer { question, until } => listening@ == (ListeningView::Answer {
                question: question@,
                until: until as int,
            }),
            Listening::Watch { until } => listening@ == (ListeningView::Watch {
                until: until as int,
            }),
        },
        listening@.until() == crate::laws::timing::end_of(listening@),
        match errand {
            Errand::Settle => errand@ == ErrandView::Settle,
            Errand::Issue { command, line } => errand@ == (ErrandView::Issue {
                command: command@,
                line: line@,
            }),
            Errand::Pose(question) => errand@ == ErrandView::Pose(question@),
        },
        match sending {
            Sending::Command(command) => sending@ == SendingView::Command(command@),
            Sending::Question(question) => sending@ == SendingView::Question(question@),
        },
{
}

/// A turn shows which address to try and for how long, or what came of the
/// dialling; a reading shows the line, or how long to wait for it.
pub proof fn law_a_turn_is_shown(turn: Turn, reading: Reading)
    ensures
        match turn {
            Turn::Try { attempt, wait } => turn@ == (TurnView::Try {
                deadline: attempt.deadline as int,
                addresses: attempt.addresses as int,
                address: attempt.address as int,
                wait: wait as int,
            }),
            Turn::Connected { address, client } => turn@ == (TurnView::Connected {
                address: address as int,
                client: client@,
            }),
            Turn::Failed(error) => turn@ == TurnView::Failed(error),
        },
        match reading {
            Reading::Line(line) => reading@ == ReadingView::Line(line@),
            Reading::Wait(left) => reading@ == ReadingView::Wait(left as int),
            Reading::Failed(error) => reading@ == ReadingView::Failed(error),
        },
{
}

} // verus!
