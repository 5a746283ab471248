//! What a request writes, and what a command comes to.
use crate::client::{ClientView, NextView, PACE, QUIET, TIMEOUT, WARM_UP};
use crate::command::CommandView;
use crate::error::{Error, Fault, FaultKind};
use crate::exchange::{
    ErrandView, ListeningView, QuestionView, ReplyView, SendingView, StepView,
};
use crate::laws::run::Happening;
use crate::line::Front;
use vstd::prelude::*;

verus! {

/// All that a request may still write behind a question.
pub open spec fn behind(question: QuestionView) -> Seq<Seq<u8>> {
    match question {
        QuestionView::Status(key) => crate::laws::run::questions_from(key.place() + 1),
        _ => seq![],
    }
}

/// All that a request may still write once it waits.
pub open spec fn agenda_of(listening: ListeningView) -> Seq<Seq<u8>> {
    match listening {
        ListeningView::Drain { errand: ErrandView::Settle, until: _ } => crate::laws::run::questions_from(0),
        ListeningView::Drain { errand: ErrandView::Issue { command, line }, until: _ } => seq![
            crate::exchange::line_bytes(line),
            crate::laws::run::asking(QuestionView::Confirm(command)),
        ],
        ListeningView::Drain { errand: ErrandView::Pose(question), until: _ } => {
            seq![crate::laws::run::asking(question)] + behind(question)
        },
        ListeningView::Answer { question, until: _ } => behind(question),
        ListeningView::Watch { until: _ } => seq![],
    }
}

/// All that a request may still write at a step.
pub open spec fn agenda(step: StepView) -> Seq<Seq<u8>> {
    match step {
        StepView::Receive { listening, wait: _ } => agenda_of(listening),
        StepView::Send { sending: SendingView::Command(command), pause: _, bytes } => {
            seq![bytes, crate::laws::run::asking(QuestionView::Confirm(command))]
        },
        StepView::Send { sending: SendingView::Question(question), pause: _, bytes } => {
            seq![bytes] + behind(question)
        },
        _ => seq![],
    }
}

/// Whether a wait belongs to a status.
pub open spec fn of_status(listening: ListeningView) -> bool {
    match listening {
        ListeningView::Drain { errand: ErrandView::Settle, until: _ } => true,
        ListeningView::Drain { errand: ErrandView::Issue { command: _, line: _ }, until: _ } => {
            false
        },
        ListeningView::Drain { errand: ErrandView::Pose(question), until: _ } => {
            question is Status
        },
        ListeningView::Answer { question, until: _ } => question is Status,
        ListeningView::Watch { until: _ } => false,
    }
}

/// Whether a step belongs to a status.
pub open spec fn in_status(step: StepView) -> bool {
    match step {
        StepView::Receive { listening, wait: _ } => of_status(listening),
        StepView::Send { sending: SendingView::Question(question), pause: _, bytes: _ } => {
            question is Status
        },
        _ => false,
    }
}

/// Whether a request writes its whole agenda unless it fails: only a status may
/// leave questions out, and only where values can be current.
pub open spec fn complete(client: ClientView, step: StepView) -> bool {
    !in_status(step) || client.fresh <= 0
}

/// Where no value is ever current, a status asks for the value at its place.
proof fn lemma_nothing_is_current(client: ClientView, place: int, now: int)
    requires
        client.fresh <= 0,
        0 <= place <= 4,
    ensures
        match client.ask_from(place, now) {
            NextView::Listen(next) => {
                agenda_of(next) == crate::laws::run::questions_from(place) && of_status(next)
            },
            NextView::Halt(step) => step is Done && place == 4,
        },
{
    if let NextView::Listen(next) = client.ask_from(place, now) {
        assert(agenda_of(next) =~= crate::laws::run::questions_from(place));
    }
}

/// A request keeps its agenda, unless it fails.
proof fn lemma_proceed_keeps_agenda(client: ClientView, at: ListeningView, now: int)
    requires
        !of_status(at) || client.fresh <= 0,
    ensures
        ({
            let (later, step) = client.proceed(at, now);
            &&& step is Failed || agenda(step) == agenda_of(at)
            &&& complete(later, step)
            &&& later.fresh == client.fresh
        }),
    decreases client.buffer.len(), (if at.until() <= now { 1int } else { 0int }),
{
    crate::line::lemma_front_shrinks(client.buffer);
    let (front, rest) = crate::line::front(client.buffer);
    let left = ClientView { buffer: rest, ..client };
    match front {
        Front::Malformed => {},
        Front::Incomplete => if now >= at.until() {
            if client.fresh <= 0 {
                lemma_nothing_is_current(left, 0, now);
            }
            if let NextView::Listen(next) = left.lapsed(at, now) {
                lemma_proceed_keeps_agenda(left, next, now);
            }
        },
        Front::Line(line) => {
            let noted = left.noted(line, now);
            if let ListeningView::Answer { question: QuestionView::Status(key), until: _ } = at {
                lemma_nothing_is_current(noted, key.place() + 1, now);
            }
            if let NextView::Listen(next) = noted.heard(at, line, now) {
                lemma_proceed_keeps_agenda(noted, next, now);
            }
        },
    }
}

/// A request strikes what it writes off its agenda, and nothing else, unless it
/// fails.
proof fn lemma_react_follows_agenda(client: ClientView, step: StepView, what: Happening)
    requires
        complete(client, step),
    ensures
        ({
            let (later, next) = client.react(step, what);
            &&& complete(later, next)
            &&& next is Failed || crate::laws::run::writes(step, what) + agenda(next) == agenda(step)
            &&& crate::laws::run::writes(step, what).is_prefix_of(agenda(step))
        }),
{
    match step {
        StepView::Receive { listening, wait: _ } => match what {
            Happening::Received { bytes, now } => {
                lemma_proceed_keeps_agenda(
                    ClientView { buffer: client.buffer + bytes, ..client },
                    listening,
                    now,
                );
            },
            Happening::ReadFailed { fault: _, now } => {
                if client.fresh <= 0 {
                    lemma_nothing_is_current(client, 0, now);
                }
                if let NextView::Listen(next) = client.lapsed(listening, now) {
                    lemma_proceed_keeps_agenda(client, next, now);
                }
            },
            _ => {},
        },
        StepView::Send { sending, pause: _, bytes } => match what {
            Happening::Sent { now } => match sending {
                SendingView::Command(command) => {
                    lemma_proceed_keeps_agenda(
                        ClientView {
                            send_after: now + (if command == CommandView::Power(true) {
                                WARM_UP
                            } else {
                                PACE
                            }),
                            ..client
                        },
                        ListeningView::Drain {
                            errand: ErrandView::Pose(QuestionView::Confirm(command)),
                            until: now + QUIET,
                        },
                        now,
                    );
                },
                SendingView::Question(question) => {
                    lemma_proceed_keeps_agenda(
                        ClientView { send_after: now + PACE, ..client },
                        ListeningView::Answer { question, until: now + TIMEOUT },
                        now,
                    );
                },
            },
            _ => {},
        },
        _ => {},
    }
}

/// A request writes what is on its agenda, in order, and all of it unless it
/// fails.
proof fn lemma_run_follows_agenda(client: ClientView, step: StepView, course: Seq<Happening>)
    requires
        complete(client, step),
    ensures
        client.written(step, course).is_prefix_of(agenda(step)),
        ({
            let end = client.run(step, course).1;
            end is Failed || client.written(step, course) + agenda(end) == agenda(step)
        }),
    decreases course.len(),
{
    if course.len() > 0 {
        let what = course.first();
        let (later, next) = client.react(step, what);
        let rest = course.drop_first();
        lemma_react_follows_agenda(client, step, what);
        lemma_run_follows_agenda(later, next, rest);
        if next is Failed {
            crate::laws::run::lemma_over_is_over(later, next, rest);
        }
    }
}

/// A command is never sent again. Whatever happens, what is written for it is
/// its line, once, and then the question for the value that it changes, once;
/// where it fails there may be less. It succeeds only once both are written.
pub proof fn law_a_command_is_sent_once(
    client: ClientView,
    command: CommandView,
    now: int,
    course: Seq<Happening>,
)
    ensures
        ({
            let (begun, step) = client.command(command, now);
            let written = begun.written(step, course);
            match command.line() {
                Some(line) => {
                    let both = seq![
                        crate::exchange::line_bytes(line),
                        crate::laws::run::asking(QuestionView::Confirm(command)),
                    ];
                    &&& written.is_prefix_of(both)
                    &&& begun.run(step, course).1 is Done ==> written == both
                },
                None => {
                    &&& begun == client
                    &&& begun.run(step, course) == (client, StepView::Failed(Error::Invalid))
                    &&& written.len() == 0
                },
            }
        }),
{
    let (begun, step) = client.command(command, now);
    match command.line() {
        Some(line) => {
            let at = ListeningView::Drain {
                errand: ErrandView::Issue { command, line },
                until: now + QUIET,
            };
            lemma_proceed_keeps_agenda(client, at, now);
            lemma_run_follows_agenda(begun, step, course);
            if step is Failed {
                crate::laws::run::lemma_over_is_over(begun, step, course);
            }
        },
        None => {
            crate::laws::run::lemma_over_is_over(begun, step, course);
        },
    }
}

/// The list of inputs is asked for once, whatever happens.
pub proof fn law_inputs_are_asked_for_once(client: ClientView, now: int, course: Seq<Happening>)
    ensures
        ({
            let (begun, step) = client.sources(now);
            let written = begun.written(step, course);
            let question = seq![crate::exchange::line_bytes("SSFUN ?"@)];
            &&& written.is_prefix_of(question)
            &&& begun.run(step, course).1 is Done ==> written == question
        }),
{
    let (begun, step) = client.sources(now);
    let at = ListeningView::Drain {
        errand: ErrandView::Pose(QuestionView::Sources(seq![])),
        until: now + QUIET,
    };
    lemma_proceed_keeps_agenda(client, at, now);
    lemma_run_follows_agenda(begun, step, course);
    if step is Failed {
        crate::laws::run::lemma_over_is_over(begun, step, course);
    }
}

/// To wait for a report sends nothing, whatever happens.
pub proof fn law_watching_is_silent(
    client: ClientView,
    wait: int,
    now: int,
    course: Seq<Happening>,
)
    ensures
        ({
            let (begun, step) = client.next_event(wait, now);
            begun.written(step, course).len() == 0
        }),
{
    let (begun, step) = client.next_event(wait, now);
    lemma_proceed_keeps_agenda(client, ListeningView::Watch { until: now + wait }, now);
    lemma_run_follows_agenda(begun, step, course);
    if step is Failed {
        crate::laws::run::lemma_over_is_over(begun, step, course);
    }
}

/// Where no value is ever taken as current, a status asks for all four: what it
/// writes is the four questions in order, and all of them where it succeeds.
pub proof fn law_without_a_window_every_value_is_asked(
    client: ClientView,
    now: int,
    course: Seq<Happening>,
)
    requires
        client.fresh <= 0,
    ensures
        ({
            let (begun, step) = client.status(now);
            let written = begun.written(step, course);
            let questions = crate::laws::run::questions_from(0);
            &&& written.is_prefix_of(questions)
            &&& begun.run(step, course).1 is Done ==> written == questions
        }),
{
    let (begun, step) = client.status(now);
    let at = ListeningView::Drain { errand: ErrandView::Settle, until: now + QUIET };
    lemma_proceed_keeps_agenda(client, at, now);
    lemma_run_follows_agenda(begun, step, course);
    if step is Failed {
        crate::laws::run::lemma_over_is_over(begun, step, course);
    }
}

/// Whether a step belongs to a command. Where it is the last one of a success,
/// the receiver has reported the value that the command changes since a time,
/// and it is the value that the command asks for.
pub open spec fn serves(
    client: ClientView,
    step: StepView,
    command: CommandView,
    start: int,
) -> bool {
    match step {
        StepView::Receive { listening, wait: _ } => listens_for(listening, command),
        StepView::Send { sending: SendingView::Command(given), pause: _, bytes: _ } => {
            given == command
        },
        StepView::Send { sending: SendingView::Question(question), pause: _, bytes: _ } => {
            question == QuestionView::Confirm(command)
        },
        StepView::Done(reply) => {
            &&& reply == ReplyView::State(client.state)
            &&& command.confirmed(client.state)
            &&& client.state.has(command.key())
            &&& client.observed[command.key().place()] matches Some(seen)
            &&& seen >= start
        },
        StepView::Failed(_) => true,
    }
}

/// Whether a wait belongs to a command.
pub open spec fn listens_for(listening: ListeningView, command: CommandView) -> bool {
    match listening {
        ListeningView::Drain { errand: ErrandView::Issue { command: given, line: _ }, until: _ } => {
            given == command
        },
        ListeningView::Drain { errand: ErrandView::Pose(question), until: _ } => {
            question == QuestionView::Confirm(command)
        },
        ListeningView::Answer { question, until: _ } => question == QuestionView::Confirm(command),
        _ => false,
    }
}

proof fn lemma_proceed_serves(
    client: ClientView,
    at: ListeningView,
    now: int,
    command: CommandView,
    start: int,
)
    requires
        listens_for(at, command),
        client.observed.len() == 4,
        crate::laws::run::timely(now, start),
    ensures
        ({
            let (later, step) = client.proceed(at, now);
            serves(later, step, command, start) && later.observed.len() == 4
        }),
    decreases client.buffer.len(),
{
    crate::line::lemma_front_shrinks(client.buffer);
    let (front, rest) = crate::line::front(client.buffer);
    if let Front::Line(line) = front {
        let left = ClientView { buffer: rest, ..client }.noted(line, now);
        if let NextView::Listen(next) = left.heard(at, line, now) {
            lemma_proceed_serves(left, next, now, command, start);
        }
    }
}

proof fn lemma_run_serves(
    client: ClientView,
    step: StepView,
    course: Seq<Happening>,
    command: CommandView,
    start: int,
)
    requires
        serves(client, step, command, start),
        client.observed.len() == 4,
        crate::laws::run::all_timely(course, start),
    ensures
        ({
            let (later, end) = client.run(step, course);
            serves(later, end, command, start)
        }),
    decreases course.len(),
{
    if course.len() > 0 {
        let what = course[0];
        let rest = course.drop_first();
        assert(crate::laws::run::all_timely(rest, start));
        match step {
            StepView::Receive { listening, wait: _ } => match what {
                Happening::Received { bytes, now } => {
                    lemma_proceed_serves(
                        ClientView { buffer: client.buffer + bytes, ..client },
                        listening,
                        now,
                        command,
                        start,
                    );
                },
                _ => {},
            },
            StepView::Send { sending, pause: _, bytes: _ } => match what {
                Happening::Sent { now } => match sending {
                    SendingView::Command(_) => {
                        lemma_proceed_serves(
                            ClientView {
                                send_after: now + (if command == CommandView::Power(true) {
                                    WARM_UP
                                } else {
                                    PACE
                                }),
                                ..client
                            },
                            ListeningView::Drain {
                                errand: ErrandView::Pose(QuestionView::Confirm(command)),
                                until: now + QUIET,
                            },
                            now,
                            command,
                            start,
                        );
                    },
                    SendingView::Question(question) => {
                        lemma_proceed_serves(
                            ClientView { send_after: now + PACE, ..client },
                            ListeningView::Answer { question, until: now + TIMEOUT },
                            now,
                            command,
                            start,
                        );
                    },
                },
                _ => {},
            },
            _ => {},
        }
        let (later, next) = client.react(step, what);
        lemma_run_serves(later, next, rest, command, start);
    }
}

/// Whether a step belongs to a command that has not yet asked for its value.
pub open spec fn unasked(step: StepView, command: CommandView) -> bool {
    match step {
        StepView::Receive { listening, wait: _ } => {
            listens_for(listening, command) && listening is Drain
        },
        StepView::Send { sending: SendingView::Command(given), pause: _, bytes: _ } => {
            given == command
        },
        StepView::Send { sending: SendingView::Question(question), pause: _, bytes } => {
            &&& question == QuestionView::Confirm(command)
            &&& bytes == crate::laws::run::asking(question)
        },
        StepView::Done(_) => false,
        StepView::Failed(_) => true,
    }
}

proof fn lemma_proceed_is_unasked(
    client: ClientView,
    at: ListeningView,
    now: int,
    command: CommandView,
)
    requires
        listens_for(at, command),
        at is Drain,
        client.observed.len() == 4,
    ensures
        ({
            let (later, step) = client.proceed(at, now);
            unasked(step, command) && later.observed.len() == 4
        }),
    decreases client.buffer.len(),
{
    crate::line::lemma_front_shrinks(client.buffer);
    let (front, rest) = crate::line::front(client.buffer);
    if let Front::Line(line) = front {
        lemma_proceed_is_unasked(
            ClientView { buffer: rest, ..client }.noted(line, now),
            at,
            now,
            command,
        );
    }
}

proof fn lemma_success_is_asked_for(
    client: ClientView,
    step: StepView,
    course: Seq<Happening>,
    command: CommandView,
    start: int,
) -> (place: int)
    requires
        unasked(step, command),
        client.observed.len() == 4,
        crate::laws::run::clocked(course, start),
        0 <= start,
    ensures
        ({
            let (later, end) = client.run(step, course);
            end is Done ==> {
                &&& crate::laws::run::asks_at(
                    client,
                    step,
                    course,
                    place,
                    QuestionView::Confirm(command),
                )
                &&& serves(later, end, command, course[place]->Sent_now)
            }
        }),
    decreases course.len(),
{
    if course.len() == 0 {
        0
    } else {
        let what = course.first();
        let rest = course.drop_first();
        let (later, next) = client.react(step, what);
        let time = match crate::laws::run::time_of(what) {
            Some(time) => time,
            None => start,
        };
        if step is Send && step->sending is Question && what is Sent {
            let sent = ClientView { send_after: time + PACE, ..client };
            let at = ListeningView::Answer {
                question: QuestionView::Confirm(command),
                until: time + TIMEOUT,
            };
            lemma_proceed_serves(sent, at, time, command, time);
            crate::laws::run::lemma_clocked_is_timely(rest, time, time);
            lemma_run_serves(later, next, rest, command, time);
            assert(course.take(0) =~= seq![]);
            0
        } else {
            match step {
                StepView::Receive { listening, wait: _ } => if let Happening::Received {
                    bytes,
                    now,
                } = what {
                    lemma_proceed_is_unasked(
                        ClientView { buffer: client.buffer + bytes, ..client },
                        listening,
                        now,
                        command,
                    );
                },
                StepView::Send { sending: _, pause: _, bytes: _ } => if what is Sent {
                    lemma_proceed_is_unasked(
                        ClientView {
                            send_after: time + (if command == CommandView::Power(true) {
                                WARM_UP
                            } else {
                                PACE
                            }),
                            ..client
                        },
                        ListeningView::Drain {
                            errand: ErrandView::Pose(QuestionView::Confirm(command)),
                            until: time + QUIET,
                        },
                        time,
                        command,
                    );
                },
                _ => {},
            }
            let place = lemma_success_is_asked_for(later, next, rest, command, time);
            if client.run(step, course).1 is Done {
                crate::laws::run::lemma_further_on(
                    client,
                    step,
                    course,
                    place,
                    QuestionView::Confirm(command),
                );
            }
            place + 1
        }
    }
}

/// A command succeeds only with a state in which the receiver has reported the
/// value that the command changes since the question for it was written, and for
/// an absolute command only with the value that it asks for.
pub proof fn law_success_is_confirmed(
    client: ClientView,
    command: CommandView,
    now: int,
    course: Seq<Happening>,
)
    requires
        client.observed.len() == 4,
        0 <= now,
        crate::laws::run::clocked(course, now),
    ensures
        ({
            let (begun, step) = client.command(command, now);
            let (later, end) = begun.run(step, course);
            end matches StepView::Done(reply) ==> {
                &&& reply == ReplyView::State(later.state)
                &&& command.confirmed(later.state)
                &&& exists|place: int| #[trigger]
                    crate::laws::run::asks_at(
                        begun,
                        step,
                        course,
                        place,
                        QuestionView::Confirm(command),
                    ) && later.observed[command.key().place()] is Some
                        && later.observed[command.key().place()]->0 >= course[place]->Sent_now
            }
        }),
{
    let (begun, step) = client.command(command, now);
    if let Some(line) = command.line() {
        let at = ListeningView::Drain {
            errand: ErrandView::Issue { command, line },
            until: now + QUIET,
        };
        lemma_proceed_is_unasked(client, at, now, command);
    }
    let place = lemma_success_is_asked_for(begun, step, course, command, now);
}

/// Where a command succeeds, the state that it replies with has the value that the
/// command asked for: the same power, mute or input, the same level or minimum
/// volume for -80 dB. After a step of the volume it has a volume.
pub proof fn law_success_has_the_value(
    client: ClientView,
    command: CommandView,
    now: int,
    course: Seq<Happening>,
)
    requires
        client.observed.len() == 4,
    ensures
        ({
            let (begun, step) = client.command(command, now);
            begun.run(step, course).1 matches StepView::Done(reply) ==> {
                &&& reply matches ReplyView::State(state)
                &&& match command {
                    CommandView::Power(on) => state.on == Some(on),
                    CommandView::Mute(on) => state.muted == Some(on),
                    CommandView::Input(id) => state.input == Some(id),
                    CommandView::VolumeDb(db) => state.volume_db == Some(db) || (db.tenths == -800
                        && state.volume_minimum),
                    CommandView::VolumeUp | CommandView::VolumeDown => state.volume_db is Some
                        || state.volume_minimum,
                }
            }
        }),
{
    let (begun, step) = client.command(command, now);
    if let Some(line) = command.line() {
        let at = ListeningView::Drain {
            errand: ErrandView::Issue { command, line },
            until: now + QUIET,
        };
        lemma_proceed_serves(client, at, now, command, 0);
    }
    lemma_run_serves(begun, step, course, command, 0);
    let (later, end) = begun.run(step, course);
    crate::laws::words::law_a_command_is_confirmed_by_its_value(command, later.state);
}

/// The answer decides, behind any other lines.
proof fn lemma_proceed_is_answered(
    client: ClientView,
    command: CommandView,
    until: int,
    now: int,
    lines: Seq<Seq<char>>,
    answer: Seq<char>,
)
    requires
        crate::laws::lines::opens(client.buffer, lines.push(answer)),
        forall|i: int|
            0 <= i < lines.len() ==> crate::state::key_of(#[trigger] lines[i]) != Some(
                command.key(),
            ),
        crate::state::key_of(answer) == Some(command.key()),
    ensures
        ({
            let at = ListeningView::Answer { question: QuestionView::Confirm(command), until };
            let state = crate::laws::lines::after_lines(client.state, lines.push(answer));
            client.proceed(at, now).1 == (if command.confirmed(state) {
                StepView::Done(ReplyView::State(state))
            } else {
                StepView::Failed(Error::Protocol)
            })
        }),
    decreases lines.len(),
{
    let all = lines.push(answer);
    let rest = crate::line::front(client.buffer).1;
    let left = ClientView { buffer: rest, ..client };
    if lines.len() == 0 {
        assert(all.drop_first() =~= seq![]);
        crate::laws::lines::lemma_opens_none(rest, client.state.after(answer));
    } else {
        let line = lines[0];
        assert(all.first() == line);
        assert(all.drop_first() =~= lines.drop_first().push(answer));
        lemma_proceed_is_answered(
            left.noted(line, now),
            command,
            until,
            now,
            lines.drop_first(),
            answer,
        );
    }
}

/// The answer decides on a command. Whenever the command waits for its answer,
/// whatever has happened before: it goes by the first report of the value that it
/// changes, behind any other lines. It succeeds with the state after that report
/// if the state has the value that it asks for, and fails otherwise; it fails
/// where no answer comes in time, and where the connection is closed.
pub proof fn law_the_answer_decides(
    client: ClientView,
    command: CommandView,
    now: int,
    course: Seq<Happening>,
    bytes: Seq<u8>,
    lines: Seq<Seq<char>>,
    answer: Seq<char>,
    quiet: Fault,
    then: int,
)
    requires
        client.observed.len() == 4,
        ({
            let (begun, first) = client.command(command, now);
            let (there, step) = begun.run(first, course);
            &&& step matches StepView::Receive { listening, wait: _ }
            &&& listening is Answer
            &&& crate::laws::lines::opens(there.buffer + bytes, lines.push(answer))
        }),
        bytes.len() > 0,
        forall|i: int|
            0 <= i < lines.len() ==> crate::state::key_of(#[trigger] lines[i]) != Some(
                command.key(),
            ),
        crate::state::key_of(answer) == Some(command.key()),
        quiet.is_timeout(),
    ensures
        ({
            let (begun, first) = client.command(command, now);
            let (there, step) = begun.run(first, course);
            let state = crate::laws::lines::after_lines(there.state, lines.push(answer));
            &&& there.react(step, Happening::Received { bytes, now: then }).1 == (
            if command.confirmed(state) {
                StepView::Done(ReplyView::State(state))
            } else {
                StepView::Failed(Error::Protocol)
            })
            &&& there.react(step, Happening::ReadFailed { fault: quiet, now: then }).1
                == StepView::Failed(Error::Timeout)
            &&& there.react(step, Happening::Received { bytes: seq![], now: then }).1
                == StepView::Failed(Error::Io(Fault::closed()))
        }),
{
    let (begun, first) = client.command(command, now);
    let (there, step) = begun.run(first, course);
    if let Some(line) = command.line() {
        lemma_proceed_serves(
            client,
            ListeningView::Drain {
                errand: ErrandView::Issue { command, line },
                until: now + QUIET,
            },
            now,
            command,
            0,
        );
    }
    lemma_run_serves(begun, first, course, command, 0);
    lemma_proceed_is_answered(
        ClientView { buffer: there.buffer + bytes, ..there },
        command,
        step->listening.until(),
        then,
        lines,
        answer,
    );
}

/// Whether a command waits for its answer at the end of a course.
pub open spec fn awaits(
    client: ClientView,
    command: CommandView,
    now: int,
    course: Seq<Happening>,
) -> bool {
    let (begun, first) = client.command(command, now);
    begun.run(first, course).1 matches StepView::Receive { listening, wait: _ }
        && listening is Answer
}

/// The value that is reported decides. Whenever a command waits for its answer,
/// the first line that tells the value which it changes ends it: with the state
/// after that line where this has the value asked for, and with a protocol error
/// where it has another. What other lines tell in front of it is in the state.
pub proof fn law_the_reported_value_decides(
    client: ClientView,
    command: CommandView,
    now: int,
    course: Seq<Happening>,
    bytes: Seq<u8>,
    lines: Seq<Seq<char>>,
    answer: Seq<char>,
    then: int,
)
    requires
        client.observed.len() == 4,
        awaits(client, command, now, course),
        ({
            let (begun, first) = client.command(command, now);
            let there = begun.run(first, course).0;
            crate::laws::lines::opens(there.buffer + bytes, lines.push(answer))
        }),
        bytes.len() > 0,
        forall|i: int|
            0 <= i < lines.len() ==> crate::laws::words::value_in(#[trigger] lines[i]) != Some(
                crate::laws::words::value_of(command),
            ),
        crate::laws::words::value_in(answer) == Some(crate::laws::words::value_of(command)),
    ensures
        ({
            let (begun, first) = client.command(command, now);
            let (there, step) = begun.run(first, course);
            let state = crate::laws::lines::after_lines(there.state, lines.push(answer));
            there.react(step, Happening::Received { bytes, now: then }).1 == (
            if crate::laws::words::has_value(command, state) {
                StepView::Done(ReplyView::State(state))
            } else {
                StepView::Failed(Error::Protocol)
            })
        }),
{
    let (begun, first) = client.command(command, now);
    let there = begun.run(first, course).0;
    let state = crate::laws::lines::after_lines(there.state, lines.push(answer));
    crate::laws::words::law_a_command_is_confirmed_by_its_value(command, state);
    crate::laws::words::law_reports_are_complete(answer);
    assert forall|i: int| 0 <= i < lines.len() implies crate::state::key_of(#[trigger] lines[i])
        != Some(command.key()) by {
        crate::laws::words::law_reports_are_complete(lines[i]);
    }
    law_the_answer_decides(
        client,
        command,
        now,
        course,
        bytes,
        lines,
        answer,
        Fault { kind: FaultKind::TimedOut, os_code: None },
        then,
    );
}

/// A step of the volume succeeds with any reading. Whenever it waits for its
/// answer, the first line that tells a volume completes it, with that volume,
/// whatever it is.
pub proof fn law_a_step_of_the_volume_succeeds(
    client: ClientView,
    command: CommandView,
    now: int,
    course: Seq<Happening>,
    bytes: Seq<u8>,
    lines: Seq<Seq<char>>,
    answer: Seq<char>,
    then: int,
)
    requires
        client.observed.len() == 4,
        command is VolumeUp || command is VolumeDown,
        awaits(client, command, now, course),
        ({
            let (begun, first) = client.command(command, now);
            let there = begun.run(first, course).0;
            crate::laws::lines::opens(there.buffer + bytes, lines.push(answer))
        }),
        bytes.len() > 0,
        forall|i: int|
            0 <= i < lines.len() ==> crate::laws::words::volume_in(#[trigger] lines[i]) is None,
        crate::laws::words::volume_in(answer) is Some,
    ensures
        ({
            let (begun, first) = client.command(command, now);
            let (there, step) = begun.run(first, course);
            let tenths = crate::laws::words::volume_in(answer)->0;
            &&& there.react(step, Happening::Received { bytes, now: then }).1
                matches StepView::Done(reply)
            &&& reply matches ReplyView::State(state)
            &&& state == crate::laws::lines::after_lines(there.state, lines.push(answer))
            &&& state.volume_minimum == (tenths == 0)
            &&& tenths > 0 ==> state.volume_db is Some && state.volume_db->0.tenths == tenths - 800
        }),
{
    let (begun, first) = client.command(command, now);
    let there = begun.run(first, course).0;
    crate::laws::words::law_reports_are_complete(answer);
    assert forall|i: int|
        0 <= i < lines.len() implies crate::laws::words::value_in(#[trigger] lines[i]) != Some(
        1int,
    ) by {
        crate::laws::words::law_reports_are_complete(lines[i]);
        assert(crate::laws::words::volume_in(lines[i]) is None);
    }
    law_the_reported_value_decides(client, command, now, course, bytes, lines, answer, then);
    let before = crate::laws::lines::after_lines(there.state, lines);
    crate::laws::words::law_reports_are_sound(before, answer);
    crate::laws::lines::lemma_after_both(there.state, lines, seq![answer]);
    assert(lines + seq![answer] =~= lines.push(answer));
    assert(seq![answer].drop_first() =~= seq![]);
    crate::laws::lines::lemma_opens_none(bytes, before.after(answer));
}

/// While the receiver is heard out, its reports are taken and the errand waits.
pub proof fn lemma_proceed_hears_out(
    client: ClientView,
    at: ListeningView,
    now: int,
    lines: Seq<Seq<char>>,
)
    requires
        at is Drain,
        now < at.until(),
        crate::laws::lines::holds(client.buffer, lines),
    ensures
        ({
            let (later, step) = client.proceed(at, now);
            &&& step == (StepView::Receive { listening: at, wait: at.until() - now })
            &&& later.buffer == crate::laws::lines::left_over(client.buffer, lines)
            &&& later.state == crate::laws::lines::after_lines(client.state, lines)
            &&& later.send_after == client.send_after
        }),
    decreases lines.len(),
{
    if lines.len() > 0 {
        let rest = crate::line::front(client.buffer).1;
        let noted = ClientView { buffer: rest, ..client }.noted(lines[0], now);
        lemma_proceed_hears_out(noted, at, now, lines.drop_first());
    }
}

pub proof fn lemma_run_hears_out(
    client: ClientView,
    step: StepView,
    course: Seq<Happening>,
    lines: Seq<Seq<char>>,
)
    requires
        step is Receive,
        step->listening is Drain,
        crate::laws::run::arrivals(course, step->listening.until()),
        crate::laws::lines::holds(client.buffer + crate::laws::run::arrived(course), lines),
        crate::line::front(client.buffer) == (Front::Incomplete, client.buffer),
    ensures
        ({
            let (later, end) = client.run(step, course);
            let all = client.buffer + crate::laws::run::arrived(course);
            &&& end is Receive
            &&& end->listening == step->listening
            &&& course.len() > 0 ==> end->wait == step->listening.until()
                - crate::laws::run::time_of(course.last())->0
            &&& later.send_after == client.send_after
            &&& later.buffer == crate::laws::lines::left_over(all, lines)
            &&& later.state == crate::laws::lines::after_lines(client.state, lines)
        }),
    decreases course.len(),
{
    if course.len() == 0 {
        assert(client.buffer + crate::laws::run::arrived(course) =~= client.buffer);
    } else {
        let rest = course.drop_first();
        let more = crate::laws::run::arrived(rest);
        let at = step->listening;
        if let Happening::Received { bytes, now } = course.first() {
            let fed = ClientView { buffer: client.buffer + bytes, ..client };
            assert(client.buffer + crate::laws::run::arrived(course) =~= fed.buffer + more);
            let there = crate::laws::lines::lemma_holds_in_parts(fed.buffer, more, lines);
            let (first, second) = (lines.take(there), lines.skip(there));
            assert(first + second =~= lines);
            lemma_proceed_hears_out(fed, at, now, first);
            let (later, next) = client.react(step, course.first());
            crate::laws::wire::law_what_waits_is_short(
                crate::laws::lines::behind(fed.buffer, first),
            );
            lemma_run_hears_out(later, next, rest, second);
            crate::laws::lines::lemma_after_both(client.state, first, second);
        }
    }
}

/// The course of a command before and between whose two writes the receiver
/// reports something, and then is quiet.
pub open spec fn interrupted(
    before: Seq<Happening>,
    lull: int,
    sent: int,
    between: Seq<Happening>,
    next_lull: int,
    asked: int,
    quiet: Fault,
) -> Seq<Happening> {
    (before + seq![
        Happening::ReadFailed { fault: quiet, now: lull },
        Happening::Sent { now: sent },
    ]) + (between + seq![
        Happening::ReadFailed { fault: quiet, now: next_lull },
        Happening::Sent { now: asked },
    ])
}

/// Two happenings, one after the other.
proof fn lemma_run_two(client: ClientView, step: StepView, one: Happening, two: Happening)
    ensures
        ({
            let (there, next) = client.react(step, one);
            client.run(step, seq![one, two]) == there.react(next, two)
        }),
{
    let (there, next) = client.react(step, one);
    let (last, end) = there.react(next, two);
    assert(seq![one, two].drop_first() =~= seq![two]);
    assert(seq![two].drop_first() =~= seq![]);
    assert(last.run(end, seq![]) == (last, end));
    assert(there.run(next, seq![two]) == (last, end));
}

/// Reports do not disturb a command. What the receiver reports before the command
/// is written, and between it and the question, is taken into the state, in
/// pieces or whole; then the command waits for its answer, for two seconds.
pub proof fn law_reports_do_not_disturb_a_command(
    client: ClientView,
    command: CommandView,
    now: int,
    before: Seq<Happening>,
    first: Seq<Seq<char>>,
    lull: int,
    sent: int,
    between: Seq<Happening>,
    second: Seq<Seq<char>>,
    next_lull: int,
    asked: int,
    quiet: Fault,
)
    requires
        command.line() is Some,
        quiet.is_timeout(),
        crate::laws::run::arrivals(before, now + 10_000_000),
        crate::laws::run::arrivals(between, sent + 10_000_000),
        ({
            let all = client.buffer + crate::laws::run::arrived(before);
            let left = crate::laws::lines::left_over(all, first);
            &&& crate::laws::lines::holds(all, first)
            &&& crate::laws::lines::holds(left + crate::laws::run::arrived(between), second)
        }),
    ensures
        ({
            let (begun, step) = client.command(command, now);
            let (there, waiting) = begun.run(
                step,
                interrupted(before, lull, sent, between, next_lull, asked, quiet),
            );
            let all = client.buffer + crate::laws::run::arrived(before);
            let left = crate::laws::lines::left_over(all, first);
            &&& waiting == (StepView::Receive {
                listening: ListeningView::Answer {
                    question: QuestionView::Confirm(command),
                    until: asked + 2_000_000_000,
                },
                wait: 2_000_000_000,
            })
            &&& there.state == crate::laws::lines::after_lines(client.state, first + second)
            &&& there.buffer == crate::laws::lines::left_over(
                left + crate::laws::run::arrived(between),
                second,
            )
        }),
{
    let line = command.line()->0;
    let (begun, step) = client.command(command, now);
    let at = ListeningView::Drain {
        errand: ErrandView::Issue { command, line },
        until: now + QUIET,
    };
    let early = crate::laws::run::arrived(before);
    let k = crate::laws::lines::lemma_holds_in_parts(client.buffer, early, first);
    assert(first.take(k) + first.skip(k) =~= first);
    lemma_proceed_hears_out(client, at, now, first.take(k));
    crate::laws::wire::law_what_waits_is_short(
        crate::laws::lines::behind(client.buffer, first.take(k)),
    );
    lemma_run_hears_out(begun, step, before, first.skip(k));
    crate::laws::lines::lemma_after_both(client.state, first.take(k), first.skip(k));

    let (heard, ready) = begun.run(step, before);
    let all = client.buffer + early;
    crate::laws::wire::law_what_waits_is_short(crate::laws::lines::behind(all, first));
    let silence = Happening::ReadFailed { fault: quiet, now: lull };
    let written = Happening::Sent { now: sent };
    lemma_run_two(heard, ready, silence, written);
    crate::laws::run::lemma_run_both(begun, step, before, seq![silence, written]);
    let one = before + seq![silence, written];
    let (issued, listening) = begun.run(step, one);
    assert(issued.buffer == heard.buffer && issued.state == heard.state);

    lemma_run_hears_out(issued, listening, between, second);
    let (there, posing) = issued.run(listening, between);
    let late = heard.buffer + crate::laws::run::arrived(between);
    crate::laws::wire::law_what_waits_is_short(crate::laws::lines::behind(late, second));
    let silence = Happening::ReadFailed { fault: quiet, now: next_lull };
    let written = Happening::Sent { now: asked };
    lemma_run_two(there, posing, silence, written);
    crate::laws::run::lemma_run_both(issued, listening, between, seq![silence, written]);
    crate::laws::run::lemma_run_both(begun, step, one, between + seq![silence, written]);
    crate::laws::lines::lemma_after_both(client.state, first, second);
}

/// A receiver that answers an absolute command with the command's own line lets
/// it succeed, whatever has happened until then and whatever other lines stand in
/// front of the answer, as long as the command waits for it and none of them is a
/// report of its value.
pub proof fn law_an_echoed_command_succeeds(
    client: ClientView,
    command: CommandView,
    now: int,
    course: Seq<Happening>,
    bytes: Seq<u8>,
    lines: Seq<Seq<char>>,
    line: Seq<char>,
    then: int,
)
    requires
        client.observed.len() == 4,
        command.absolute(),
        command.line() == Some(line),
        ({
            let (begun, first) = client.command(command, now);
            let (there, step) = begun.run(first, course);
            &&& step matches StepView::Receive { listening, wait: _ }
            &&& listening is Answer
            &&& crate::laws::lines::opens(there.buffer + bytes, lines.push(line))
        }),
        bytes.len() > 0,
        forall|i: int|
            0 <= i < lines.len() ==> crate::state::key_of(#[trigger] lines[i]) != Some(
                command.key(),
            ),
    ensures
        ({
            let (begun, first) = client.command(command, now);
            let (there, step) = begun.run(first, course);
            there.react(step, Happening::Received { bytes, now: then }).1 == StepView::Done(
                ReplyView::State(crate::laws::lines::after_lines(there.state, lines.push(line))),
            )
        }),
{
    let (begun, first) = client.command(command, now);
    let (there, step) = begun.run(first, course);
    let state = crate::laws::lines::after_lines(there.state, lines);
    crate::laws::wire::law_an_echo_confirms(command, state);
    crate::laws::lines::lemma_after_both(there.state, lines, seq![line]);
    assert(lines + seq![line] =~= lines.push(line));
    assert(seq![line].drop_first() =~= seq![]);
    crate::laws::lines::lemma_opens_none(bytes, state.after(line));
    law_the_answer_decides(
        client,
        command,
        now,
        course,
        bytes,
        lines,
        line,
        Fault { kind: FaultKind::TimedOut, os_code: None },
        then,
    );
}

} // verus!
