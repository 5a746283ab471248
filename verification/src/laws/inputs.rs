//! What holds of the list of inputs.
use crate::client::{ClientView, NextView, PACE, QUIET, TIMEOUT};
use crate::command::CommandView;
use crate::error::{Error, Fault};
use crate::exchange::{
    ErrandView, ListeningView, QuestionView, ReplyView, SendingView, StepView,
};
use crate::laws::run::Happening;
use crate::line::Front;
use vstd::prelude::*;

verus! {

/// Whether the inputs found so far are no more than a receiver may list, and all
/// of them can be named.
pub open spec fn nameable(found: Seq<(Seq<char>, Seq<char>)>) -> bool {
    &&& found.len() <= crate::client::MOST_SOURCES
    &&& forall|i: int| 0 <= i < found.len() ==> crate::text::is_token((#[trigger] found[i]).0)
}

/// Whether a wait belongs to the listing of inputs.
pub open spec fn lists(listening: ListeningView) -> bool {
    match listening {
        ListeningView::Drain { errand: ErrandView::Pose(QuestionView::Sources(found)), until: _ } => {
            nameable(found)
        },
        ListeningView::Answer { question: QuestionView::Sources(found), until: _ } => {
            nameable(found)
        },
        _ => false,
    }
}

/// Whether a step belongs to the listing of inputs.
pub open spec fn in_listing(step: StepView) -> bool {
    match step {
        StepView::Receive { listening, wait: _ } => lists(listening),
        StepView::Send { sending, pause: _, bytes: _ } => {
            &&& sending matches SendingView::Question(question)
            &&& question matches QuestionView::Sources(found)
            &&& nameable(found)
        },
        StepView::Done(reply) => reply matches ReplyView::Sources(found) && nameable(found),
        StepView::Failed(_) => true,
    }
}

proof fn lemma_proceed_lists(client: ClientView, at: ListeningView, now: int)
    requires
        lists(at),
    ensures
        in_listing(client.proceed(at, now).1),
    decreases client.buffer.len(),
{
    crate::line::lemma_front_shrinks(client.buffer);
    let (front, rest) = crate::line::front(client.buffer);
    if let Front::Line(line) = front {
        let noted = ClientView { buffer: rest, ..client }.noted(line, now);
        if let NextView::Listen(next) = noted.heard(at, line, now) {
            lemma_proceed_lists(noted, next, now);
        }
    }
}

proof fn lemma_run_lists(client: ClientView, step: StepView, course: Seq<Happening>)
    requires
        in_listing(step),
    ensures
        in_listing(client.run(step, course).1),
    decreases course.len(),
{
    if course.len() > 0 {
        let what = course.first();
        match step {
            StepView::Receive { listening, wait: _ } => {
                if let Happening::Received { bytes, now } = what {
                    lemma_proceed_lists(
                        ClientView { buffer: client.buffer + bytes, ..client },
                        listening,
                        now,
                    );
                }
            },
            StepView::Send { sending, pause: _, bytes: _ } => {
                if let Happening::Sent { now } = what {
                    lemma_proceed_lists(
                        ClientView { send_after: now + PACE, ..client },
                        ListeningView::Answer {
                            question: sending->Question_0,
                            until: now + TIMEOUT,
                        },
                        now,
                    );
                }
            },
            _ => {},
        }
        let (later, next) = client.react(step, what);
        lemma_run_lists(later, next, course.drop_first());
    }
}

/// The list of inputs has no more than a hundred of them, and each can be named
/// in a command.
pub proof fn law_listed_inputs_can_be_chosen(client: ClientView, now: int, course: Seq<Happening>)
    ensures
        ({
            let (begun, step) = client.sources(now);
            begun.run(step, course).1 matches StepView::Done(reply) ==> {
                &&& reply matches ReplyView::Sources(found)
                &&& found.len() <= 100
                &&& forall|i: int|
                    0 <= i < found.len() ==> CommandView::Input((#[trigger] found[i]).0).line()
                        is Some
            }
        }),
{
    lemma_proceed_lists(
        client,
        ListeningView::Drain {
            errand: ErrandView::Pose(QuestionView::Sources(seq![])),
            until: now + QUIET,
        },
        now,
    );
    let (begun, step) = client.sources(now);
    lemma_run_lists(begun, step, course);
}

/// The inputs and their names that lines tell, in order.
pub open spec fn entries(lines: Seq<Seq<char>>) -> Seq<(Seq<char>, Seq<char>)>
    decreases lines.len(),
{
    if lines.len() == 0 {
        seq![]
    } else {
        let rest = entries(lines.drop_first());
        match crate::sources::source_of(lines.first()) {
            Some(told) => seq![told] + rest,
            None => rest,
        }
    }
}

/// Whether lines are a whole list: the last of them ends it, and no other does.
pub open spec fn whole_list(lines: Seq<Seq<char>>) -> bool {
    &&& lines.len() > 0
    &&& lines.last() == "SSFUN END"@
    &&& forall|i: int| 0 <= i < lines.len() - 1 ==> #[trigger] lines[i] != "SSFUN END"@
}

/// Whether no line ends a list.
pub open spec fn part_of_list(lines: Seq<Seq<char>>) -> bool {
    forall|i: int| 0 <= i < lines.len() ==> #[trigger] lines[i] != "SSFUN END"@
}

/// The line that ends the list tells no input.
proof fn lemma_end_is_no_entry()
    ensures
        crate::sources::source_of("SSFUN END"@) is None,
{
    reveal_strlit("SSFUN END");
    reveal_strlit("SSFUN");
    let value = "SSFUN END"@.skip(5);
    value.index_of_first_ensures(' ');
    assert(value[0] == ' ');
}

proof fn lemma_entries_both(first: Seq<Seq<char>>, second: Seq<Seq<char>>)
    ensures
        entries(first + second) == entries(first) + entries(second),
    decreases first.len(),
{
    if first.len() == 0 {
        assert(first + second =~= second);
    } else {
        assert((first + second).drop_first() =~= first.drop_first() + second);
        lemma_entries_both(first.drop_first(), second);
    }
}

/// The wait for the list, with the inputs that it has told so far.
pub open spec fn collecting(found: Seq<(Seq<char>, Seq<char>)>, until: int) -> ListeningView {
    ListeningView::Answer { question: QuestionView::Sources(found), until }
}

proof fn lemma_proceed_collects(
    client: ClientView,
    found: Seq<(Seq<char>, Seq<char>)>,
    until: int,
    now: int,
) -> (lines: Seq<Seq<char>>)
    ensures
        ({
            let (later, step) = client.proceed(collecting(found, until), now);
            let all = found + entries(lines);
            match step {
                StepView::Done(reply) => {
                    &&& crate::laws::lines::opens(client.buffer, lines)
                    &&& whole_list(lines)
                    &&& reply == ReplyView::Sources(all)
                },
                StepView::Receive { listening, wait: _ } => {
                    &&& crate::laws::lines::opens(client.buffer, lines)
                    &&& part_of_list(lines)
                    &&& listening == collecting(all, until)
                    &&& crate::laws::lines::alike(
                        crate::laws::lines::behind(client.buffer, lines),
                        later.buffer,
                    )
                },
                StepView::Send { sending: _, pause: _, bytes: _ } => false,
                StepView::Failed(_) => true,
            }
        }),
    decreases client.buffer.len(),
{
    crate::line::lemma_front_shrinks(client.buffer);
    crate::laws::wire::law_what_waits_is_short(client.buffer);
    lemma_end_is_no_entry();
    let at = collecting(found, until);
    let (front, rest) = crate::line::front(client.buffer);
    assert(found + entries(seq![]) =~= found);
    if let Front::Line(line) = front {
        let noted = ClientView { buffer: rest, ..client }.noted(line, now);
        crate::laws::lines::lemma_opens_none(rest, client.state);
        let next = noted.heard(at, line, now);
        let tail = if let NextView::Listen(listening) = next {
            let more = listening->question->Sources_0;
            let tail = lemma_proceed_collects(noted, more, until, now);
            let all = seq![line] + tail;
            assert(all.drop_first() =~= tail);
            assert(found + entries(all) =~= more + entries(tail));
            tail
        } else {
            seq![]
        };
        let lines = seq![line] + tail;
        assert(lines.drop_first() =~= tail);
        let step = client.proceed(at, now).1;
        if !(step is Failed) {
            crate::laws::lines::lemma_opens_next(client.buffer, client.state, tail);
        }
        assert(forall|i: int| 1 <= i < lines.len() ==> #[trigger] lines[i] == tail[i - 1]);
        lines
    } else {
        seq![]
    }
}

proof fn lemma_run_collects(
    client: ClientView,
    step: StepView,
    course: Seq<Happening>,
    found: Seq<(Seq<char>, Seq<char>)>,
    until: int,
) -> (lines: Seq<Seq<char>>)
    requires
        step matches StepView::Receive { listening, wait: _ } && listening == collecting(
            found,
            until,
        ),
    ensures
        client.run(step, course).1 matches StepView::Done(reply) ==> {
            &&& crate::laws::lines::opens(client.buffer + client.taken(step, course), lines)
            &&& whole_list(lines)
            &&& reply == ReplyView::Sources(found + entries(lines))
        },
    decreases course.len(),
{
    if course.len() == 0 {
        seq![]
    } else {
        let what = course.first();
        let rest = course.drop_first();
        let (later, next) = client.react(step, what);
        let more = later.taken(next, rest);
        match what {
            Happening::Received { bytes, now } => {
                let fed = ClientView { buffer: client.buffer + bytes, ..client };
                let first = lemma_proceed_collects(fed, found, until, now);
                assert(client.buffer + client.taken(step, course) =~= fed.buffer + more);
                if next is Receive {
                    let all = found + entries(first);
                    let second = lemma_run_collects(later, next, rest, all, until);
                    lemma_entries_both(first, second);
                    assert(all + entries(second) =~= found + entries(first + second));
                    if client.run(step, course).1 is Done {
                        crate::laws::lines::lemma_opens_later(
                            fed.buffer,
                            first,
                            later.buffer,
                            more,
                            second,
                        );
                    }
                    first + second
                } else {
                    crate::laws::run::lemma_over_is_over(later, next, rest);
                    assert(fed.buffer + more =~= fed.buffer);
                    first
                }
            },
            Happening::ReadFailed { fault: _, now: _ } => {
                crate::laws::run::lemma_over_is_over(later, next, rest);
                seq![]
            },
            _ => {
                assert(client.taken(step, course) =~= more);
                lemma_run_collects(later, next, rest, found, until)
            },
        }
    }
}

/// Whether a step belongs to a list that has not yet been asked for.
pub open spec fn unlisted(step: StepView) -> bool {
    match step {
        StepView::Receive { listening, wait: _ } => {
            &&& listening matches ListeningView::Drain { errand, until: _ }
            &&& errand == ErrandView::Pose(QuestionView::Sources(seq![]))
        },
        StepView::Send { sending, pause: _, bytes } => {
            let question = QuestionView::Sources(seq![]);
            sending == SendingView::Question(question) && bytes == crate::laws::run::asking(question)
        },
        StepView::Done(_) => false,
        StepView::Failed(_) => true,
    }
}

proof fn lemma_proceed_is_unlisted(client: ClientView, until: int, now: int)
    ensures
        ({
            let errand = ErrandView::Pose(QuestionView::Sources(seq![]));
            unlisted(client.proceed(ListeningView::Drain { errand, until }, now).1)
        }),
    decreases client.buffer.len(),
{
    crate::line::lemma_front_shrinks(client.buffer);
    let (front, rest) = crate::line::front(client.buffer);
    if let Front::Line(line) = front {
        let noted = ClientView { buffer: rest, ..client }.noted(line, now);
        lemma_proceed_is_unlisted(noted, until, now);
    }
}

/// Whether a list is what the lines tell that stand behind its question: those of
/// the bytes that were left when the question was written at a place of a course,
/// and that have been taken since.
pub open spec fn listed_since(
    client: ClientView,
    step: StepView,
    course: Seq<Happening>,
    place: int,
    lines: Seq<Seq<char>>,
    reply: ReplyView,
) -> bool {
    let (there, asking) = client.run(step, course.take(place));
    &&& crate::laws::run::asks_at(client, step, course, place, QuestionView::Sources(seq![]))
    &&& crate::laws::lines::opens(
        there.buffer + there.taken(asking, course.skip(place)),
        lines,
    )
    &&& whole_list(lines)
    &&& reply == ReplyView::Sources(entries(lines))
}

proof fn lemma_list_is_asked_for(client: ClientView, step: StepView, course: Seq<Happening>) -> (
    at: (int, Seq<Seq<char>>))
    requires
        unlisted(step),
    ensures
        client.run(step, course).1 matches StepView::Done(reply) ==> listed_since(
            client,
            step,
            course,
            at.0,
            at.1,
            reply,
        ),
    decreases course.len(),
{
    if course.len() == 0 {
        (0, seq![])
    } else {
        let what = course.first();
        let rest = course.drop_first();
        let (later, next) = client.react(step, what);
        if step is Send && what is Sent {
            let now = what->Sent_now;
            let sent = ClientView { send_after: now + PACE, ..client };
            let until = now + TIMEOUT;
            let none: Seq<(Seq<char>, Seq<char>)> = seq![];
            let first = lemma_proceed_collects(sent, none, until, now);
            let more = later.taken(next, rest);
            assert(course.take(0) =~= seq![]);
            assert(course.skip(0) =~= course);
            assert(client.taken(step, course) =~= more);
            let lines = if next is Receive {
                let all = none + entries(first);
                let second = lemma_run_collects(later, next, rest, all, until);
                lemma_entries_both(first, second);
                assert(all + entries(second) =~= entries(first + second));
                if client.run(step, course).1 is Done {
                    crate::laws::lines::lemma_opens_later(
                        client.buffer,
                        first,
                        later.buffer,
                        more,
                        second,
                    );
                }
                first + second
            } else {
                crate::laws::run::lemma_over_is_over(later, next, rest);
                assert(client.buffer + more =~= client.buffer);
                assert(none + entries(first) =~= entries(first));
                first
            };
            (0, lines)
        } else {
            if let StepView::Receive { listening, wait: _ } = step {
                if let Happening::Received { bytes, now } = what {
                    lemma_proceed_is_unlisted(
                        ClientView { buffer: client.buffer + bytes, ..client },
                        listening.until(),
                        now,
                    );
                }
            }
            let (place, lines) = lemma_list_is_asked_for(later, next, rest);
            if client.run(step, course).1 is Done {
                crate::laws::run::lemma_further_on(
                    client,
                    step,
                    course,
                    place,
                    QuestionView::Sources(seq![]),
                );
            }
            (place + 1, lines)
        }
    }
}

/// A list holds exactly what was told: where it succeeds, whatever happened, it
/// is the inputs and names of the lines behind the question for it, in order, up
/// to the line that ends the list.
pub proof fn law_a_list_is_what_was_told(client: ClientView, now: int, course: Seq<Happening>)
    ensures
        ({
            let (begun, step) = client.sources(now);
            begun.run(step, course).1 matches StepView::Done(reply) ==> exists|
                place: int,
                lines: Seq<Seq<char>>,
            | #[trigger]
                listed_since(begun, step, course, place, lines, reply)
        }),
{
    let (begun, step) = client.sources(now);
    lemma_proceed_is_unlisted(client, now + QUIET, now);
    let (place, lines) = lemma_list_is_asked_for(begun, step, course);
}

/// A list that is told to its end succeeds. Whenever it is waited for, the lines
/// up to the one that ends it complete it, if there are no more than a hundred
/// inputs in all; one more is a protocol error.
pub proof fn law_a_list_that_is_told_succeeds(
    client: ClientView,
    found: Seq<(Seq<char>, Seq<char>)>,
    until: int,
    bytes: Seq<u8>,
    now: int,
    lines: Seq<Seq<char>>,
)
    requires
        bytes.len() > 0,
        found.len() <= 100,
        crate::laws::lines::opens(client.buffer + bytes, lines),
        whole_list(lines),
    ensures
        ({
            let all = found + entries(lines);
            client.received(collecting(found, until), bytes, now).1 == (if all.len() <= 100 {
                StepView::Done(ReplyView::Sources(all))
            } else {
                StepView::Failed(Error::Protocol)
            })
        }),
{
    lemma_proceed_completes(
        ClientView { buffer: client.buffer + bytes, ..client },
        found,
        until,
        now,
        lines,
    );
}

proof fn lemma_proceed_completes(
    client: ClientView,
    found: Seq<(Seq<char>, Seq<char>)>,
    until: int,
    now: int,
    lines: Seq<Seq<char>>,
)
    requires
        found.len() <= crate::client::MOST_SOURCES,
        crate::laws::lines::opens(client.buffer, lines),
        whole_list(lines),
    ensures
        ({
            let all = found + entries(lines);
            client.proceed(collecting(found, until), now).1 == (if all.len()
                <= crate::client::MOST_SOURCES {
                StepView::Done(ReplyView::Sources(all))
            } else {
                StepView::Failed(Error::Protocol)
            })
        }),
    decreases lines.len(),
{
    lemma_end_is_no_entry();
    let line = lines[0];
    let tail = lines.drop_first();
    let rest = crate::line::front(client.buffer).1;
    let noted = ClientView { buffer: rest, ..client }.noted(line, now);
    if lines.len() == 1 {
        assert(entries(tail) =~= seq![]);
        assert(found + entries(lines) =~= found);
    } else {
        assert(line != "SSFUN END"@);
        assert(tail.last() == lines.last());
        assert forall|i: int| 0 <= i < tail.len() - 1 implies #[trigger] tail[i]
            != "SSFUN END"@ by {
            assert(tail[i] == lines[i + 1]);
        }
        match crate::sources::source_of(line) {
            Some(told) => if found.len() < crate::client::MOST_SOURCES {
                lemma_proceed_completes(noted, found.push(told), until, now, tail);
                assert(found.push(told) + entries(tail) =~= found + entries(lines));
            },
            None => {
                lemma_proceed_completes(noted, found, until, now, tail);
            },
        }
    }
}

/// Whether a text has no space in it.
pub open spec fn spaceless(text: Seq<char>) -> bool {
    forall|i: int| 0 <= i < text.len() ==> (#[trigger] text[i]) as int != 32
}

/// The line that tells an input and a name.
pub open spec fn listing(id: Seq<char>, name: Seq<char>) -> Seq<char> {
    seq!['S', 'S', 'F', 'U', 'N'] + id + seq![' '] + name
}

/// Every line `SSFUN`, the name of an input without a space in it, a space and any
/// text tells that input with that text, without the white space at its ends,
/// whatever the text is.
pub proof fn law_a_line_of_the_list_tells_its_input(id: Seq<char>, name: Seq<char>)
    requires
        crate::laws::words::is_name(id),
        spaceless(id),
        name.len() > 0,
    ensures
        crate::sources::source_of(listing(id, name)) == Some((id, crate::text::trimmed(name))),
{
    reveal_strlit("SSFUN");
    let line = listing(id, name);
    let value = line.skip(5);
    let at = id.len() as int;
    assert(line.subrange(0, 5) =~= "SSFUN"@);
    assert("SSFUN"@.is_prefix_of(line));
    assert(value =~= id + seq![' '] + name);
    value.index_of_first_ensures(' ');
    assert(value[at] == ' ');
    assert forall|i: int| 0 <= i < at implies value[i] != ' ' by {
        assert(value[i] == id[i]);
    }
    assert(value.take(at) =~= id);
    assert(value.skip(at + 1) =~= name);
    crate::laws::words::law_a_name_is_plain(id);
}

/// No other line tells an input.
pub proof fn law_only_a_line_of_the_list_tells_an_input(line: Seq<char>) -> (name: Seq<char>)
    ensures
        crate::sources::source_of(line) matches Some((id, told)) ==> {
            &&& crate::laws::words::is_name(id)
            &&& spaceless(id)
            &&& name.len() > 0
            &&& line == listing(id, name)
            &&& told == crate::text::trimmed(name)
        },
{
    reveal_strlit("SSFUN");
    let value = line.skip(5);
    value.index_of_first_ensures(' ');
    match crate::sources::source_of(line) {
        Some((id, told)) => {
            let at = value.index_of_first(' ')->0;
            let name = value.skip(at + 1);
            crate::laws::words::law_a_name_is_plain(id);
            assert(line.subrange(0, 5) =~= "SSFUN"@);
            assert forall|i: int| 0 <= i < 5 implies line[i] == "SSFUN"@[i] by {
                assert(line.subrange(0, 5)[i] == line[i]);
            }
            assert(value =~= id + seq![' '] + name);
            assert(line =~= seq!['S', 'S', 'F', 'U', 'N'] + value);
            assert(line =~= listing(id, name));
            name
        },
        None => seq![],
    }
}

/// The list has one entry for each line that tells an input, in order, whatever
/// the names are, and whether an input is told once or more often.
pub proof fn law_the_list_has_an_entry_for_each_line(entries_told: Seq<(Seq<char>, Seq<char>)>)
    requires
        forall|i: int|
            0 <= i < entries_told.len() ==> {
                let (id, name) = #[trigger] entries_told[i];
                crate::laws::words::is_name(id) && spaceless(id) && name.len() > 0
            },
    ensures
        ({
            let lines = entries_told.map_values(|told: (Seq<char>, Seq<char>)| listing(told.0, told.1));
            let list = entries(lines);
            &&& list.len() == entries_told.len()
            &&& forall|i: int|
                0 <= i < list.len() ==> (#[trigger] list[i]) == (
                    entries_told[i].0,
                    crate::text::trimmed(entries_told[i].1),
                )
        }),
    decreases entries_told.len(),
{
    let f = |told: (Seq<char>, Seq<char>)| listing(told.0, told.1);
    let lines = entries_told.map_values(f);
    if entries_told.len() > 0 {
        let rest = entries_told.drop_first();
        assert(lines.drop_first() =~= rest.map_values(f));
        assert forall|i: int| 0 <= i < rest.len() implies {
            let (id, name) = #[trigger] rest[i];
            crate::laws::words::is_name(id) && spaceless(id) && name.len() > 0
        } by {
            assert(rest[i] == entries_told[i + 1]);
        }
        let (id, name) = entries_told[0];
        law_a_line_of_the_list_tells_its_input(id, name);
        law_the_list_has_an_entry_for_each_line(rest);
        let list = entries(lines);
        let tail = entries(lines.drop_first());
        assert(list =~= seq![(id, crate::text::trimmed(name))] + tail);
        assert forall|i: int| 0 <= i < list.len() implies (#[trigger] list[i]) == (
            entries_told[i].0,
            crate::text::trimmed(entries_told[i].1),
        ) by {
            if i > 0 {
                assert(list[i] == tail[i - 1]);
                assert(rest[i - 1] == entries_told[i]);
            }
        }
    }
}

/// The list is asked for and told. Where the receiver may report something first,
/// then is quiet, and the question has been written, the list is waited for two
/// seconds; and once all its lines are there, up to its end, it succeeds with what
/// they tell, a hundred inputs at most. One more is a protocol error.
pub proof fn law_a_list_is_asked_for_and_told(
    client: ClientView,
    now: int,
    before: Seq<Happening>,
    reports: Seq<Seq<char>>,
    quiet: Fault,
    lull: int,
    asked: int,
    bytes: Seq<u8>,
    lines: Seq<Seq<char>>,
    then: int,
)
    requires
        crate::laws::run::arrivals(before, now + 10_000_000),
        quiet.kind is TimedOut || quiet.kind is WouldBlock,
        bytes.len() > 0,
        ({
            let all = client.buffer + crate::laws::run::arrived(before);
            &&& crate::laws::lines::holds(all, reports)
            &&& crate::laws::lines::opens(
                crate::laws::lines::left_over(all, reports) + bytes,
                lines,
            )
        }),
        whole_list(lines),
    ensures
        ({
            let (begun, step) = client.sources(now);
            let (heard, ready) = begun.run(step, before);
            let (posed, asking) = heard.react(
                ready,
                Happening::ReadFailed { fault: quiet, now: lull },
            );
            let (there, waiting) = posed.react(asking, Happening::Sent { now: asked });
            let end = there.react(waiting, Happening::Received { bytes, now: then }).1;
            &&& asking is Send
            &&& asking->bytes == crate::exchange::line_bytes("SSFUN ?"@)
            &&& waiting is Receive
            &&& waiting->wait == 2_000_000_000
            &&& end == (if entries(lines).len() <= 100 {
                StepView::Done(ReplyView::Sources(entries(lines)))
            } else {
                StepView::Failed(Error::Protocol)
            })
        }),
{
    let request = crate::laws::run::Request::Sources;
    crate::laws::timing::law_the_receiver_is_heard_out_first(
        client,
        request,
        now,
        before,
        reports,
    );
    crate::laws::timing::law_a_quiet_receiver_is_written_to(
        client,
        request,
        now,
        before,
        reports,
        quiet,
        lull,
    );
    let (begun, step) = client.sources(now);
    let (heard, ready) = begun.run(step, before);
    let (posed, asking) = heard.react(ready, Happening::ReadFailed { fault: quiet, now: lull });
    lemma_proceed_is_unlisted(client, now + QUIET, now);
    lemma_run_is_unlisted(begun, step, before, now + 10_000_000);
    let all = client.buffer + crate::laws::run::arrived(before);
    crate::laws::wire::law_what_waits_is_short(crate::laws::lines::behind(all, reports));
    let (there, waiting) = posed.react(asking, Happening::Sent { now: asked });
    let none: Seq<(Seq<char>, Seq<char>)> = seq![];
    assert(waiting->listening == collecting(none, asked + TIMEOUT));
    assert(none + entries(lines) =~= entries(lines));
    law_a_list_that_is_told_succeeds(there, none, asked + TIMEOUT, bytes, then, lines);
}

/// While bytes arrive, a list has not yet been asked for.
proof fn lemma_run_is_unlisted(
    client: ClientView,
    step: StepView,
    course: Seq<Happening>,
    until: int,
)
    requires
        unlisted(step),
        crate::laws::run::arrivals(course, until),
    ensures
        unlisted(client.run(step, course).1),
    decreases course.len(),
{
    if course.len() > 0 {
        let what = course[0];
        let rest = course.drop_first();
        if let StepView::Receive { listening, wait: _ } = step {
            if let Happening::Received { bytes, now } = what {
                lemma_proceed_is_unlisted(
                    ClientView { buffer: client.buffer + bytes, ..client },
                    listening.until(),
                    now,
                );
            }
        }
        let (later, next) = client.react(step, what);
        lemma_run_is_unlisted(later, next, rest, until);
    }
}

} // verus!
