//! What is said on the connection, in its own letters: what each line of the
//! receiver tells, and what is written for each command and question.
use crate::command::CommandView;
use crate::decibels::Decibels;
use crate::error::{Error, Fault, FaultKind};
use crate::exchange::QuestionView;
use crate::line::Front;
use crate::settings::Settings;
use crate::state::{Key, StateView};
use vstd::prelude::*;

verus! {

/// Whether a text is the name of an input: one to twenty-five capital letters,
/// digits, spaces, slashes, plus and minus signs.
pub open spec fn is_name(text: Seq<char>) -> bool {
    &&& 1 <= text.len() <= 25
    &&& forall|i: int|
        0 <= i < text.len() ==> {
            let code = (#[trigger] text[i]) as int;
            ||| 65 <= code <= 90
            ||| 48 <= code <= 57
            ||| code == 32
            ||| code == 47
            ||| code == 43
            ||| code == 45
        }
}

/// The character of a decimal digit.
pub open spec fn figure(n: int) -> char {
    (48 + n) as char
}

/// The number that a text of decimal digits is, if it is one.
pub open spec fn number(text: Seq<char>) -> Option<int>
    decreases text.len(),
{
    if text.len() == 0 {
        Some(0)
    } else {
        match number(text.drop_last()) {
            Some(tens) if 48 <= text.last() as int <= 57 => Some(
                10 * tens + (text.last() as int - 48),
            ),
            _ => None,
        }
    }
}

/// The volume that a line tells, in tenths above the minimum, if it tells one:
/// `MV` and two digits for whole steps, or three for tenths, up to 98 and in half
/// steps.
pub open spec fn volume_in(line: Seq<char>) -> Option<int> {
    let figures = line.skip(2);
    if line.len() >= 2 && line[0] == 'M' && line[1] == 'V' && number(figures) is Some {
        let tenths = if figures.len() == 2 {
            10 * number(figures)->0
        } else {
            number(figures)->0
        };
        if (figures.len() == 2 || figures.len() == 3) && tenths <= 980 && tenths % 5 == 0 {
            Some(tenths)
        } else {
            None
        }
    } else {
        None
    }
}

/// Whether a line tells an input: `SI` and a name.
pub open spec fn names_input(line: Seq<char>) -> bool {
    line.len() >= 2 && line[0] == 'S' && line[1] == 'I' && is_name(line.skip(2))
}

/// The value that a line tells: power 0, volume 1, mute 2, input 3.
pub open spec fn value_in(line: Seq<char>) -> Option<int> {
    if line == "ZMON"@ || line == "ZMOFF"@ {
        Some(0)
    } else if volume_in(line) is Some {
        Some(1)
    } else if line == "MUON"@ || line == "MUOFF"@ {
        Some(2)
    } else if names_input(line) {
        Some(3)
    } else {
        None
    }
}

/// The value that a command changes.
pub open spec fn value_of(command: CommandView) -> int {
    match command {
        CommandView::Power(_) => 0,
        CommandView::Mute(_) => 2,
        CommandView::Input(_) => 3,
        _ => 1,
    }
}

/// Whether a state has the value that a command asks for: power and mute the same,
/// the input of the same name, the level of the same number or, at -80 dB, minimum
/// volume. A step of the volume asks for no value in particular.
pub open spec fn has_value(command: CommandView, state: StateView) -> bool {
    match command {
        CommandView::Power(on) => state.on is Some && state.on->0 == on,
        CommandView::Mute(on) => state.muted is Some && state.muted->0 == on,
        CommandView::Input(id) => state.input is Some && state.input->0 == id,
        CommandView::VolumeDb(db) => {
            ||| state.volume_db is Some && state.volume_db->0.tenths == db.tenths
            ||| db.tenths == -800 && state.volume_minimum
        },
        CommandView::VolumeUp => true,
        CommandView::VolumeDown => true,
    }
}

/// A number of two or three digits.
proof fn lemma_number(text: Seq<char>)
    requires
        2 <= text.len() <= 3,
    ensures
        number(text) is Some <==> forall|i: int|
            0 <= i < text.len() ==> 48 <= (#[trigger] text[i]) as int <= 57,
        text.len() == 2 && number(text) is Some ==> number(text)->0 == 10 * (text[0] as int - 48)
            + (text[1] as int - 48),
        text.len() == 3 && number(text) is Some ==> number(text)->0 == 100 * (text[0] as int - 48)
            + 10 * (text[1] as int - 48) + (text[2] as int - 48),
{
    reveal_with_fuel(number, 4);
    let two = text.drop_last();
    if text.len() == 3 {
        assert(two[0] == text[0] && two[1] == text[1]);
    } else {
        assert(two[0] == text[0]);
    }
}

proof fn lemma_volume_in(line: Seq<char>)
    ensures
        "MV"@.is_prefix_of(line) <==> line.len() >= 2 && line[0] == 'M' && line[1] == 'V',
        volume_in(line) == (if "MV"@.is_prefix_of(line) {
            crate::state::volume_of(line.skip(2))
        } else {
            None
        }),
{
    reveal_strlit("MV");
    if line.len() >= 2 {
        assert(line.subrange(0, 2) =~= seq![line[0], line[1]]);
    }
    let figures = line.skip(2);
    if line.len() == 4 || line.len() == 5 {
        lemma_number(figures);
        if number(figures) is None {
            let i = choose|i: int|
                0 <= i < figures.len() && !(48 <= (#[trigger] figures[i]) as int <= 57);
            assert(!crate::text::is_digit(figures[i]));
        }
    }
}

proof fn lemma_names_input(line: Seq<char>)
    ensures
        names_input(line) <==> "SI"@.is_prefix_of(line) && crate::text::is_token(line.skip(2)),
{
    reveal_strlit("SI");
    if line.len() >= 2 {
        assert(line.subrange(0, 2) =~= seq![line[0], line[1]]);
        law_a_name_is_plain(line.skip(2));
    }
}

/// A name is acceptable exactly where it has one to twenty-five characters, all of
/// them capital letters, digits, spaces, `/`, `+` or `-`.
pub proof fn law_a_name_is_plain(text: Seq<char>)
    ensures
        crate::text::is_token(text) <==> is_name(text),
{
    if is_name(text) {
        assert forall|i: int| 0 <= i < text.len() implies crate::text::token_char(
            #[trigger] text[i],
        ) by {}
    }
}

/// Reports are sound. Whatever a line is, and whatever is known before: it is
/// taken for power only if it is `ZMON` or `ZMOFF`, for mute only if it is `MUON`
/// or `MUOFF`, for a volume only if it is `MV` and two or three digits, for an
/// input only if it is `SI` and a name. It sets that value, and leaves every other
/// as it was; any other line leaves all of them.
pub proof fn law_reports_are_sound(state: StateView, line: Seq<char>)
    ensures
        ({
            let after = state.after(line);
            match crate::state::key_of(line) {
                Some(Key::Power) => {
                    ||| line == "ZMON"@ && after == (StateView { on: Some(true), ..state })
                    ||| line == "ZMOFF"@ && after == (StateView { on: Some(false), ..state })
                },
                Some(Key::Mute) => {
                    ||| line == "MUON"@ && after == (StateView { muted: Some(true), ..state })
                    ||| line == "MUOFF"@ && after == (StateView { muted: Some(false), ..state })
                },
                Some(Key::Volume) => {
                    &&& volume_in(line) matches Some(tenths)
                    &&& after.on == state.on
                    &&& after.muted == state.muted
                    &&& after.input == state.input
                    &&& after.volume_minimum == (tenths == 0)
                    &&& match after.volume_db {
                        Some(db) => tenths > 0 && db.tenths == tenths - 800,
                        None => tenths == 0,
                    }
                },
                Some(Key::Input) => {
                    &&& line.len() > 2
                    &&& line[0] == 'S'
                    &&& line[1] == 'I'
                    &&& is_name(line.skip(2))
                    &&& after == (StateView { input: Some(line.skip(2)), ..state })
                },
                None => after == state,
            }
        }),
{
    lemma_volume_in(line);
    lemma_names_input(line);
}

/// Reports are complete: every line that tells a value is taken for it, and no
/// line for another.
pub proof fn law_reports_are_complete(line: Seq<char>)
    ensures
        crate::state::key_of(line) == Some(Key::Power) <==> line == "ZMON"@ || line == "ZMOFF"@,
        crate::state::key_of(line) == Some(Key::Mute) <==> line == "MUON"@ || line == "MUOFF"@,
        crate::state::key_of(line) == Some(Key::Volume) <==> volume_in(line) is Some,
        crate::state::key_of(line) == Some(Key::Input) <==> names_input(line),
        match crate::state::key_of(line) {
            Some(key) => value_in(line) == Some(key.place()),
            None => value_in(line) is None,
        },
{
    lemma_volume_in(line);
    lemma_names_input(line);
    reveal_strlit("ZMON");
    reveal_strlit("ZMOFF");
    reveal_strlit("MUON");
    reveal_strlit("MUOFF");
    assert("ZMON"@[0] == 'Z' && "ZMOFF"@[0] == 'Z');
    assert("MUON"@[1] == 'U' && "MUOFF"@[1] == 'U');
    assert("ZMON"@.len() == 4 && "ZMOFF"@.len() == 5);
    assert("MUON"@.len() == 4 && "MUOFF"@.len() == 5);
}

/// Every level of the receiver is told, in tenths above the minimum, and read as
/// that many tenths of a decibel above -80 dB; the minimum is read as no number.
pub proof fn law_volumes_are_read_in_half_steps(state: StateView, tenths: int)
    requires
        0 <= tenths <= 980,
        tenths % 5 == 0,
    ensures
        ({
            let three = seq![
                'M',
                'V',
                figure(tenths / 100),
                figure(tenths / 10 % 10),
                figure(tenths % 10),
            ];
            let two = three.take(4);
            let after = state.after(three);
            &&& crate::state::key_of(three) == Some(Key::Volume)
            &&& tenths % 10 == 0 ==> state.after(two) == after && crate::state::key_of(two) == Some(
                Key::Volume,
            )
            &&& after.volume_minimum == (tenths == 0)
            &&& tenths == 0 ==> after.volume_db is None
            &&& tenths > 0 ==> after.volume_db is Some && after.volume_db->0.tenths == tenths - 800
        }),
{
    let three = seq![
        'M',
        'V',
        figure(tenths / 100),
        figure(tenths / 10 % 10),
        figure(tenths % 10),
    ];
    let two = three.take(4);
    lemma_number(three.skip(2));
    lemma_number(two.skip(2));
    assert(volume_in(three) == Some(tenths));
    law_reports_are_complete(three);
    law_reports_are_sound(state, three);
    if tenths % 10 == 0 {
        assert(volume_in(two) == Some(tenths));
        law_reports_are_complete(two);
        law_reports_are_sound(state, two);
        assert(state.after(two) =~= state.after(three));
    }
}

/// A state in which minimum volume is known has no number for the volume, from the
/// start and after every line; an input that is known is a name, and a volume is a
/// half step above the minimum and no more than 18 dB.
pub proof fn law_a_state_makes_sense(state: StateView, line: Seq<char>)
    ensures
        ({
            let start = StateView::unknown();
            &&& start.on is None
            &&& start.muted is None
            &&& start.volume_db is None
            &&& !start.volume_minimum
            &&& start.input is None
        }),
        state.consistent() <==> {
            &&& state.volume_minimum ==> state.volume_db is None
            &&& state.volume_db matches Some(db) ==> -800 < db.tenths <= 180 && db.tenths % 5 == 0
            &&& state.input matches Some(id) ==> is_name(id)
        },
        state.consistent() ==> state.after(line).consistent(),
{
    if let Some(id) = state.input {
        law_a_name_is_plain(id);
    }
}

/// A value is known where the state says so.
pub proof fn law_known_values(state: StateView)
    ensures
        state.has(Key::Power) <==> state.on is Some,
        state.has(Key::Mute) <==> state.muted is Some,
        state.has(Key::Input) <==> state.input is Some,
        state.has(Key::Volume) <==> state.volume_db is Some || state.volume_minimum,
{
}

/// Each command has its own line: `ZMON` and `ZMOFF`, `MUON` and `MUOFF`, `MVUP`
/// and `MVDOWN`, `MV` and the level from 0 to 98 in two digits or in three with a
/// half step, `SI` and the name of the input. There is none for a level below
/// -80 dB or above 18 dB or between half steps, nor for an input that has no name.
pub proof fn law_commands_have_their_lines(command: CommandView)
    ensures
        match command {
            CommandView::Power(on) => command.line() == Some(
                if on {
                    "ZMON"@
                } else {
                    "ZMOFF"@
                },
            ),
            CommandView::Mute(on) => command.line() == Some(
                if on {
                    "MUON"@
                } else {
                    "MUOFF"@
                },
            ),
            CommandView::VolumeUp => command.line() == Some("MVUP"@),
            CommandView::VolumeDown => command.line() == Some("MVDOWN"@),
            CommandView::VolumeDb(db) => match command.line() {
                Some(line) => {
                    &&& -800 <= db.tenths <= 180
                    &&& db.tenths % 5 == 0
                    &&& volume_in(line) == Some(db.tenths + 800)
                    &&& line.len() == (if db.tenths % 10 == 0 { 4int } else { 5 })
                },
                None => db.tenths < -800 || db.tenths > 180 || db.tenths % 5 != 0,
            },
            CommandView::Input(id) => match command.line() {
                Some(line) => is_name(id) && line == seq!['S', 'I'] + id,
                None => !is_name(id),
            },
        },
{
    reveal_strlit("MV");
    reveal_strlit("SI");
    match command {
        CommandView::VolumeDb(db) => if db.settable() {
            let line = crate::command::volume_line(db);
            lemma_number(line.skip(2));
        },
        CommandView::Input(id) => {
            law_a_name_is_plain(id);
        },
        _ => {},
    }
}

/// Each value has its own question, and a command asks for the value that it
/// changes.
pub proof fn law_questions_have_their_lines(
    command: CommandView,
    found: Seq<(Seq<char>, Seq<char>)>,
)
    ensures
        QuestionView::Status(Key::Power).line() == "ZM?"@,
        QuestionView::Status(Key::Volume).line() == "MV?"@,
        QuestionView::Status(Key::Mute).line() == "MU?"@,
        QuestionView::Status(Key::Input).line() == "SI?"@,
        QuestionView::Sources(found).line() == "SSFUN ?"@,
        QuestionView::Confirm(command).line() == (match command {
            CommandView::Power(_) => "ZM?"@,
            CommandView::Mute(_) => "MU?"@,
            CommandView::Input(_) => "SI?"@,
            _ => "MV?"@,
        }),
        command.key() == (match command {
            CommandView::Power(_) => Key::Power,
            CommandView::Mute(_) => Key::Mute,
            CommandView::Input(_) => Key::Input,
            _ => Key::Volume,
        }),
        command.absolute() <==> !(command is VolumeUp) && !(command is VolumeDown),
{
    reveal_strlit("ZM");
    reveal_strlit("MV");
    reveal_strlit("MU");
    reveal_strlit("SI");
    reveal_strlit("?");
    reveal_strlit("ZM?");
    reveal_strlit("MV?");
    reveal_strlit("MU?");
    reveal_strlit("SI?");
    assert("ZM"@ + "?"@ =~= "ZM?"@);
    assert("MV"@ + "?"@ =~= "MV?"@);
    assert("MU"@ + "?"@ =~= "MU?"@);
    assert("SI"@ + "?"@ =~= "SI?"@);
}

/// The values stand in the order power, volume, mute, input, and are reported with
/// the letters of their questions.
pub proof fn law_values_have_their_places(key: Key)
    ensures
        match key {
            Key::Power => key.place() == 0 && key.text() == "ZM"@,
            Key::Volume => key.place() == 1 && key.text() == "MV"@,
            Key::Mute => key.place() == 2 && key.text() == "MU"@,
            Key::Input => key.place() == 3 && key.text() == "SI"@,
        },
{
}

/// A line is sent as its text and one carriage return, and nothing else.
pub proof fn law_a_line_is_sent_as_its_text(line: Seq<char>)
    ensures
        ({
            let bytes = crate::exchange::line_bytes(line);
            &&& bytes.len() > 0
            &&& bytes.last() == 13
            &&& vstd::utf8::valid_utf8(bytes.drop_last())
            &&& vstd::utf8::decode_utf8(bytes.drop_last()) == line
        }),
{
    let encoded = vstd::utf8::encode_utf8(line);
    assert(crate::exchange::line_bytes(line).drop_last() =~= encoded);
    vstd::utf8::encode_utf8_valid_utf8(line);
    vstd::utf8::encode_utf8_decode_utf8(line);
}

/// A command is confirmed by a state that has the value that it asks for, and by no
/// other.
pub proof fn law_a_command_is_confirmed_by_its_value(command: CommandView, state: StateView)
    ensures
        command.confirmed(state) <==> has_value(command, state),
        command.key().place() == value_of(command),
{
}

/// A level can be set from -80 dB to 18 dB, in half decibels.
pub proof fn law_levels_are_half_steps(db: Decibels)
    ensures
        ({
            let halves = db.tenths as int / 5;
            db.settable() <==> db.tenths == 5 * halves && -160 <= halves <= 36
        }),
{
}

/// A single-precision number is a level exactly where its sign, exponent and
/// fraction make it that many tenths: it is `1.fraction` times two to the power of
/// the exponent less 127, and `0.fraction` times two to the power of -126 where the
/// exponent is zero. Numbers that are not finite are no level.
pub proof fn law_a_single_is_what_its_parts_say(
    db: Decibels,
    negative: bool,
    exponent: nat,
    fraction: nat,
    bits: u32,
)
    requires
        exponent < 256,
        fraction < 0x80_0000,
        bits == (if negative { 0x8000_0000int } else { 0 }) + exponent * 0x80_0000 + fraction,
    ensures
        db.is_single(bits) <==> exponent < 255 && ({
            let tenths = (if negative { -(db.tenths as int) } else { db.tenths as int })
                * vstd::arithmetic::power2::pow2(149);
            if exponent == 0 {
                10 * fraction == tenths
            } else {
                10 * ((0x80_0000 + fraction) * vstd::arithmetic::power2::pow2(
                    (exponent - 1) as nat,
                )) == tenths
            }
        }),
{
    assert(bits / 0x80_0000 == (if negative { 256int } else { 0 }) + exponent);
    assert((bits / 0x80_0000) % 256 == exponent);
    assert(bits % 0x80_0000 == fraction);
    assert((-(db.tenths as int)) * vstd::arithmetic::power2::pow2(149) == -(db.tenths
        * vstd::arithmetic::power2::pow2(149))) by (nonlinear_arith);
}

/// A failure on the network is a timeout where a time limit ran out, and is passed
/// on as it is everywhere else.
pub proof fn law_failures_are_told_apart(fault: Fault)
    ensures
        fault.is_timeout() <==> fault.kind is TimedOut || fault.kind is WouldBlock,
        match fault.kind {
            FaultKind::TimedOut | FaultKind::WouldBlock => Error::of(fault) == Error::Timeout,
            _ => Error::of(fault) == Error::Io(fault),
        },
        Fault::closed().kind == FaultKind::UnexpectedEof,
        Fault::closed().os_code is None,
{
}

/// What the user is told. Only a network failure sends them to the receiver's
/// network settings.
pub proof fn law_errors_have_their_texts(error: Error)
    ensures
        error.text() == (match error {
            Error::Io(_) =>
                "Cannot reach the AVR. Check its address and Network Control setting."@,
            Error::Invalid => "Invalid AVR command or setting"@,
            Error::Timeout => "AVR did not confirm the request before the deadline"@,
            Error::Protocol => "Invalid AVR response"@,
            Error::Storage(_) => "Cannot read or write the AVR connection settings"@,
        }),
{
}

/// White space, by the numbers of its characters.
pub open spec fn is_blank(c: char) -> bool {
    let code = c as int;
    ||| 9 <= code <= 13
    ||| code == 32
    ||| code == 133
    ||| code == 160
    ||| code == 5760
    ||| 8192 <= code <= 8202
    ||| code == 8232
    ||| code == 8233
    ||| code == 8239
    ||| code == 8287
    ||| code == 12288
}

/// White space is what Unicode calls so.
pub proof fn law_white_space_is_blank(c: char)
    ensures
        crate::text::white_space(c) <==> is_blank(c),
{
}

/// Settings are usable exactly where the host is one to 253 bytes of text without
/// white space, `/`, `@` and `\`, and the port is not zero. Where none is set the
/// port is 23.
pub proof fn law_usable_settings(settings: Settings)
    ensures
        crate::settings::DEFAULT_PORT == 23,
        settings.valid() <==> {
            &&& 1 <= vstd::utf8::encode_utf8(settings.host@).len() <= 253
            &&& settings.port != 0
            &&& forall|i: int|
                0 <= i < settings.host@.len() ==> {
                    let c = #[trigger] settings.host@[i];
                    !is_blank(c) && c as int != 47 && c as int != 64 && c as int != 92
                }
        },
{
    let host = settings.host@;
    if settings.valid() {
        assert forall|i: int| 0 <= i < host.len() implies {
            let c = #[trigger] host[i];
            !is_blank(c) && c as int != 47 && c as int != 64 && c as int != 92
        } by {
            assert(crate::settings::host_char(host[i]));
        }
    }
}

/// Whether all of a text is white space.
pub open spec fn all_blank(text: Seq<char>) -> bool {
    forall|i: int| 0 <= i < text.len() ==> is_blank(#[trigger] text[i])
}

/// What is trimmed is the text without white space at its ends: what is taken off
/// in front and behind is white space, and what is left begins and ends with none.
#[verifier::spinoff_prover]
pub proof fn law_trimming_takes_off_white_space(text: Seq<char>) -> (ends: (Seq<char>, Seq<char>))
    ensures
        ({
            let left = crate::text::trimmed(text);
            &&& text == ends.0 + left + ends.1
            &&& all_blank(ends.0)
            &&& all_blank(ends.1)
            &&& left.len() > 0 ==> !is_blank(left.first()) && !is_blank(left.last())
        }),
    decreases text.len(),
{
    let left = crate::text::trimmed(text);
    if text.len() > 0 && crate::text::white_space(text.first()) {
        let (front, back) = law_trimming_takes_off_white_space(text.drop_first());
        law_white_space_is_blank(text.first());
        let more = seq![text.first()] + front;
        assert(left == crate::text::trimmed(text.drop_first()));
        assert(text =~= seq![text.first()] + text.drop_first());
        assert(text =~= more + left + back);
        assert forall|i: int| 0 <= i < more.len() implies is_blank(#[trigger] more[i]) by {
            if i > 0 {
                assert(more[i] == front[i - 1]);
            }
        }
        (more, back)
    } else if text.len() > 0 && crate::text::white_space(text.last()) {
        let (front, back) = law_trimming_takes_off_white_space(text.drop_last());
        law_white_space_is_blank(text.last());
        let more = back.push(text.last());
        assert(left == crate::text::trimmed(text.drop_last()));
        assert(text =~= text.drop_last().push(text.last()));
        assert(text =~= front + left + more);
        assert forall|i: int| 0 <= i < more.len() implies is_blank(#[trigger] more[i]) by {
            if i < back.len() {
                assert(more[i] == back[i]);
            }
        }
        (front, more)
    } else {
        let none: Seq<char> = seq![];
        assert(left == text);
        if text.len() > 0 {
            law_white_space_is_blank(text.first());
            law_white_space_is_blank(text.last());
        }
        assert(text =~= none + text + none);
        (none, none)
    }
}

/// A line counts without the line feeds in front of it, and with everything else.
pub proof fn law_line_feeds_in_front_are_passed_over(text: Seq<char>) -> (feeds: Seq<char>)
    ensures
        ({
            let left = crate::text::without_line_feeds(text);
            &&& text == feeds + left
            &&& forall|i: int| 0 <= i < feeds.len() ==> (#[trigger] feeds[i]) as int == 10
            &&& left.len() > 0 ==> left.first() as int != 10
        }),
    decreases text.len(),
{
    if text.len() > 0 && text.first() == '\n' {
        let feeds = law_line_feeds_in_front_are_passed_over(text.drop_first());
        let more = seq![text.first()] + feeds;
        assert(text =~= seq![text.first()] + text.drop_first());
        assert(text =~= more + crate::text::without_line_feeds(text));
        more
    } else {
        assert(text =~= Seq::<char>::empty() + text);
        seq![]
    }
}

/// Bytes up to a carriage return are a line, whatever stands behind it: their
/// text, where they are no more than 1024 and are UTF-8. A longer one, or one that
/// is not UTF-8, is malformed; the longer one stays where it is. One without text
/// is passed over.
pub proof fn law_a_carriage_return_ends_a_line(bytes: Seq<u8>, rest: Seq<u8>)
    requires
        !bytes.contains(13),
    ensures
        ({
            let buffer = bytes + seq![13u8] + rest;
            let text = crate::text::without_line_feeds(vstd::utf8::decode_utf8(bytes));
            crate::line::front(buffer) == (if bytes.len() > 1024 {
                (Front::Malformed, buffer)
            } else if !vstd::utf8::valid_utf8(bytes) {
                (Front::Malformed, rest)
            } else if text.len() == 0 {
                crate::line::front(rest)
            } else {
                (Front::Line(text), rest)
            })
        }),
{
    let buffer = bytes + seq![13u8] + rest;
    let at = bytes.len() as int;
    buffer.index_of_first_ensures(13);
    assert(buffer[at] == 13);
    assert forall|i: int| 0 <= i < at implies buffer[i] != 13 by {
        assert(buffer[i] == bytes[i]);
        assert(bytes.contains(bytes[i]));
    }
    assert(buffer.index_of_first(13) == Some(at));
    assert(buffer.take(at) =~= bytes);
    assert(buffer.skip(at + 1) =~= rest);
}

/// Bytes without a carriage return are kept, up to 1024 of them; more are
/// malformed.
pub proof fn law_without_a_carriage_return_there_is_no_line(bytes: Seq<u8>)
    requires
        !bytes.contains(13),
    ensures
        crate::line::front(bytes) == (if bytes.len() > 1024 {
            (Front::Malformed, bytes)
        } else {
            (Front::Incomplete, bytes)
        }),
{
    bytes.index_of_first_ensures(13);
}

/// Settings are read back as they were saved: what is usable is loaded as it was
/// read, and nothing else is.
pub proof fn law_settings_are_read_back(settings: Settings, read: Result<Settings, Fault>)
    ensures
        settings.valid() ==> Settings::from_file(Ok(settings)) == Ok::<Settings, Error>(settings),
        Settings::from_file(read) matches Ok(loaded) ==> loaded.valid() && read is Ok && read->Ok_0
            == loaded,
{
}

/// A file that does not hold usable settings is invalid; one that cannot be read or
/// written is a failure of the storage, with its cause, and never one of the
/// network.
pub proof fn law_storage_failures_are_told_apart(
    read: Result<Settings, Fault>,
    written: Result<(), Fault>,
)
    ensures
        match Settings::from_file(read) {
            Ok(_) => read is Ok,
            Err(Error::Invalid) => match read {
                Ok(settings) => !settings.valid(),
                Err(fault) => fault.kind is InvalidData,
            },
            Err(Error::Storage(cause)) => read is Err && read->Err_0 == cause && !(
            cause.kind is InvalidData),
            Err(_) => false,
        },
        match Settings::to_file(written) {
            Ok(_) => written is Ok,
            Err(error) => written is Err && error == Error::Storage(written->Err_0),
        },
{
}

} // verus!
