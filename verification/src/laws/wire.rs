//! What holds of lines, reports and commands.
use crate::command::CommandView;
use crate::decibels::Decibels;
use crate::line::Front;
use crate::state::{Key, Report, StateView};
use vstd::prelude::*;

verus! {

/// The values of a state go together from the start, and every line of the
/// receiver leaves them so. In particular minimum volume is never reported as a
/// number.
pub proof fn law_states_are_consistent(state: StateView, line: Seq<char>)
    ensures
        StateView::unknown().consistent(),
        state.consistent() ==> state.after(line).consistent(),
{
}

/// A line changes no value but the one that it reports, and a line that reports
/// none changes nothing.
pub proof fn law_a_line_changes_only_its_value(state: StateView, line: Seq<char>)
    ensures
        crate::state::key_of(line) is None ==> state.after(line) == state,
        crate::state::key_of(line) != Some(Key::Power) ==> state.after(line).on == state.on,
        crate::state::key_of(line) != Some(Key::Mute) ==> state.after(line).muted == state.muted,
        crate::state::key_of(line) != Some(Key::Volume) ==> {
            &&& state.after(line).volume_db == state.volume_db
            &&& state.after(line).volume_minimum == state.volume_minimum
        },
        crate::state::key_of(line) != Some(Key::Input) ==> state.after(line).input == state.input,
{
}

/// The maximum volume is not taken for the volume, whatever follows it.
pub proof fn law_maximum_volume_is_ignored(rest: Seq<char>)
    ensures
        Report::of("MVMAX"@ + rest) is None,
{
    reveal_strlit("MVMAX");
    reveal_strlit("MV");
    reveal_strlit("ZMON");
    reveal_strlit("ZMOFF");
    reveal_strlit("MUON");
    reveal_strlit("MUOFF");
}

/// The line of a command begins with the two letters of the value that the
/// command changes.
pub proof fn law_a_command_names_its_value(command: CommandView)
    ensures
        command.line() matches Some(line) ==> line.take(2) == command.key().text(),
{
    reveal_strlit("ZM");
    reveal_strlit("MV");
    reveal_strlit("MU");
    reveal_strlit("SI");
    reveal_strlit("ZMON");
    reveal_strlit("ZMOFF");
    reveal_strlit("MUON");
    reveal_strlit("MUOFF");
    reveal_strlit("MVUP");
    reveal_strlit("MVDOWN");
}

/// The line of a command holds capital letters, digits, spaces, `/`, `+` and `-`
/// only, and no more than twenty-seven of them: nothing in it can end the line
/// and begin another.
pub proof fn law_a_command_is_one_plain_line(command: CommandView)
    ensures
        command.line() matches Some(line) ==> {
            &&& 2 < line.len() <= 27
            &&& forall|i: int| 0 <= i < line.len() ==> crate::text::token_char(#[trigger] line[i])
        },
{
    reveal_strlit("ZMON");
    reveal_strlit("ZMOFF");
    reveal_strlit("MUON");
    reveal_strlit("MUOFF");
    reveal_strlit("MVUP");
    reveal_strlit("MVDOWN");
    reveal_strlit("MV");
    reveal_strlit("SI");
}

/// The line of a command that names its value, taken as a report, confirms the
/// command: what is set is what is read back, half steps and minimum volume
/// included.
pub proof fn law_an_echo_confirms(command: CommandView, state: StateView)
    requires
        command.absolute(),
    ensures
        command.line() matches Some(line) ==> {
            &&& crate::state::key_of(line) == Some(command.key())
            &&& command.confirmed(state.after(line))
        },
{
    reveal_strlit("ZMON");
    reveal_strlit("ZMOFF");
    reveal_strlit("MUON");
    reveal_strlit("MUOFF");
    reveal_strlit("MV");
    reveal_strlit("SI");
    if let Some(line) = command.line() {
        match command {
            CommandView::Mute(_) => {
                assert("MUON"@[0] != "ZMON"@[0]);
                assert("MUOFF"@[0] != "ZMOFF"@[0]);
            },
            CommandView::VolumeDb(db) => {
                lemma_volume_is_read_back(db);
            },
            CommandView::Input(id) => {
                assert(line.subrange(0, 2)[0] == 'S');
                assert(line.skip(2) == id);
            },
            _ => {},
        }
    }
}

/// The line that sets a level is the report of that level.
proof fn lemma_volume_is_read_back(db: Decibels)
    requires
        db.settable(),
    ensures
        Report::of(crate::command::volume_line(db)) == Some(Report::Volume(db.tenths + 800)),
{
    reveal_strlit("ZMON");
    reveal_strlit("ZMOFF");
    reveal_strlit("MUON");
    reveal_strlit("MUOFF");
    reveal_strlit("MV");
}

/// Different levels are set by different lines.
pub proof fn law_levels_are_unambiguous(a: Decibels, b: Decibels)
    requires
        a.settable(),
        b.settable(),
        crate::command::volume_line(a) == crate::command::volume_line(b),
    ensures
        a == b,
{
    lemma_volume_is_read_back(a);
    lemma_volume_is_read_back(b);
}

/// What is sent for a command arrives as its line: one line, with nothing left
/// over.
pub proof fn law_a_command_arrives_as_its_line(command: CommandView)
    ensures
        command.line() matches Some(line) ==> crate::line::front(
            crate::exchange::line_bytes(line),
        ) == (Front::Line(line), Seq::<u8>::empty()),
{
    law_a_command_is_one_plain_line(command);
    if let Some(line) = command.line() {
        let encoded = vstd::utf8::encode_utf8(line);
        let bytes = crate::exchange::line_bytes(line);
        vstd::utf8::is_ascii_chars_encode_utf8(line);
        vstd::utf8::encode_utf8_valid_utf8(line);
        vstd::utf8::encode_utf8_decode_utf8(line);
        bytes.index_of_first_ensures(crate::line::CARRIAGE_RETURN);
        assert(forall|i: int| 0 <= i < line.len() ==> bytes[i] != crate::line::CARRIAGE_RETURN);
        assert(bytes[line.len() as int] == crate::line::CARRIAGE_RETURN);
        assert(bytes.take(line.len() as int) == encoded);
    }
}

/// Bytes that arrive later do not change a line that is whole, nor do they mend
/// one that is too long.
pub proof fn law_later_bytes_change_no_line(buffer: Seq<u8>, more: Seq<u8>)
    ensures
        match crate::line::front(buffer).0 {
            Front::Line(line) => crate::line::front(buffer + more) == (
                Front::Line(line),
                crate::line::front(buffer).1 + more,
            ),
            Front::Malformed => crate::line::front(buffer + more) == (
                Front::Malformed,
                crate::line::front(buffer).1 + more,
            ),
            Front::Incomplete => crate::line::front(buffer + more) == crate::line::front(
                crate::line::front(buffer).1 + more,
            ),
        },
    decreases buffer.len(),
{
    let stop = crate::line::CARRIAGE_RETURN;
    let all = buffer + more;
    buffer.index_of_first_ensures(stop);
    all.index_of_first_ensures(stop);
    match buffer.index_of_first(stop) {
        Some(at) => {
            assert(all[at] == stop);
            assert(all.take(at) == buffer.take(at));
            assert(all.skip(at + 1) == buffer.skip(at + 1) + more);
            law_later_bytes_change_no_line(buffer.skip(at + 1), more);
        },
        None => {},
    }
}

/// Where more bytes are needed, those that are there hold no end of a line and
/// are no more than a line can have.
pub proof fn law_what_waits_is_short(buffer: Seq<u8>)
    ensures
        crate::line::front(buffer).0 == Front::Incomplete ==> {
            &&& !crate::line::front(buffer).1.contains(crate::line::CARRIAGE_RETURN)
            &&& crate::line::front(buffer).1.len() <= crate::line::LONGEST_LINE
            &&& crate::line::front(crate::line::front(buffer).1) == crate::line::front(buffer)
        },
    decreases buffer.len(),
{
    buffer.index_of_first_ensures(crate::line::CARRIAGE_RETURN);
    if let Some(at) = buffer.index_of_first(crate::line::CARRIAGE_RETURN) {
        law_what_waits_is_short(buffer.skip(at + 1));
    }
}

} // verus!
