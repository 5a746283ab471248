//! What the receiver has reported of itself.
use crate::decibels::Decibels;
use crate::text::{begins, chars_of, same, token_between};
use vstd::prelude::*;

verus! {

/// The four values that the receiver reports.
#[derive(Clone, Copy, Debug, PartialEq, Eq, Structural)]
pub enum Key {
    Power,
    Volume,
    Mute,
    Input,
}

impl Key {
    /// The two letters in front of the value.
    pub open spec fn text(self) -> Seq<char> {
        match self {
            Key::Power => "ZM"@,
            Key::Volume => "MV"@,
            Key::Mute => "MU"@,
            Key::Input => "SI"@,
        }
    }

    /// The place of the value in the order in which a status asks.
    pub open spec fn place(self) -> int {
        match self {
            Key::Power => 0,
            Key::Volume => 1,
            Key::Mute => 2,
            Key::Input => 3,
        }
    }

    /// The two letters that the receiver puts in front of the value.
    pub fn prefix(self) -> (prefix: &'static str)
        ensures
            prefix@ == self.text(),
    {
        match self {
            Key::Power => "ZM",
            Key::Volume => "MV",
            Key::Mute => "MU",
            Key::Input => "SI",
        }
    }

    /// The place of the value in the order in which a status asks.
    pub fn index(self) -> (index: usize)
        ensures
            index == self.place(),
            index < 4,
    {
        match self {
            Key::Power => 0,
            Key::Volume => 1,
            Key::Mute => 2,
            Key::Input => 3,
        }
    }
}

/// What is known of the receiver's main zone.
#[derive(Debug, PartialEq)]
pub struct State {
    pub on: Option<bool>,
    pub muted: Option<bool>,
    /// The volume, where it is a number.
    pub volume_db: Option<Decibels>,
    /// The volume is at its minimum, which is not a number of decibels.
    pub volume_minimum: bool,
    pub input: Option<String>,
}

/// A [`State`] as a mathematical value.
#[verifier::ext_equal]
pub struct StateView {
    pub on: Option<bool>,
    pub muted: Option<bool>,
    pub volume_db: Option<Decibels>,
    pub volume_minimum: bool,
    pub input: Option<Seq<char>>,
}

impl View for State {
    type V = StateView;

    open spec fn view(&self) -> StateView {
        StateView {
            on: self.on,
            muted: self.muted,
            volume_db: self.volume_db,
            volume_minimum: self.volume_minimum,
            input: match self.input {
                Some(input) => Some(input@),
                None => None,
            },
        }
    }
}

impl Default for State {
    fn default() -> (state: State)
        ensures
            state@ == StateView::unknown(),
    {
        State { on: None, muted: None, volume_db: None, volume_minimum: false, input: None }
    }
}

impl Clone for State {
    fn clone(&self) -> (state: State)
        ensures
            state@ == self@,
    {
        State {
            on: self.on,
            muted: self.muted,
            volume_db: self.volume_db,
            volume_minimum: self.volume_minimum,
            input: match &self.input {
                Some(input) => Some(input.clone()),
                None => None,
            },
        }
    }
}

/// What one line of the receiver says, where it says something of its state.
pub enum Report {
    Power(bool),
    Mute(bool),
    /// The volume in tenths, where 800 is the level of 0 dB.
    Volume(int),
    Input(Seq<char>),
}

/// The number that two digits (of whole steps) or three (of tenths) stand for,
/// in tenths. It is a volume up to 980 and in half steps.
pub open spec fn volume_of(digits: Seq<char>) -> Option<int> {
    if (digits.len() == 2 || digits.len() == 3) && forall|i: int|
        0 <= i < digits.len() ==> crate::text::is_digit(#[trigger] digits[i]) {
        let a = crate::text::digit_value(digits[0]);
        let b = crate::text::digit_value(digits[1]);
        let tenths = if digits.len() == 2 {
            100 * a + 10 * b
        } else {
            100 * a + 10 * b + crate::text::digit_value(digits[2])
        };
        if tenths <= 980 && tenths % 5 == 0 {
            Some(tenths)
        } else {
            None
        }
    } else {
        None
    }
}

impl Report {
    /// What a line says. Maximum volume, surround and channel data and
    /// extensions that are not known say nothing.
    pub open spec fn of(line: Seq<char>) -> Option<Report> {
        if line == "ZMON"@ {
            Some(Report::Power(true))
        } else if line == "ZMOFF"@ {
            Some(Report::Power(false))
        } else if line == "MUON"@ {
            Some(Report::Mute(true))
        } else if line == "MUOFF"@ {
            Some(Report::Mute(false))
        } else if "MV"@.is_prefix_of(line) {
            match volume_of(line.skip(2)) {
                Some(tenths) => Some(Report::Volume(tenths)),
                None => None,
            }
        } else if "SI"@.is_prefix_of(line) && crate::text::is_token(line.skip(2)) {
            Some(Report::Input(line.skip(2)))
        } else {
            None
        }
    }

    /// Which value the report is of.
    pub open spec fn key(self) -> Key {
        match self {
            Report::Power(_) => Key::Power,
            Report::Mute(_) => Key::Mute,
            Report::Volume(_) => Key::Volume,
            Report::Input(_) => Key::Input,
        }
    }
}

impl StateView {
    /// Nothing has been reported.
    pub open spec fn unknown() -> StateView {
        StateView { on: None, muted: None, volume_db: None, volume_minimum: false, input: None }
    }

    /// The state once a report is taken over. Minimum volume is no number.
    pub open spec fn with(self, report: Report) -> StateView {
        match report {
            Report::Power(on) => StateView { on: Some(on), ..self },
            Report::Mute(muted) => StateView { muted: Some(muted), ..self },
            Report::Volume(tenths) => StateView {
                volume_minimum: tenths == 0,
                volume_db: if tenths == 0 {
                    None
                } else {
                    Some(Decibels { tenths: (tenths - 800) as i16 })
                },
                ..self
            },
            Report::Input(input) => StateView { input: Some(input), ..self },
        }
    }

    /// Whether the values go together: minimum volume is not a number as well, a
    /// number is one that the receiver can be set to above the minimum, and an
    /// input is one that can be named.
    pub open spec fn consistent(self) -> bool {
        &&& self.volume_minimum ==> self.volume_db is None
        &&& self.volume_db matches Some(db) ==> db.settable() && db.tenths > -800
        &&& self.input matches Some(id) ==> crate::text::is_token(id)
    }

    /// Whether a value is known.
    pub open spec fn has(self, key: Key) -> bool {
        match key {
            Key::Power => self.on is Some,
            Key::Volume => self.volume_db is Some || self.volume_minimum,
            Key::Mute => self.muted is Some,
            Key::Input => self.input is Some,
        }
    }

    /// The state after a line of the receiver.
    pub open spec fn after(self, line: Seq<char>) -> StateView {
        match Report::of(line) {
            Some(report) => self.with(report),
            None => self,
        }
    }
}

/// Which value a line reports, if it reports one.
pub open spec fn key_of(line: Seq<char>) -> Option<Key> {
    match Report::of(line) {
        Some(report) => Some(report.key()),
        None => None,
    }
}

/// The volume that `chars` from the third on stand for, in tenths.
fn volume_after_prefix(chars: &Vec<char>) -> (volume: Option<u16>)
    requires
        chars.len() >= 2,
    ensures
        match volume {
            Some(tenths) => volume_of(chars@.skip(2)) == Some(tenths as int) && tenths <= 980,
            None => volume_of(chars@.skip(2)) is None,
        },
{
    let ghost digits = chars@.skip(2);
    if chars.len() != 4 && chars.len() != 5 {
        return None;
    }
    let mut number: u16 = 0;
    for i in 2..chars.len()
        invariant
            chars.len() == 4 || chars.len() == 5,
            digits == chars@.skip(2),
            forall|j: int| 0 <= j < i - 2 ==> crate::text::is_digit(#[trigger] digits[j]),
            i == 2 ==> number == 0,
            i == 3 ==> number == crate::text::digit_value(digits[0]),
            i == 4 ==> number == 10 * crate::text::digit_value(digits[0])
                + crate::text::digit_value(digits[1]),
            i == 5 ==> number == 100 * crate::text::digit_value(digits[0]) + 10
                * crate::text::digit_value(digits[1]) + crate::text::digit_value(digits[2]),
            i <= 2 ==> number == 0,
            i <= 3 ==> number < 10,
            i <= 4 ==> number < 100,
            number < 1000,
    {
        let c = chars[i];
        if !('0' <= c && c <= '9') {
            return None;
        }
        number = 10 * number + (c as u16 - 48);
    }
    let tenths: u16 = if chars.len() == 4 {
        10 * number
    } else {
        number
    };
    if tenths > 980 || tenths % 5 != 0 {
        None
    } else {
        Some(tenths)
    }
}

/// Takes over what a line of the receiver reports, and says which value that
/// was.
pub(crate) fn observe(state: &mut State, line: &str) -> (key: Option<Key>)
    ensures
        key == key_of(line@),
        final(state)@ == old(state)@.after(line@),
{
    let chars = chars_of(line);
    if same(&chars, "ZMON") {
        state.on = Some(true);
        return Some(Key::Power);
    }
    if same(&chars, "ZMOFF") {
        state.on = Some(false);
        return Some(Key::Power);
    }
    if same(&chars, "MUON") {
        state.muted = Some(true);
        return Some(Key::Mute);
    }
    if same(&chars, "MUOFF") {
        state.muted = Some(false);
        return Some(Key::Mute);
    }
    proof {
        reveal_strlit("MV");
        reveal_strlit("SI");
    }
    if begins(&chars, "MV") {
        return match volume_after_prefix(&chars) {
            Some(tenths) => {
                state.volume_minimum = tenths == 0;
                state.volume_db =
                if tenths == 0 {
                    None
                } else {
                    Some(Decibels { tenths: tenths as i16 - 800 })
                };
                Some(Key::Volume)
            },
            None => None,
        };
    }
    if begins(&chars, "SI") {
        if token_between(&chars, 2, chars.len()) {
            state.input = Some(line.substring_char(2, chars.len()).to_owned());
            return Some(Key::Input);
        }
    }
    None
}

/// Recognizes state updates while ignoring maximum volume, surround and channel
/// data and unknown extensions. Says by its prefix which value was updated.
pub fn apply(state: &mut State, line: &str) -> (key: Option<&'static str>)
    ensures
        match key_of(line@) {
            Some(reported) => key matches Some(prefix) && prefix@ == reported.text(),
            None => key is None,
        },
        final(state)@ == old(state)@.after(line@),
{
    match observe(state, line) {
        Some(key) => Some(key.prefix()),
        None => None,
    }
}

} // verus!
