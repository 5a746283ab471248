//! What the receiver can be told to do.
use crate::decibels::Decibels;
use crate::error::Error;
use crate::state::{Key, State, StateView};
use crate::text::{digit_text, token};
use vstd::prelude::*;

verus! {

/// A command to the receiver.
#[derive(Clone, Debug)]
pub enum Command {
    Power(bool),
    Mute(bool),
    VolumeUp,
    VolumeDown,
    VolumeDb(Decibels),
    Input(String),
}

/// A [`Command`] as a mathematical value.
pub enum CommandView {
    Power(bool),
    Mute(bool),
    VolumeUp,
    VolumeDown,
    VolumeDb(Decibels),
    Input(Seq<char>),
}

impl View for Command {
    type V = CommandView;

    open spec fn view(&self) -> CommandView {
        match *self {
            Command::Power(on) => CommandView::Power(on),
            Command::Mute(on) => CommandView::Mute(on),
            Command::VolumeUp => CommandView::VolumeUp,
            Command::VolumeDown => CommandView::VolumeDown,
            Command::VolumeDb(db) => CommandView::VolumeDb(db),
            Command::Input(id) => CommandView::Input(id@),
        }
    }
}

/// The line that sets a level: the volume from 0 to 98 in two digits, and in
/// three where it has a half step.
pub open spec fn volume_line(db: Decibels) -> Seq<char> {
    let value = db.tenths + 800;
    if value % 10 == 0 {
        "MV"@ + seq![crate::text::digit(value / 100), crate::text::digit(value / 10 % 10)]
    } else {
        "MV"@ + seq![
            crate::text::digit(value / 100),
            crate::text::digit(value / 10 % 10),
            crate::text::digit(value % 10),
        ]
    }
}

impl CommandView {
    /// The line that gives the command, if there is one.
    pub open spec fn line(self) -> Option<Seq<char>> {
        match self {
            CommandView::Power(on) => Some(if on { "ZMON"@ } else { "ZMOFF"@ }),
            CommandView::Mute(on) => Some(if on { "MUON"@ } else { "MUOFF"@ }),
            CommandView::VolumeUp => Some("MVUP"@),
            CommandView::VolumeDown => Some("MVDOWN"@),
            CommandView::VolumeDb(db) => if db.settable() {
                Some(volume_line(db))
            } else {
                None
            },
            CommandView::Input(id) => if crate::text::is_token(id) {
                Some("SI"@ + id)
            } else {
                None
            },
        }
    }

    /// The value that the command changes.
    pub open spec fn key(self) -> Key {
        match self {
            CommandView::Power(_) => Key::Power,
            CommandView::Mute(_) => Key::Mute,
            CommandView::VolumeUp | CommandView::VolumeDown | CommandView::VolumeDb(_) => {
                Key::Volume
            },
            CommandView::Input(_) => Key::Input,
        }
    }

    /// Whether the command names the value that it asks for.
    pub open spec fn absolute(self) -> bool {
        self != CommandView::VolumeUp && self != CommandView::VolumeDown
    }

    /// Whether a state has the value that the command asks for. Minimum volume
    /// is that of -80 dB.
    pub open spec fn confirmed(self, state: StateView) -> bool {
        match self {
            CommandView::Power(on) => state.on == Some(on),
            CommandView::Mute(on) => state.muted == Some(on),
            CommandView::VolumeUp | CommandView::VolumeDown => true,
            CommandView::VolumeDb(db) => {
                state.volume_db == Some(db) || (db.tenths == -800 && state.volume_minimum)
            },
            CommandView::Input(id) => state.input == Some(id),
        }
    }
}

/// The line that sets the volume to a level from -80 dB to 18 dB, in half
/// decibels. Other levels are [`Error::Invalid`].
pub fn volume(db: Decibels) -> (line: Result<String, Error>)
    ensures
        match line {
            Ok(text) => db.settable() && text@ == volume_line(db),
            Err(error) => !db.settable() && error == Error::Invalid,
        },
{
    if !db.is_settable() {
        return Err(Error::Invalid);
    }
    let value: u16 = (db.tenths + 800) as u16;
    let mut line = "MV".to_owned();
    line.append(digit_text(value / 100));
    line.append(digit_text(value / 10 % 10));
    if value % 10 != 0 {
        line.append(digit_text(value % 10));
    }
    Ok(line)
}

impl Command {
    /// The line that gives the command. A level that cannot be set, or an input
    /// that cannot be named, is [`Error::Invalid`].
    pub fn wire(&self) -> (line: Result<String, Error>)
        ensures
            match line {
                Ok(text) => self@.line() == Some(text@),
                Err(error) => self@.line() is None && error == Error::Invalid,
            },
    {
        match self {
            Command::Power(on) => Ok(
                if *on {
                    "ZMON".to_owned()
                } else {
                    "ZMOFF".to_owned()
                },
            ),
            Command::Mute(on) => Ok(
                if *on {
                    "MUON".to_owned()
                } else {
                    "MUOFF".to_owned()
                },
            ),
            Command::VolumeUp => Ok("MVUP".to_owned()),
            Command::VolumeDown => Ok("MVDOWN".to_owned()),
            Command::VolumeDb(db) => volume(*db),
            Command::Input(id) => if token(id.as_str()) {
                Ok("SI".to_owned().concat(id.as_str()))
            } else {
                Err(Error::Invalid)
            },
        }
    }

    /// The value that the command changes.
    pub fn key(&self) -> (key: Key)
        ensures
            key == self@.key(),
    {
        match self {
            Command::Power(_) => Key::Power,
            Command::Mute(_) => Key::Mute,
            Command::VolumeUp | Command::VolumeDown | Command::VolumeDb(_) => Key::Volume,
            Command::Input(_) => Key::Input,
        }
    }

    /// Whether the receiver's state has the value that the command asks for.
    pub fn confirmed(&self, state: &State) -> (is: bool)
        ensures
            is == self@.confirmed(state@),
    {
        match self {
            Command::Power(on) => state.on == Some(*on),
            Command::Mute(on) => state.muted == Some(*on),
            Command::VolumeUp | Command::VolumeDown => true,
            Command::VolumeDb(db) => {
                state.volume_db == Some(*db) || (db.tenths == -800 && state.volume_minimum)
            },
            Command::Input(id) => match &state.input {
                Some(input) => *input == *id,
                None => false,
            },
        }
    }
}

} // verus!
