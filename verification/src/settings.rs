//! Where the receiver is: the settings of the connection.
use crate::error::{Error, Fault, FaultKind};
use crate::text::{chars_of, is_white_space};
use vstd::prelude::*;

verus! {

/// The port that the receiver listens on, if it was not set otherwise.
pub const DEFAULT_PORT: u16 = 23;

/// The address of the receiver.
#[derive(Clone, Debug)]
pub struct Settings {
    pub host: String,
    pub port: u16,
}

/// Whether a character may stand in the name of a host.
pub open spec fn host_char(c: char) -> bool {
    !crate::text::white_space(c) && c != '/' && c != '@' && c != '\\'
}

impl Settings {
    /// Whether a connection can be attempted with the settings: the host has
    /// one to 253 bytes and no white space, `/`, `@` or `\` in it, and the port
    /// is not zero.
    pub open spec fn valid(self) -> bool {
        &&& 0 < vstd::utf8::encode_utf8(self.host@).len() <= 253
        &&& forall|i: int| 0 <= i < self.host@.len() ==> host_char(#[trigger] self.host@[i])
        &&& self.port != 0
    }

    /// Refuses settings that no connection can be attempted with.
    pub fn validate(&self) -> (checked: Result<(), Error>)
        ensures
            checked == (if self.valid() {
                Ok(())
            } else {
                Err::<(), Error>(Error::Invalid)
            }),
    {
        let size: usize = self.host.as_str().as_bytes().len();
        if size == 0 || size > 253 || self.port == 0 {
            return Err(Error::Invalid);
        }
        let chars = chars_of(self.host.as_str());
        for i in 0..chars.len()
            invariant
                chars@ == self.host@,
                forall|j: int| 0 <= j < i ==> host_char(#[trigger] self.host@[j]),
        {
            let c = chars[i];
            if is_white_space(c) || c == '/' || c == '@' || c == '\\' {
                return Err(Error::Invalid);
            }
        }
        Ok(())
    }

    /// What comes of reading the private settings file.
    pub open spec fn from_file(read: Result<Settings, Fault>) -> Result<Settings, Error> {
        match read {
            Ok(settings) => if settings.valid() {
                Ok(settings)
            } else {
                Err(Error::Invalid)
            },
            Err(fault) => if fault.kind == FaultKind::InvalidData {
                Err(Error::Invalid)
            } else {
                Err(Error::Storage(fault))
            },
        }
    }

    /// What comes of writing the private settings file.
    pub open spec fn to_file(written: Result<(), Fault>) -> Result<(), Error> {
        match written {
            Ok(done) => Ok(done),
            Err(fault) => Err(Error::Storage(fault)),
        }
    }

    /// The settings to use, given what came of reading the private settings
    /// file. A file that cannot be read is [`Error::Storage`]; one that does not
    /// hold settings, or holds unusable ones, is [`Error::Invalid`].
    pub fn load(read: Result<Settings, Fault>) -> (loaded: Result<Settings, Error>)
        ensures
            loaded == (match read {
                Ok(settings) => if settings.valid() {
                    Ok(settings)
                } else {
                    Err(Error::Invalid)
                },
                Err(fault) => if fault.kind == FaultKind::InvalidData {
                    Err(Error::Invalid)
                } else {
                    Err(Error::Storage(fault))
                },
            }),
            loaded == Settings::from_file(read),
    {
        match read {
            Ok(settings) => match settings.validate() {
                Ok(()) => Ok(settings),
                Err(error) => Err(error),
            },
            Err(fault) => if fault.kind == FaultKind::InvalidData {
                Err(Error::Invalid)
            } else {
                Err(Error::Storage(fault))
            },
        }
    }

    /// Saves the settings with `write`, which puts them into the private
    /// settings file. Unusable settings are [`Error::Invalid`] and `write` is
    /// not called; a `write` that fails is [`Error::Storage`].
    pub fn save<W: FnOnce(&Settings) -> Result<(), Fault>>(&self, write: W) -> (saved: Result<
        (),
        Error,
    >)
        requires
            self.valid() ==> call_requires(write, (self,)),
        ensures
            !self.valid() ==> saved == Err::<(), Error>(Error::Invalid),
            self.valid() ==> exists|written: Result<(), Fault>| #[trigger]
                call_ensures(write, (self,), written) && saved == (match written {
                    Ok(done) => Ok(done),
                    Err(fault) => Err(Error::Storage(fault)),
                }),
            self.valid() ==> exists|written: Result<(), Fault>| #[trigger]
                call_ensures(write, (self,), written) && saved == Settings::to_file(written),
    {
        match self.validate() {
            Ok(()) => {
                let written = write(self);
                match written {
                    Ok(done) => Ok(done),
                    Err(fault) => Err(Error::Storage(fault)),
                }
            },
            Err(error) => Err(error),
        }
    }
}

} // verus!
