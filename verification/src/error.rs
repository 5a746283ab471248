//! What can go wrong, and how it is reported.
use vstd::prelude::*;
use vstd::std_specs::convert::FromSpecImpl;

verus! {

/// The causes of an I/O failure that are told apart.
#[derive(Clone, Copy, Debug, PartialEq, Eq, Structural)]
pub enum FaultKind {
    /// The operation ran into its time limit.
    TimedOut,
    /// The operation would have had to wait.
    WouldBlock,
    /// The data read was not in the expected form.
    InvalidData,
    /// The peer closed the connection.
    UnexpectedEof,
    /// Anything else.
    Other,
}

/// A failed read, write or connection attempt: what kind of failure it was and
/// the operating system's number for it, where it has one.
#[derive(Clone, Copy, Debug, PartialEq, Eq, Structural)]
pub struct Fault {
    pub kind: FaultKind,
    pub os_code: Option<i32>,
}

/// Why a request to the receiver, or a use of the settings, failed.
#[derive(Clone, Copy, Debug, PartialEq, Eq, Structural)]
pub enum Error {
    /// The receiver could not be reached, or the connection broke.
    Io(Fault),
    /// A command or a setting is not acceptable.
    Invalid,
    /// The receiver did not answer in time.
    Timeout,
    /// The receiver sent something that is not acceptable.
    Protocol,
    /// Reading or writing the private settings file failed. Separate from
    /// [`Error::Io`] because that variant's message sends the user to the
    /// receiver's network settings, and a full or read-only flash has nothing
    /// to do with the receiver.
    Storage(Fault),
}

impl Fault {
    /// Whether the failure is that of a time limit.
    pub open spec fn is_timeout(self) -> bool {
        self.kind == FaultKind::TimedOut || self.kind == FaultKind::WouldBlock
    }

    /// The receiver closed the connection.
    pub open spec fn closed() -> Fault {
        Fault { kind: FaultKind::UnexpectedEof, os_code: None }
    }
}

impl Error {
    /// The error that a network failure is reported as.
    pub open spec fn of(fault: Fault) -> Error {
        if fault.is_timeout() {
            Error::Timeout
        } else {
            Error::Io(fault)
        }
    }

    /// The text shown for the error.
    pub open spec fn text(self) -> Seq<char> {
        match self {
            Error::Io(_) =>
                "Cannot reach the AVR. Check its address and Network Control setting."@,
            Error::Invalid => "Invalid AVR command or setting"@,
            Error::Timeout => "AVR did not confirm the request before the deadline"@,
            Error::Protocol => "Invalid AVR response"@,
            Error::Storage(_) => "Cannot read or write the AVR connection settings"@,
        }
    }

    /// What to tell the user.
    pub fn message(&self) -> (message: &'static str)
        ensures
            message@ == self.text(),
    {
        match self {
            Error::Io(_) => "Cannot reach the AVR. Check its address and Network Control setting.",
            Error::Invalid => "Invalid AVR command or setting",
            Error::Timeout => "AVR did not confirm the request before the deadline",
            Error::Protocol => "Invalid AVR response",
            Error::Storage(_) => "Cannot read or write the AVR connection settings",
        }
    }
}

/// A network failure: a time limit that ran out is [`Error::Timeout`], anything
/// else is [`Error::Io`].
impl From<Fault> for Error {
    fn from(fault: Fault) -> (error: Error) {
        match fault.kind {
            FaultKind::TimedOut | FaultKind::WouldBlock => Error::Timeout,
            _ => Error::Io(fault),
        }
    }
}

impl FromSpecImpl<Fault> for Error {
    open spec fn obeys_from_spec() -> bool {
        true
    }

    open spec fn from_spec(fault: Fault) -> Error {
        Error::of(fault)
    }
}

} // verus!
