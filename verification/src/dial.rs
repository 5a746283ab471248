//! How a connection comes about: the receiver's addresses are tried in order,
//! until one of them accepts.
use crate::client::{in_time, Client, ClientView, TIMEOUT};
use crate::error::{Error, Fault};
use crate::settings::Settings;
use vstd::prelude::*;

verus! {

/// A receiver whose addresses are being looked up. It has to accept before
/// `deadline`.
pub struct Dial {
    pub deadline: u64,
}

/// One address of the receiver that is being tried: its index among those that
/// the lookup gave.
pub struct Attempt {
    pub deadline: u64,
    pub addresses: usize,
    pub address: usize,
}

/// What the one who dials does next.
pub enum Turn {
    /// Try the address of the attempt, for up to `wait` nanoseconds, and say
    /// what came of it with [`Attempt::refused`] or [`Attempt::accepted`].
    Try { attempt: Attempt, wait: u64 },
    /// The address has accepted: this is the connection to it.
    Connected { address: usize, client: Client },
    /// There is no connection.
    Failed(Error),
}

/// A [`Turn`] as a mathematical value.
pub enum TurnView {
    Try { deadline: int, addresses: int, address: int, wait: int },
    Connected { address: int, client: ClientView },
    Failed(Error),
}

impl View for Turn {
    type V = TurnView;

    open spec fn view(&self) -> TurnView {
        match *self {
            Turn::Try { attempt, wait } => TurnView::Try {
                deadline: attempt.deadline as int,
                addresses: attempt.addresses as int,
                address: attempt.address as int,
                wait: wait as int,
            },
            Turn::Connected { address, client } => TurnView::Connected {
                address: address as int,
                client: client@,
            },
            Turn::Failed(error) => TurnView::Failed(error),
        }
    }
}

impl TurnView {
    /// The turn of an address. Where there is none left, or no time, the dialling
    /// is over.
    pub open spec fn of(deadline: int, addresses: int, address: int, now: int) -> TurnView {
        if address < addresses && now < deadline {
            TurnView::Try { deadline, addresses, address, wait: deadline - now }
        } else {
            TurnView::Failed(Error::Timeout)
        }
    }

    /// The first turn, given how many addresses the lookup gave, or its failure.
    pub open spec fn first(deadline: int, found: Result<usize, Fault>, now: int) -> TurnView {
        match found {
            Ok(addresses) => TurnView::of(deadline, addresses as int, 0, now),
            Err(fault) => TurnView::Failed(Error::of(fault)),
        }
    }

    /// The last turn, once an address has accepted, given whether the connection
    /// could be set up.
    pub open spec fn last(address: int, set_up: Result<(), Fault>, now: int) -> TurnView {
        match set_up {
            Ok(_) => TurnView::Connected { address, client: ClientView::new(now) },
            Err(fault) => TurnView::Failed(Error::of(fault)),
        }
    }
}

impl Dial {
    /// How the dialling begins: at once, with a deadline for all of it, or not at
    /// all where the settings are unusable.
    pub open spec fn begun(settings: Settings, now: u64) -> Result<Dial, Error> {
        if settings.valid() {
            Ok(Dial { deadline: (now + TIMEOUT) as u64 })
        } else {
            Err(Error::Invalid)
        }
    }
}

impl Client {
    /// Begins to connect to the receiver that the settings name.
    pub fn connect(settings: &Settings, now: u64) -> (dial: Result<Dial, Error>)
        requires
            in_time(now),
        ensures
            match dial {
                Ok(dial) => settings.valid() && dial.deadline == now + 2_000_000_000,
                Err(error) => !settings.valid() && error == Error::Invalid,
            },
            dial == Dial::begun(*settings, now),
    {
        match settings.validate() {
            Ok(()) => Ok(Dial { deadline: now + TIMEOUT }),
            Err(error) => Err(error),
        }
    }
}

/// The turn of an address.
fn turn(deadline: u64, addresses: usize, address: usize, now: u64) -> (turn: Turn)
    ensures
        turn@ == TurnView::of(deadline as int, addresses as int, address as int, now as int),
{
    if address < addresses && now < deadline {
        Turn::Try { attempt: Attempt { deadline, addresses, address }, wait: deadline - now }
    } else {
        Turn::Failed(Error::Timeout)
    }
}

impl Dial {
    /// Says how many addresses the lookup gave, or that it failed. The first
    /// address is the first to be tried.
    pub fn looked_up(self, found: Result<usize, Fault>, now: u64) -> (next: Turn)
        ensures
            next@ == TurnView::first(self.deadline as int, found, now as int),
    {
        match found {
            Ok(addresses) => turn(self.deadline, addresses, 0, now),
            Err(fault) => Turn::Failed(Error::from(fault)),
        }
    }
}

impl Attempt {
    /// Says that the address did not accept. The one behind it is the next to be
    /// tried.
    pub fn refused(self, now: u64) -> (next: Turn)
        ensures
            next@ == TurnView::of(
                self.deadline as int,
                self.addresses as int,
                self.address + 1,
                now as int,
            ),
    {
        if self.address < self.addresses {
            turn(self.deadline, self.addresses, self.address + 1, now)
        } else {
            Turn::Failed(Error::Timeout)
        }
    }

    /// Says that the address has accepted, and whether the connection could be
    /// set up. No other address is tried.
    pub fn accepted(self, set_up: Result<(), Fault>, now: u64) -> (end: Turn)
        ensures
            end@ == TurnView::last(self.address as int, set_up, now as int),
    {
        match set_up {
            Ok(_) => Turn::Connected { address: self.address, client: Client::new(now) },
            Err(fault) => Turn::Failed(Error::from(fault)),
        }
    }
}

} // verus!
