//! What holds of dialling, whatever the addresses of the receiver answer.
use crate::client::ClientView;
use crate::dial::{Dial, TurnView};
use crate::error::{Error, Fault};
use crate::settings::Settings;
use vstd::prelude::*;

verus! {

/// What can come of an address that is tried.
pub enum Outcome {
    /// It did not accept, for whatever reason.
    Refused { now: int },
    /// It accepted, and the connection was set up or could not be.
    Accepted { set_up: Result<(), Fault>, now: int },
}

impl TurnView {
    /// How the dialling goes on after an outcome. Nothing changes once it is over.
    pub open spec fn after(self, what: Outcome) -> TurnView {
        match self {
            TurnView::Try { deadline, addresses, address, wait: _ } => match what {
                Outcome::Refused { now } => TurnView::of(deadline, addresses, address + 1, now),
                Outcome::Accepted { set_up, now } => TurnView::last(address, set_up, now),
            },
            _ => self,
        }
    }

    /// Where the dialling is after a number of outcomes.
    pub open spec fn run(self, course: Seq<Outcome>) -> TurnView
        decreases course.len(),
    {
        if course.len() == 0 {
            self
        } else {
            self.after(course.first()).run(course.drop_first())
        }
    }

    /// The addresses that are tried in turn, one for each outcome until the
    /// dialling is over.
    pub open spec fn tried(self, course: Seq<Outcome>) -> Seq<int>
        decreases course.len(),
    {
        match self {
            TurnView::Try { deadline: _, addresses: _, address, wait: _ } => {
                if course.len() == 0 {
                    seq![]
                } else {
                    seq![address] + self.after(course.first()).tried(course.drop_first())
                }
            },
            _ => seq![],
        }
    }
}

proof fn lemma_over_is_over(turn: TurnView, course: Seq<Outcome>)
    requires
        !(turn is Try),
    ensures
        turn.run(course) == turn,
        turn.tried(course) == Seq::<int>::empty(),
    decreases course.len(),
{
    if course.len() > 0 {
        lemma_over_is_over(turn, course.drop_first());
    }
}

proof fn lemma_tried_in_order(
    deadline: int,
    addresses: int,
    address: int,
    now: int,
    course: Seq<Outcome>,
)
    requires
        0 <= address <= addresses,
    ensures
        ({
            let tried = TurnView::of(deadline, addresses, address, now).tried(course);
            &&& tried.len() <= addresses - address
            &&& forall|i: int| 0 <= i < tried.len() ==> #[trigger] tried[i] == address + i
        }),
    decreases course.len(),
{
    let turn = TurnView::of(deadline, addresses, address, now);
    if turn is Try && course.len() > 0 {
        let rest = course.drop_first();
        match course.first() {
            Outcome::Refused { now: next } => {
                lemma_tried_in_order(deadline, addresses, address + 1, next, rest);
            },
            Outcome::Accepted { set_up: _, now: _ } => {
                lemma_over_is_over(turn.after(course.first()), rest);
            },
        }
    }
}

/// The addresses are tried in the order in which the lookup gave them, from the
/// first one on, none twice and none left out in between.
pub proof fn law_addresses_are_tried_in_order(
    deadline: int,
    addresses: usize,
    now: int,
    course: Seq<Outcome>,
)
    ensures
        ({
            let tried = TurnView::first(deadline, Ok(addresses), now).tried(course);
            &&& tried.len() <= addresses
            &&& forall|i: int| 0 <= i < tried.len() ==> #[trigger] tried[i] == i
        }),
{
    lemma_tried_in_order(deadline, addresses as int, 0, now, course);
}

proof fn lemma_first_that_accepts(
    deadline: int,
    addresses: int,
    address: int,
    now: int,
    course: Seq<Outcome>,
    k: int,
    set_up: Result<(), Fault>,
    then: int,
)
    requires
        0 <= k < course.len(),
        address + k < addresses,
        now < deadline,
        forall|i: int| #![trigger course[i]]
            0 <= i < k ==> (course[i] matches Outcome::Refused { now } && now < deadline),
        course[k] == (Outcome::Accepted { set_up, now: then }),
    ensures
        TurnView::of(deadline, addresses, address, now).run(course) == TurnView::last(
            address + k,
            set_up,
            then,
        ),
        TurnView::of(deadline, addresses, address, now).tried(course).len() == k + 1,
    decreases k,
{
    let rest = course.drop_first();
    let next = TurnView::of(deadline, addresses, address, now).after(course[0]);
    if k == 0 {
        lemma_over_is_over(next, rest);
    } else {
        assert forall|i: int| #![trigger rest[i]] 0 <= i < k - 1 implies (
        rest[i] matches Outcome::Refused { now } && now < deadline) by {
            assert(rest[i] == course[i + 1]);
        }
        assert(rest[k - 1] == course[k]);
        lemma_first_that_accepts(
            deadline,
            addresses,
            address + 1,
            course[0]->Refused_now,
            rest,
            k - 1,
            set_up,
            then,
        );
    }
}

/// The first address that accepts in time is the one that is used, and no
/// address behind it is tried: where those in front of it have all refused, the
/// dialling ends with it, whatever else might happen.
pub proof fn law_the_first_that_accepts_is_used(
    deadline: int,
    addresses: usize,
    now: int,
    course: Seq<Outcome>,
    address: int,
    set_up: Result<(), Fault>,
    then: int,
)
    requires
        0 <= address < course.len(),
        address < addresses,
        now < deadline,
        forall|i: int| #![trigger course[i]]
            0 <= i < address ==> (course[i] matches Outcome::Refused { now } && now < deadline),
        course[address] == (Outcome::Accepted { set_up, now: then }),
    ensures
        ({
            let first = TurnView::first(deadline, Ok(addresses), now);
            &&& first.tried(course).len() == address + 1
            &&& first.run(course) == (match set_up {
                Ok(_) => TurnView::Connected { address, client: ClientView::new(then) },
                Err(fault) => TurnView::Failed(Error::of(fault)),
            })
        }),
{
    lemma_first_that_accepts(
        deadline,
        addresses as int,
        0,
        now,
        course,
        address,
        set_up,
        then,
    );
}

proof fn lemma_none_accepts(
    deadline: int,
    addresses: int,
    address: int,
    now: int,
    course: Seq<Outcome>,
)
    requires
        forall|i: int| 0 <= i < course.len() ==> #[trigger] course[i] is Refused,
    ensures
        match TurnView::of(deadline, addresses, address, now).run(course) {
            TurnView::Try { deadline: _, addresses: _, address: there, wait: _ } => {
                there == address + course.len() && there < addresses
            },
            TurnView::Connected { address: _, client: _ } => false,
            TurnView::Failed(error) => error == Error::Timeout,
        },
    decreases course.len(),
{
    let turn = TurnView::of(deadline, addresses, address, now);
    if turn is Try && course.len() > 0 {
        let rest = course.drop_first();
        assert(course[0] is Refused);
        assert forall|i: int| 0 <= i < rest.len() implies #[trigger] rest[i] is Refused by {
            assert(rest[i] == course[i + 1]);
        }
        lemma_none_accepts(deadline, addresses, address + 1, course[0]->Refused_now, rest);
    } else if !(turn is Try) {
        lemma_over_is_over(turn, course);
    }
}

/// Where no address accepts, the dialling fails with a timeout once each of them
/// has been tried, or earlier if the time is over; a lookup without an address is
/// a timeout at once.
pub proof fn law_no_address_is_a_timeout(
    deadline: int,
    addresses: usize,
    now: int,
    course: Seq<Outcome>,
)
    requires
        forall|i: int| 0 <= i < course.len() ==> #[trigger] course[i] is Refused,
    ensures
        ({
            let end = TurnView::first(deadline, Ok(addresses), now).run(course);
            &&& end is Try || end == TurnView::Failed(Error::Timeout)
            &&& course.len() >= addresses ==> end == TurnView::Failed(Error::Timeout)
            &&& now >= deadline ==> end == TurnView::Failed(Error::Timeout)
        }),
{
    lemma_none_accepts(deadline, addresses as int, 0, now, course);
    if now >= deadline {
        lemma_over_is_over(TurnView::first(deadline, Ok(addresses), now), course);
    }
}

proof fn lemma_failures(turn: TurnView, course: Seq<Outcome>)
    requires
        turn matches TurnView::Failed(error) ==> error is Timeout || error is Io,
    ensures
        turn.run(course) matches TurnView::Failed(error) ==> error is Timeout || error is Io,
    decreases course.len(),
{
    if course.len() > 0 {
        lemma_failures(turn.after(course.first()), course.drop_first());
    }
}

/// A lookup that fails ends the dialling with its error, and no address is
/// tried. The dialling fails with a timeout or with a network error only.
pub proof fn law_dialling_fails_as_the_network_does(
    deadline: int,
    found: Result<usize, Fault>,
    now: int,
    course: Seq<Outcome>,
)
    ensures
        ({
            let first = TurnView::first(deadline, found, now);
            &&& found matches Err(fault) ==> {
                &&& first.run(course) == TurnView::Failed(Error::of(fault))
                &&& first.tried(course).len() == 0
            }
            &&& first.run(course) matches TurnView::Failed(error) ==> error is Timeout
                || error is Io
        }),
{
    let first = TurnView::first(deadline, found, now);
    lemma_failures(first, course);
    if found is Err {
        lemma_over_is_over(first, course);
    }
}

/// An address is tried for all the time that is left: whenever one is to be tried,
/// the time from then on is what remains until the deadline, and the address is
/// one of those that the lookup gave.
pub proof fn law_an_address_is_tried_for_the_time_that_is_left(
    deadline: int,
    addresses: usize,
    now: int,
    course: Seq<Outcome>,
)
    ensures
        ({
            let first = TurnView::first(deadline, Ok(addresses), now);
            let time = if course.len() == 0 {
                now
            } else {
                match course.last() {
                    Outcome::Refused { now } => now,
                    Outcome::Accepted { set_up: _, now } => now,
                }
            };
            first.run(course) matches TurnView::Try {
                deadline: until,
                addresses: all,
                address,
                wait,
            } ==> {
                &&& until == deadline
                &&& all == addresses
                &&& 0 <= address < addresses
                &&& wait == deadline - time
                &&& wait > 0
            }
        }),
        0 < addresses && now < deadline ==> TurnView::first(deadline, Ok(addresses), now) is Try,
{
    lemma_time_left(deadline, addresses as int, 0, now, course);
}

proof fn lemma_time_left(
    deadline: int,
    addresses: int,
    address: int,
    now: int,
    course: Seq<Outcome>,
)
    requires
        0 <= address,
    ensures
        TurnView::of(deadline, addresses, address, now).run(course) matches TurnView::Try {
            deadline: until,
            addresses: all,
            address: there,
            wait,
        } ==> {
            &&& until == deadline
            &&& all == addresses
            &&& 0 <= there < addresses
            &&& wait > 0
            &&& course.len() == 0 ==> wait == deadline - now
            &&& course.len() > 0 ==> course.last() is Refused && wait == deadline
                - course.last()->Refused_now
        },
    decreases course.len(),
{
    let turn = TurnView::of(deadline, addresses, address, now);
    if course.len() > 0 {
        let rest = course.drop_first();
        let next = turn.after(course.first());
        if !(next is Try) {
            lemma_over_is_over(next, rest);
        } else {
            lemma_time_left(
                deadline,
                addresses,
                address + 1,
                course.first()->Refused_now,
                rest,
            );
        }
    }
}

/// The dialling begins only with usable settings, and has two seconds for all of
/// it; unusable ones are refused as such.
pub proof fn law_dialling_has_two_seconds(settings: Settings, now: u64)
    requires
        now + 2_000_000_000 <= u64::MAX,
    ensures
        match Dial::begun(settings, now) {
            Ok(dial) => settings.valid() && dial.deadline - now == 2_000_000_000,
            Err(error) => !settings.valid() && error == Error::Invalid,
        },
{
}

} // verus!
