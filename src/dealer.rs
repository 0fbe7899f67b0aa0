//! Dealers, their registration, and the flight state machine:
//! Available -> Flying (by `fly_to`) -> Available (by landing).
use crate::catalog::Locations;
use crate::error::DrugWarsError;
use crate::market::{OwnedElement, SingleLocationData};
use crate::random::choose_index;
use crate::settings::{date_text, in_common_years, Date};
use rand::rngs::StdRng;
use vstd::prelude::*;
use vstd::string::*;

verus! {

#[derive(Debug, Clone, Copy, PartialEq, Eq, Structural)]
pub enum DealerStatus {
    Available,
    Flying,
    Dead(Date),
}

/// Why a dealer in status `s` cannot trade.
pub open spec fn status_description(s: DealerStatus) -> Seq<char> {
    match s {
        DealerStatus::Available => ""@,
        DealerStatus::Flying => "can't do business while flying"@,
        DealerStatus::Dead(_) => "can't do business while dead"@,
    }
}

impl DealerStatus {
    /// The status in words; a death date outside the calendar reads `?`.
    pub fn pretty(&self) -> (r: String)
        ensures
            *self == DealerStatus::Available ==> r@ == "Available"@,
            *self == DealerStatus::Flying ==> r@ == "Flying"@,
            *self matches DealerStatus::Dead(d) ==> r@ == "Dead since "@ + date_text(d) || r@
                == "Dead since ?"@,
            *self matches DealerStatus::Dead(d) ==> (in_common_years(d.days_from_ce as int) ==> r@
                == "Dead since "@ + date_text(d)),
    {
        match self {
            DealerStatus::Available => String::from_str("Available"),
            DealerStatus::Flying => String::from_str("Flying"),
            DealerStatus::Dead(since) => match since.pretty() {
                Some(day) => String::from_str("Dead since ").concat(day.as_str()),
                None => String::from_str("Dead since ?"),
            },
        }
    }

    pub fn description(&self) -> (r: String)
        ensures
            r@ == status_description(*self),
    {
        match self {
            DealerStatus::Available => String::from_str(""),
            DealerStatus::Flying => String::from_str("can't do business while flying"),
            DealerStatus::Dead(_) => String::from_str("can't do business while dead"),
        }
    }
}

/// A player's record. Money carries four implied decimal digits; health is
/// in hundredths of a point; `location` indexes the location catalog, and the
/// ledgers are indexed by location, each listing (good index, holding).
#[derive(Debug, Clone)]
pub struct Dealer {
    pub nick: String,
    pub has_attacked: bool,
    pub health: u32,
    pub money: u128,
    pub laundered_money: u128,
    pub location: usize,
    pub capacity: usize,
    pub owned_drugs: Vec<Vec<(usize, OwnedElement)>>,
    pub owned_items: Vec<Vec<(usize, OwnedElement)>>,
    pub status: DealerStatus,
}

/// The money of a new dealer: 100,000,000.0000.
pub const STARTING_MONEY: u128 = 1000000000000;

/// The health of a new dealer: 100.00 points.
pub const STARTING_HEALTH: u32 = 10000;

pub const STARTING_CAPACITY: usize = 10;

/// A pending flight of the dealer `nick` to the location `destination`.
#[derive(Debug)]
pub struct Flight {
    pub nick: String,
    pub destination: usize,
}

/// The flights of the day, at most one per dealer.
#[derive(Debug, Clone)]
pub struct Flights(pub Vec<Flight>);

/// `s` without the flights of `nick`.
pub open spec fn flights_without(s: Seq<Flight>, nick: Seq<char>) -> Seq<Flight>
    decreases s.len(),
{
    if s.len() == 0 {
        s
    } else {
        let rest = flights_without(s.drop_last(), nick);
        if s.last().nick@ == nick {
            rest
        } else {
            rest.push(s.last())
        }
    }
}

/// `s` without the entries equal to `nick`.
pub open spec fn names_without(s: Seq<String>, nick: Seq<char>) -> Seq<String>
    decreases s.len(),
{
    if s.len() == 0 {
        s
    } else {
        let rest = names_without(s.drop_last(), nick);
        if s.last()@ == nick {
            rest
        } else {
            rest.push(s.last())
        }
    }
}

pub open spec fn names_contain(s: Seq<String>, nick: Seq<char>) -> bool {
    exists|i: int| 0 <= i < s.len() && s[i]@ == nick
}

/// No nick is present twice.
pub open spec fn names_unique(s: Seq<String>) -> bool {
    forall|i: int, j: int| 0 <= i < j < s.len() ==> s[i]@ != s[j]@
}

proof fn lemma_names_without(s: Seq<String>, nick: Seq<char>)
    ensures
        forall|k: int|
            0 <= k < names_without(s, nick).len() ==> exists|m: int|
                0 <= m < s.len() && s[m] == #[trigger] names_without(s, nick)[k],
        names_unique(s) ==> names_unique(names_without(s, nick)),
    decreases s.len(),
{
    if s.len() > 0 {
        let rest = s.drop_last();
        lemma_names_without(rest, nick);
        let r = names_without(s, nick);
        let rr = names_without(rest, nick);
        assert forall|k: int| 0 <= k < r.len() implies exists|m: int|
            0 <= m < s.len() && s[m] == #[trigger] r[k] by {
            if k < rr.len() {
                let m = choose|m: int| 0 <= m < rest.len() && rest[m] == rr[k];
                assert(s[m] == r[k]);
            } else {
                assert(s[s.len() - 1] == r[k]);
            }
        }
        if names_unique(s) {
            assert(names_unique(rest));
            assert forall|i: int, j: int| 0 <= i < j < r.len() implies r[i]@ != r[j]@ by {
                if j >= rr.len() {
                    let m = choose|m: int| 0 <= m < rest.len() && rest[m] == rr[i];
                    assert(s[m] == rest[m]);
                }
            }
        }
    }
}

/// Adding a nick that may already be present keeps the nicks unique.
pub(crate) proof fn lemma_add_name_unique(people: Seq<String>, nick: String)
    requires
        names_unique(people),
    ensures
        names_unique(
            if names_contain(people, nick@) {
                people
            } else {
                people.push(nick)
            },
        ),
{
}

/// No dealer has two flights.
pub open spec fn flights_wf(s: Seq<Flight>) -> bool {
    forall|i: int, j: int| 0 <= i < j < s.len() ==> s[i].nick@ != s[j].nick@
}

proof fn lemma_flights_without(s: Seq<Flight>, nick: Seq<char>)
    ensures
        forall|k: int|
            0 <= k < flights_without(s, nick).len() ==> (#[trigger] flights_without(s, nick)[k]).nick@
                != nick && exists|m: int| 0 <= m < s.len() && s[m] == flights_without(s, nick)[k],
        flights_wf(s) ==> flights_wf(flights_without(s, nick)),
    decreases s.len(),
{
    if s.len() > 0 {
        let rest = s.drop_last();
        lemma_flights_without(rest, nick);
        let r = flights_without(s, nick);
        let rr = flights_without(rest, nick);
        assert forall|k: int| 0 <= k < r.len() implies (#[trigger] r[k]).nick@ != nick && exists|
            m: int,
        | 0 <= m < s.len() && s[m] == r[k] by {
            if k < rr.len() {
                let m = choose|m: int| 0 <= m < rest.len() && rest[m] == rr[k];
                assert(s[m] == r[k]);
            } else {
                assert(s[s.len() - 1] == r[k]);
            }
        }
        if flights_wf(s) {
            assert(flights_wf(rest));
            assert forall|i: int, j: int| 0 <= i < j < r.len() implies r[i].nick@ != r[j].nick@ by {
                if j >= rr.len() {
                    let m = choose|m: int| 0 <= m < rest.len() && rest[m] == rr[i];
                    assert(s[m] == rest[m]);
                }
            }
        }
    }
}

impl Flights {
    /// Records the flight of `nick` to `destination`, replacing any earlier
    /// flight of the same dealer.
    pub fn insert(&mut self, nick: String, destination: usize)
        ensures
            final(self).0@ == flights_without(old(self).0@, nick@).push(
                Flight { nick, destination },
            ),
            flights_wf(old(self).0@) ==> flights_wf(final(self).0@),
    {
        let mut kept: Vec<Flight> = Vec::new();
        let mut i: usize = 0;
        while i < self.0.len()
            invariant
                i <= self.0@.len(),
                kept@ == flights_without(self.0@.take(i as int), nick@),
            decreases self.0@.len() - i,
        {
            assert(self.0@.take(i + 1).drop_last() == self.0@.take(i as int));
            if self.0[i].nick != nick {
                kept.push(self.0[i].clone());
            }
            i = i + 1;
        }
        assert(self.0@.take(self.0@.len() as int) == self.0@);
        proof {
            lemma_flights_without(self.0@, nick@);
        }
        kept.push(Flight { nick, destination });
        self.0 = kept;
    }
}

impl Clone for Flight {
    fn clone(&self) -> (r: Flight)
        ensures
            r == *self,
    {
        Flight { nick: self.nick.clone(), destination: self.destination }
    }
}

/// Removes `nick` from the names `people`.
fn remove_name(people: &mut Vec<String>, nick: &String)
    ensures
        final(people)@ == names_without(old(people)@, nick@),
        names_unique(old(people)@) ==> names_unique(final(people)@),
{
    proof {
        lemma_names_without(people@, nick@);
    }
    let mut kept: Vec<String> = Vec::new();
    let mut i: usize = 0;
    while i < people.len()
        invariant
            i <= people@.len(),
            kept@ == names_without(people@.take(i as int), nick@),
        decreases people@.len() - i,
    {
        assert(people@.take(i + 1).drop_last() == people@.take(i as int));
        if people[i] != *nick {
            kept.push(people[i].clone());
        }
        i = i + 1;
    }
    assert(people@.take(people@.len() as int) == people@);
    *people = kept;
}

/// Adds `nick` to the names `people` unless it is there already.
pub(crate) fn add_name(people: &mut Vec<String>, nick: &String)
    ensures
        final(people)@ == if names_contain(old(people)@, nick@) {
            old(people)@
        } else {
            old(people)@.push(*nick)
        },
{
    let mut i: usize = 0;
    while i < people.len()
        invariant
            i <= people@.len(),
            forall|k: int| 0 <= k < i ==> people@[k]@ != nick@,
        decreases people@.len() - i,
    {
        if people[i] == *nick {
            return;
        }
        i = i + 1;
    }
    people.push(nick.clone());
}

impl Dealer {
    /// Ends a flight at `destination`.
    pub(crate) fn land(&mut self, destination: usize)
        ensures
            *final(self) == (Dealer {
                location: destination,
                status: DealerStatus::Available,
                ..*old(self)
            }),
    {
        self.location = destination;
        self.status = DealerStatus::Available;
    }

    pub fn available(&self) -> (r: bool)
        ensures
            r == (self.status == DealerStatus::Available),
    {
        self.status == DealerStatus::Available
    }

    /// Takes a flight costing `price` to `destination`: the dealer pays,
    /// leaves the people of the current location, and is Flying until the
    /// day ends. Nothing changes when the dealer is not available or cannot
    /// pay.
    pub fn fly_to(
        &mut self,
        flights: &mut Flights,
        destination: usize,
        current_location_data: &mut SingleLocationData,
        price: u128,
    ) -> (r: Result<(), DrugWarsError>)
        ensures
            old(self).status != DealerStatus::Available ==> (r matches Err(
                DrugWarsError::DealerNotAvailable(n, why),
            ) && n@ == old(self).nick@ && why@ == status_description(old(self).status)),
            old(self).status == DealerStatus::Available && old(self).money < price ==> r matches Err(
                DrugWarsError::NotEnoughMoney,
            ),
            r is Err ==> *final(self) == *old(self) && *final(flights) == *old(flights)
                && *final(current_location_data) == *old(current_location_data),
            old(self).status == DealerStatus::Available && price <= old(self).money ==> r is Ok,
            r is Ok ==> {
                &&& final(self).money == old(self).money - price
                &&& final(self).status == DealerStatus::Flying
                &&& *final(self) == (Dealer {
                    money: final(self).money,
                    status: DealerStatus::Flying,
                    ..*old(self)
                })
                &&& final(flights).0@ == flights_without(old(flights).0@, old(self).nick@).push(
                    Flight { nick: old(self).nick, destination },
                )
                &&& final(current_location_data).people@ == names_without(
                    old(current_location_data).people@,
                    old(self).nick@,
                )
                &&& names_unique(old(current_location_data).people@) ==> names_unique(
                    final(current_location_data).people@,
                )
                &&& *final(current_location_data) == (SingleLocationData {
                    people: final(current_location_data).people,
                    ..*old(current_location_data)
                })
            },
    {
        if self.status != DealerStatus::Available {
            return Err(DrugWarsError::DealerNotAvailable(self.nick.clone(), self.status.description()));
        }
        if self.money < price {
            return Err(DrugWarsError::NotEnoughMoney);
        }
        self.status = DealerStatus::Flying;
        remove_name(&mut current_location_data.people, &self.nick);
        self.money = self.money - price;
        flights.insert(self.nick.clone(), destination);
        Ok(())
    }
}


pub open spec fn is_nick_at(dealers: Seq<Dealer>, nick: Seq<char>, i: int) -> bool {
    0 <= i < dealers.len() && dealers[i].nick@ == nick
}

pub open spec fn has_nick(dealers: Seq<Dealer>, nick: Seq<char>) -> bool {
    exists|i: int| is_nick_at(dealers, nick, i)
}

/// A dealer just registered under `nick` at `location`, in a world of
/// `n_locations` locations.
pub open spec fn is_new_dealer(d: Dealer, nick: Seq<char>, location: usize, n_locations: nat) -> bool {
    &&& d.nick@ == nick
    &&& !d.has_attacked
    &&& d.health == STARTING_HEALTH
    &&& d.money == STARTING_MONEY
    &&& d.laundered_money == 0
    &&& d.location == location
    &&& d.capacity == STARTING_CAPACITY
    &&& d.status == DealerStatus::Available
    &&& d.owned_drugs@.len() == n_locations
    &&& d.owned_items@.len() == n_locations
    &&& forall|i: int|
        0 <= i < n_locations ==> (#[trigger] d.owned_drugs@[i])@.len() == 0
            && d.owned_items@[i]@.len() == 0
}

/// Every registered dealer, each nick at most once.
#[derive(Debug, Clone)]
pub struct Dealers(pub Vec<Dealer>);

impl Dealers {
    pub open spec fn wf(&self) -> bool {
        forall|i: int, j: int|
            0 <= i < j < self.0@.len() ==> self.0@[i].nick@ != self.0@[j].nick@
    }

    pub(crate) fn find(&self, nick: &str) -> (r: Option<usize>)
        ensures
            match r {
                Some(i) => is_nick_at(self.0@, nick@, i as int),
                None => !has_nick(self.0@, nick@),
            },
    {
        let wanted = nick.to_owned();
        let mut i: usize = 0;
        while i < self.0.len()
            invariant
                wanted@ == nick@,
                i <= self.0@.len(),
                forall|k: int| 0 <= k < i ==> self.0@[k].nick@ != nick@,
            decreases self.0@.len() - i,
        {
            if self.0[i].nick == wanted {
                return Some(i);
            }
            i = i + 1;
        }
        None
    }

    pub fn get_dealer(&self, nick: &str) -> (r: Result<&Dealer, DrugWarsError>)
        ensures
            match r {
                Ok(d) => exists|i: int| is_nick_at(self.0@, nick@, i) && *d == self.0@[i],
                Err(e) => !has_nick(self.0@, nick@) && (e matches DrugWarsError::DealerNotFound(n)
                    && n@ == nick@),
            },
    {
        match self.find(nick) {
            Some(i) => Ok(&self.0[i]),
            None => Err(DrugWarsError::DealerNotFound(nick.to_owned())),
        }
    }

    /// The dealer `nick`, provided it can trade.
    pub fn get_dealer_available(&self, nick: &str) -> (r: Result<&Dealer, DrugWarsError>)
        ensures
            match r {
                Ok(d) => exists|i: int| is_nick_at(self.0@, nick@, i) && *d == self.0@[i]
                    && d.status == DealerStatus::Available,
                Err(DrugWarsError::DealerNotFound(n)) => !has_nick(self.0@, nick@) && n@ == nick@,
                Err(DrugWarsError::DealerNotAvailable(n, why)) => exists|i: int|
                    is_nick_at(self.0@, nick@, i) && self.0@[i].status != DealerStatus::Available
                        && n@ == nick@ && why@ == status_description(self.0@[i].status),
                Err(_) => false,
            },
    {
        let dealer = self.get_dealer(nick)?;
        if !dealer.available() {
            return Err(DrugWarsError::DealerNotAvailable(nick.to_owned(), dealer.status.description()));
        }
        Ok(dealer)
    }

    pub fn get_dealer_mut(&mut self, nick: &str) -> (r: Result<&mut Dealer, DrugWarsError>)
        ensures
            match r {
                Ok(d) => exists|i: int|
                    is_nick_at(old(self).0@, nick@, i) && *d == old(self).0@[i] && final(self).0@
                        == old(self).0@.update(i, *final(d)),
                Err(e) => !has_nick(old(self).0@, nick@) && (e matches DrugWarsError::DealerNotFound(
                    n,
                ) && n@ == nick@) && *final(self) == *old(self),
            },
    {
        match self.find(nick) {
            Some(i) => Ok(&mut self.0[i]),
            None => Err(DrugWarsError::DealerNotFound(nick.to_owned())),
        }
    }

    /// The dealer `nick` for a change, provided it can trade.
    pub fn get_dealer_available_mut(&mut self, nick: &str) -> (r: Result<
        &mut Dealer,
        DrugWarsError,
    >)
        ensures
            match r {
                Ok(d) => exists|i: int|
                    is_nick_at(old(self).0@, nick@, i) && *d == old(self).0@[i]
                        && d.status == DealerStatus::Available && final(self).0@ == old(
                        self,
                    ).0@.update(i, *final(d)),
                Err(DrugWarsError::DealerNotFound(n)) => !has_nick(old(self).0@, nick@) && n@
                    == nick@ && *final(self) == *old(self),
                Err(DrugWarsError::DealerNotAvailable(n, why)) => exists|i: int|
                    is_nick_at(old(self).0@, nick@, i) && old(self).0@[i].status
                        != DealerStatus::Available && n@ == nick@ && why@ == status_description(
                        old(self).0@[i].status,
                    ) && *final(self) == *old(self),
                Err(_) => false,
            },
    {
        match self.find(nick) {
            Some(i) => {
                if !self.0[i].available() {
                    return Err(
                        DrugWarsError::DealerNotAvailable(nick.to_owned(), self.0[i].status.description()),
                    );
                }
                Ok(&mut self.0[i])
            },
            None => Err(DrugWarsError::DealerNotFound(nick.to_owned())),
        }
    }

    /// Registers `nick` at `location`, among `n_locations` locations; a nick
    /// already registered is refused.
    pub fn register_at(&mut self, nick: &str, location: usize, n_locations: usize) -> (r: Result<
        (),
        DrugWarsError,
    >)
        ensures
            has_nick(old(self).0@, nick@) <==> r matches Err(DrugWarsError::AlreadyRegistered),
            !has_nick(old(self).0@, nick@) ==> r is Ok,
            r is Err ==> *final(self) == *old(self),
            r is Ok ==> final(self).0@.len() == old(self).0@.len() + 1 && final(self).0@.drop_last()
                == old(self).0@ && is_new_dealer(
                final(self).0@.last(),
                nick@,
                location,
                n_locations as nat,
            ),
            old(self).wf() ==> final(self).wf(),
    {
        if self.find(nick).is_some() {
            return Err(DrugWarsError::AlreadyRegistered);
        }
        let mut owned_drugs: Vec<Vec<(usize, OwnedElement)>> = Vec::new();
        let mut owned_items: Vec<Vec<(usize, OwnedElement)>> = Vec::new();
        let mut i: usize = 0;
        while i < n_locations
            invariant
                i <= n_locations,
                owned_drugs@.len() == i,
                owned_items@.len() == i,
                forall|k: int|
                    0 <= k < i ==> (#[trigger] owned_drugs@[k])@.len() == 0
                        && owned_items@[k]@.len() == 0,
            decreases n_locations - i,
        {
            owned_drugs.push(Vec::new());
            owned_items.push(Vec::new());
            i = i + 1;
        }
        let dealer = Dealer {
            nick: nick.to_owned(),
            has_attacked: false,
            health: STARTING_HEALTH,
            money: STARTING_MONEY,
            laundered_money: 0,
            location,
            capacity: STARTING_CAPACITY,
            owned_drugs,
            owned_items,
            status: DealerStatus::Available,
        };
        self.0.push(dealer);
        assert(self.0@.drop_last() == old(self).0@);
        assert forall|k: int| 0 <= k < old(self).0@.len() implies old(self).0@[k].nick@ != nick@ by {
            assert(!is_nick_at(old(self).0@, nick@, k));
        }
        Ok(())
    }

    /// Registers `nick` at a location drawn from the catalog; a nick already
    /// registered is refused.
    pub fn register(&mut self, nick: &str, locations: &Locations, rng: &mut StdRng) -> (r: Result<
        (),
        DrugWarsError,
    >)
        requires
            locations.0@.len() > 0,
        ensures
            has_nick(old(self).0@, nick@) <==> r matches Err(DrugWarsError::AlreadyRegistered),
            !has_nick(old(self).0@, nick@) ==> r is Ok,
            r is Err ==> *final(self) == *old(self),
            r is Ok ==> final(self).0@.len() == old(self).0@.len() + 1 && final(self).0@.drop_last()
                == old(self).0@ && final(self).0@.last().location < locations.0@.len()
                && is_new_dealer(
                final(self).0@.last(),
                nick@,
                final(self).0@.last().location,
                locations.0@.len(),
            ),
            old(self).wf() ==> final(self).wf(),
    {
        if self.find(nick).is_some() {
            return Err(DrugWarsError::AlreadyRegistered);
        }
        match choose_index(rng, locations.0.len()) {
            Some(location) => self.register_at(nick, location, locations.0.len()),
            None => Err(DrugWarsError::InternalFault(String::from_str("no location to start at"))),
        }
    }
}


/// Registration is once per nick: once a registration of `nick` has
/// succeeded, the nick is registered, so a second registration of it is
/// refused with `AlreadyRegistered`; and the new dealer holds exactly the
/// starting money.
pub proof fn lemma_register_once(
    before: Dealers,
    after: Dealers,
    nick: Seq<char>,
    location: usize,
    n_locations: nat,
)
    requires
        after.0@.len() == before.0@.len() + 1,
        after.0@.drop_last() == before.0@,
        is_new_dealer(after.0@.last(), nick, location, n_locations),
    ensures
        has_nick(after.0@, nick),
        after.0@.last().money == STARTING_MONEY,
{
    assert(is_nick_at(after.0@, nick, after.0@.len() - 1));
}

} // verus!
