//! The day cycle: when a day is over, the calendar moves on, every location
//! runs its day, and every pending flight lands.
use crate::catalog::GameData;
use crate::dealer::{
    add_name, flights_wf, has_nick, is_nick_at, lemma_add_name_unique, names_contain, names_unique,
    Dealer, DealerStatus, Dealers, Flight, Flights,
};
use crate::error::DrugWarsError;
use crate::market::{day_outcome, LocationData, SingleLocationData};
use crate::settings::Settings;
use rand::rngs::StdRng;
use vstd::prelude::*;
use vstd::string::*;

verus! {

/// A flight that can land: its dealer is registered and its destination has
/// data.
pub open spec fn flight_ok(f: Flight, dealers: Seq<Dealer>, n_locations: nat) -> bool {
    has_nick(dealers, f.nick@) && f.destination < n_locations
}

/// The dealers of `ds` once the dealer of `f` has landed.
pub open spec fn land_one(ds: Seq<Dealer>, f: Flight) -> Seq<Dealer> {
    ds.map_values(
        |d: Dealer|
            if d.nick@ == f.nick@ {
                Dealer { location: f.destination, status: DealerStatus::Available, ..d }
            } else {
                d
            },
    )
}

/// The dealers of `ds` once every flight of `flights` has landed, in order.
pub open spec fn dealers_after_landing(ds: Seq<Dealer>, flights: Seq<Flight>) -> Seq<Dealer>
    decreases flights.len(),
{
    if flights.len() == 0 {
        ds
    } else {
        land_one(dealers_after_landing(ds, flights.drop_last()), flights.last())
    }
}

pub open spec fn add_name_spec(people: Seq<String>, nick: String) -> Seq<String> {
    if names_contain(people, nick@) {
        people
    } else {
        people.push(nick)
    }
}

/// The people of location `l` once every flight of `flights` has landed.
pub open spec fn people_after_landing(people: Seq<String>, flights: Seq<Flight>, l: int) -> Seq<
    String,
>
    decreases flights.len(),
{
    if flights.len() == 0 {
        people
    } else {
        let p = people_after_landing(people, flights.drop_last(), l);
        if flights.last().destination == l {
            add_name_spec(p, flights.last().nick)
        } else {
            p
        }
    }
}

/// Landing never lists a dealer twice at a location.
pub proof fn lemma_landing_keeps_people_unique(people: Seq<String>, flights: Seq<Flight>, l: int)
    requires
        names_unique(people),
    ensures
        names_unique(people_after_landing(people, flights, l)),
    decreases flights.len(),
{
    if flights.len() > 0 {
        lemma_landing_keeps_people_unique(people, flights.drop_last(), l);
        if flights.last().destination == l {
            lemma_add_name_unique(
                people_after_landing(people, flights.drop_last(), l),
                flights.last().nick,
            );
        }
    }
}

pub open spec fn nicks_unique(ds: Seq<Dealer>) -> bool {
    forall|i: int, j: int| 0 <= i < j < ds.len() ==> ds[i].nick@ != ds[j].nick@
}

proof fn lemma_landing_keeps_nicks(ds: Seq<Dealer>, flights: Seq<Flight>)
    ensures
        dealers_after_landing(ds, flights).len() == ds.len(),
        forall|i: int|
            0 <= i < ds.len() ==> (#[trigger] dealers_after_landing(ds, flights)[i]).nick
                == ds[i].nick,
    decreases flights.len(),
{
    if flights.len() > 0 {
        lemma_landing_keeps_nicks(ds, flights.drop_last());
    }
}

/// Lands every flight of `flights`: each dealer takes its destination as
/// location, becomes available and joins the people there; then no flight
/// is left. When some flight names an unknown dealer or a location without
/// data, nothing changes and the fault is reported.
pub fn land_flights(flights: &mut Flights, dealers: &mut Dealers, loc_data: &mut LocationData) -> (r:
    Result<(), DrugWarsError>)
    requires
        old(dealers).wf(),
    ensures
        r is Ok <==> forall|k: int|
            0 <= k < old(flights).0@.len() ==> flight_ok(
                #[trigger] old(flights).0@[k],
                old(dealers).0@,
                old(loc_data).0@.len(),
            ),
        r is Err ==> (r matches Err(DrugWarsError::InternalFault(_))) && *final(flights) == *old(
            flights,
        ) && *final(dealers) == *old(dealers) && *final(loc_data) == *old(loc_data),
        r is Ok ==> {
            &&& final(flights).0@.len() == 0
            &&& final(dealers).0@ == dealers_after_landing(old(dealers).0@, old(flights).0@)
            &&& final(loc_data).0@.len() == old(loc_data).0@.len()
            &&& forall|l: int|
                0 <= l < old(loc_data).0@.len() ==> #[trigger] final(loc_data).0@[l] == (
                SingleLocationData {
                    people: final(loc_data).0@[l].people,
                    ..old(loc_data).0@[l]
                }) && final(loc_data).0@[l].people@ == people_after_landing(
                    old(loc_data).0@[l].people@,
                    old(flights).0@,
                    l,
                )
            &&& forall|l: int|
                0 <= l < old(loc_data).0@.len() && names_unique(old(loc_data).0@[l].people@)
                    ==> names_unique(#[trigger] final(loc_data).0@[l].people@)
        },
{
    let mut k: usize = 0;
    while k < flights.0.len()
        invariant
            k <= flights.0@.len(),
            forall|j: int|
                0 <= j < k ==> flight_ok(#[trigger] flights.0@[j], dealers.0@, loc_data.0@.len()),
        decreases flights.0@.len() - k,
    {
        if flights.0[k].destination >= loc_data.0.len() {
            return Err(DrugWarsError::InternalFault(String::from_str("flight to a location without data")));
        }
        if dealers.find(flights.0[k].nick.as_str()).is_none() {
            return Err(DrugWarsError::InternalFault(String::from_str("flight of an unknown dealer")));
        }
        k = k + 1;
    }
    let ghost ds0 = dealers.0@;
    let ghost ld0 = loc_data.0@;
    let ghost fs = flights.0@;
    let mut k: usize = 0;
    while k < flights.0.len()
        invariant
            fs == flights.0@,
            k <= fs.len(),
            forall|j: int| 0 <= j < fs.len() ==> flight_ok(#[trigger] fs[j], ds0, ld0.len()),
            nicks_unique(ds0),
            dealers.0@ == dealers_after_landing(ds0, fs.take(k as int)),
            loc_data.0@.len() == ld0.len(),
            forall|l: int|
                0 <= l < ld0.len() ==> #[trigger] loc_data.0@[l] == (SingleLocationData {
                    people: loc_data.0@[l].people,
                    ..ld0[l]
                }) && loc_data.0@[l].people@ == people_after_landing(
                    ld0[l].people@,
                    fs.take(k as int),
                    l,
                ),
        decreases fs.len() - k,
    {
        let ghost before = dealers.0@;
        proof {
            lemma_landing_keeps_nicks(ds0, fs.take(k as int));
            assert(fs.take(k + 1).drop_last() == fs.take(k as int));
            assert(flight_ok(fs[k as int], ds0, ld0.len()));
        }
        let f_nick = flights.0[k].nick.as_str();
        let destination = flights.0[k].destination;
        let found = dealers.find(f_nick);
        proof {
            let m = choose|m: int| crate::dealer::is_nick_at(ds0, fs[k as int].nick@, m);
            assert(crate::dealer::is_nick_at(before, fs[k as int].nick@, m));
        }
        match found {
            Some(i) => {
                dealers.0[i].land(destination);
                assert forall|j: int| 0 <= j < before.len() implies dealers.0@[j] == land_one(
                    before,
                    fs[k as int],
                )[j] by {
                    if j != i {
                        assert(before[j].nick == ds0[j].nick);
                        assert(before[i as int].nick == ds0[i as int].nick);
                    }
                }
                assert(dealers.0@ =~= land_one(before, fs[k as int]));
            },
            None => {},
        }
        add_name(&mut loc_data.0[destination].people, &flights.0[k].nick);
        k = k + 1;
    }
    assert(fs.take(fs.len() as int) == fs);
    flights.0 = Vec::new();
    assert forall|l: int|
        0 <= l < ld0.len() && names_unique(ld0[l].people@) implies names_unique(
        #[trigger] loc_data.0@[l].people@,
    ) by {
        lemma_landing_keeps_people_unique(ld0[l].people@, fs, l);
    }
    Ok(())
}


fn flights_can_land(flights: &Flights, dealers: &Dealers, n_locations: usize) -> (r: bool)
    ensures
        r == forall|k: int|
            0 <= k < flights.0@.len() ==> flight_ok(
                #[trigger] flights.0@[k],
                dealers.0@,
                n_locations as nat,
            ),
{
    let mut k: usize = 0;
    while k < flights.0.len()
        invariant
            k <= flights.0@.len(),
            forall|j: int|
                0 <= j < k ==> flight_ok(#[trigger] flights.0@[j], dealers.0@, n_locations as nat),
        decreases flights.0@.len() - k,
    {
        if flights.0[k].destination >= n_locations || dealers.find(flights.0[k].nick.as_str()).is_none() {
            assert(!flight_ok(flights.0@[k as int], dealers.0@, n_locations as nat));
            return false;
        }
        k = k + 1;
    }
    true
}

/// Advances the simulation when a day of `settings.day_duration` seconds is
/// over after `elapsed_secs` seconds: the calendar moves one day on, every
/// location runs its day, and every pending flight lands. Returns whether the
/// day advanced. When a flight cannot land, nothing changes and the fault is
/// reported.
pub fn new_day(
    settings: &mut Settings,
    elapsed_secs: u64,
    loc_data: &mut LocationData,
    game_data: &GameData,
    flights: &mut Flights,
    dealers: &mut Dealers,
    rng: &mut StdRng,
) -> (r: Result<bool, DrugWarsError>)
    requires
        game_data.locations.0@.len() > 0,
        old(dealers).wf(),
        old(settings).current_day.days_from_ce < i32::MAX,
    ensures
        elapsed_secs < old(settings).day_duration ==> r == Ok::<bool, DrugWarsError>(false),
        elapsed_secs >= old(settings).day_duration ==> (r == Ok::<bool, DrugWarsError>(true)
            <==> forall|k: int|
            0 <= k < old(flights).0@.len() ==> flight_ok(
                #[trigger] old(flights).0@[k],
                old(dealers).0@,
                old(loc_data).0@.len(),
            )),
        elapsed_secs >= old(settings).day_duration ==> r != Ok::<bool, DrugWarsError>(false),
        r is Err ==> r matches Err(DrugWarsError::InternalFault(_)),
        !(r == Ok::<bool, DrugWarsError>(true)) ==> *final(settings) == *old(settings)
            && *final(loc_data) == *old(loc_data) && *final(flights) == *old(flights)
            && *final(dealers) == *old(dealers) && *final(rng) == *old(rng),
        r == Ok::<bool, DrugWarsError>(true) ==> {
            &&& final(settings).current_day.days_from_ce == old(settings).current_day.days_from_ce
                + 1
            &&& *final(settings) == (Settings {
                current_day: final(settings).current_day,
                ..*old(settings)
            })
            &&& final(flights).0@.len() == 0
            &&& final(dealers).0@ == dealers_after_landing(old(dealers).0@, old(flights).0@)
            &&& final(loc_data).0@.len() == old(loc_data).0@.len()
            &&& forall|l: int|
                0 <= l < old(loc_data).0@.len() ==> day_outcome(
                    #[trigger] old(loc_data).0@[l],
                    SingleLocationData { people: old(loc_data).0@[l].people, ..final(loc_data).0@[l] },
                    *game_data,
                ) && final(loc_data).0@[l].people@ == people_after_landing(
                    old(loc_data).0@[l].people@,
                    old(flights).0@,
                    l,
                )
        },
{
    if (elapsed_secs as u128) < (settings.day_duration as u128) {
        return Ok(false);
    }
    if !flights_can_land(flights, dealers, loc_data.0.len()) {
        return Err(DrugWarsError::InternalFault(String::from_str("a flight cannot land")));
    }
    let ghost ld0 = loc_data.0@;
    settings.current_day = settings.current_day.next();
    loc_data.update(game_data, rng);
    let ghost ld1 = loc_data.0@;
    let landed = land_flights(flights, dealers, loc_data);
    match landed {
        Ok(()) => {
            assert forall|l: int| 0 <= l < ld0.len() implies day_outcome(
                #[trigger] ld0[l],
                SingleLocationData { people: ld0[l].people, ..loc_data.0@[l] },
                *game_data,
            ) by {
                assert(day_outcome(ld0[l], ld1[l], *game_data));
                assert(SingleLocationData { people: ld0[l].people, ..loc_data.0@[l] } == ld1[l]);
            }
            Ok(true)
        },
        Err(e) => Err(e),
    }
}

/// The dealer of `f` is available at the flight's destination.
pub open spec fn has_landed(ds: Seq<Dealer>, f: Flight) -> bool {
    exists|i: int|
        is_nick_at(ds, f.nick@, i) && ds[i].location == f.destination && ds[i].status
            == DealerStatus::Available
}

/// Landing puts every flyer down: once the flights of the day (at most one
/// per dealer, each for a registered dealer) have landed, the dealer of each
/// flight is available at its destination.
pub proof fn lemma_every_flyer_lands(ds: Seq<Dealer>, flights: Seq<Flight>, n_locations: nat)
    requires
        nicks_unique(ds),
        flights_wf(flights),
        forall|k: int| 0 <= k < flights.len() ==> flight_ok(#[trigger] flights[k], ds, n_locations),
    ensures
        forall|k: int|
            0 <= k < flights.len() ==> has_landed(dealers_after_landing(ds, flights), #[trigger] flights[k]),
    decreases flights.len(),
{
    if flights.len() > 0 {
        let rest = flights.drop_last();
        let f = flights.last();
        assert forall|k: int| 0 <= k < rest.len() implies flight_ok(#[trigger] rest[k], ds, n_locations) by {
            assert(flight_ok(flights[k], ds, n_locations));
        }
        lemma_every_flyer_lands(ds, rest, n_locations);
        lemma_landing_keeps_nicks(ds, rest);
        lemma_landing_keeps_nicks(ds, flights);
        let mid = dealers_after_landing(ds, rest);
        let after = dealers_after_landing(ds, flights);
        assert forall|k: int| 0 <= k < flights.len() implies has_landed(after, #[trigger] flights[k]) by {
            if k < rest.len() {
                assert(rest[k] == flights[k]);
                assert(has_landed(mid, rest[k]));
                let i = choose|i: int|
                    is_nick_at(mid, rest[k].nick@, i) && mid[i].location
                        == rest[k].destination && mid[i].status == DealerStatus::Available;
                assert(flights[k].nick@ != f.nick@);
                assert(after == land_one(mid, f));
                assert(after[i] == mid[i]);
                assert(is_nick_at(after, flights[k].nick@, i) && after[i].location
                    == flights[k].destination && after[i].status == DealerStatus::Available);
            } else {
                assert(flight_ok(f, ds, n_locations));
                let i = choose|i: int| is_nick_at(ds, f.nick@, i);
                assert(mid[i].nick == ds[i].nick);
                assert(after == land_one(mid, f));
                assert(is_nick_at(after, flights[k].nick@, i) && after[i].location
                    == flights[k].destination && after[i].status == DealerStatus::Available);
            }
        }
    }
}

} // verus!
