use drugwars::catalog::{Drug, Drugs, GameData, Items, Location, Locations, Position};
use drugwars::day::{land_flights, new_day};
use drugwars::dealer::{
    Dealer, DealerStatus, Dealers, Flight, Flights, STARTING_CAPACITY, STARTING_HEALTH,
    STARTING_MONEY,
};
use drugwars::error::DrugWarsError;
use drugwars::market::{LocationData, SingleLocationData};
use drugwars::settings::{Date, Settings};
use rand::rngs::StdRng;
use rand::SeedableRng;

fn locations() -> Locations {
    Locations(vec![
        Location { name: "Paris".to_owned(), position: Position { lat: 0, long: 0 } },
        Location { name: "Rome".to_owned(), position: Position { lat: 0, long: 90000000 } },
        Location { name: "Oslo".to_owned(), position: Position { lat: 1000000, long: 0 } },
    ])
}

fn world() -> (Dealers, LocationData) {
    let mut dealers = Dealers(vec![]);
    dealers.register_at("alice", 0, 3).unwrap();
    dealers.register_at("bob", 1, 3).unwrap();
    let mut data = LocationData(vec![
        SingleLocationData::default(),
        SingleLocationData::default(),
        SingleLocationData::default(),
    ]);
    data.0[0].people = vec!["alice".to_owned()];
    data.0[1].people = vec!["bob".to_owned()];
    (dealers, data)
}

#[test]
fn registering_twice_is_refused() {
    let mut rng = StdRng::seed_from_u64(1);
    let mut dealers = Dealers(vec![]);
    assert_eq!(dealers.register("alice", &locations(), &mut rng), Ok(()));
    assert_eq!(
        dealers.register("alice", &locations(), &mut rng),
        Err(DrugWarsError::AlreadyRegistered)
    );
    assert_eq!(dealers.0.len(), 1);
}

#[test]
fn new_dealer_starts_with_the_exact_stake() {
    let mut rng = StdRng::seed_from_u64(2);
    let mut dealers = Dealers(vec![]);
    dealers.register("neo", &locations(), &mut rng).unwrap();
    let d = &dealers.0[0];
    assert_eq!(d.money, 1_000_000_000_000);
    assert_eq!(d.money, STARTING_MONEY);
    assert_eq!(d.laundered_money, 0);
    assert_eq!(d.health, STARTING_HEALTH);
    assert_eq!(d.capacity, STARTING_CAPACITY);
    assert_eq!(d.status, DealerStatus::Available);
    assert!(d.location < 3);
    assert_eq!(d.owned_drugs.len(), 3);
    assert!(d.owned_items.iter().all(|l| l.is_empty()));
}

#[test]
fn a_new_nick_is_always_registered() {
    let mut dealers = Dealers(vec![]);
    for (i, nick) in ["bob", "carol", "dave"].iter().enumerate() {
        let mut rng = StdRng::seed_from_u64(i as u64);
        assert_eq!(dealers.register(nick, &locations(), &mut rng), Ok(()));
        assert_eq!(dealers.0[i].nick, *nick);
        assert_eq!(dealers.0[i].money, 1_000_000_000_000);
    }
    assert_eq!(dealers.register_at("erin", 0, 3), Ok(()));
    assert_eq!(dealers.register_at("erin", 1, 3), Err(DrugWarsError::AlreadyRegistered));
}

#[test]
fn register_at_places_the_dealer() {
    let mut dealers = Dealers(vec![]);
    dealers.register_at("trinity", 2, 3).unwrap();
    assert_eq!(dealers.0[0].location, 2);
    assert_eq!(dealers.0[0].nick, "trinity");
}

#[test]
fn get_dealer_by_nick() {
    let (dealers, _) = world();
    assert_eq!(dealers.get_dealer("bob").unwrap().location, 1);
    assert_eq!(
        dealers.get_dealer("carol").err(),
        Some(DrugWarsError::DealerNotFound("carol".to_owned()))
    );
}

#[test]
fn get_dealer_available_refuses_a_flying_dealer() {
    let (mut dealers, _) = world();
    dealers.get_dealer_mut("bob").unwrap().status = DealerStatus::Flying;
    assert_eq!(dealers.0[1].status, DealerStatus::Flying);
    assert_eq!(
        dealers.get_dealer_available("bob").err(),
        Some(DrugWarsError::DealerNotAvailable(
            "bob".to_owned(),
            "can't do business while flying".to_owned()
        ))
    );
    assert!(dealers.get_dealer_available_mut("bob").is_err());
    assert!(dealers.get_dealer_available("alice").is_ok());
    dealers.get_dealer_available_mut("alice").unwrap().capacity = 11;
    assert_eq!(dealers.0[0].capacity, 11);
    assert!(matches!(
        dealers.get_dealer_mut("zed"),
        Err(DrugWarsError::DealerNotFound(_))
    ));
}

#[test]
fn fly_to_debits_exactly_the_price() {
    let (mut dealers, mut data) = world();
    let mut flights = Flights(vec![]);
    let alice: &mut Dealer = &mut dealers.0[0];
    let before = alice.money;
    assert_eq!(alice.fly_to(&mut flights, 1, &mut data.0[0], 157_079_632), Ok(()));
    assert_eq!(alice.money, before - 157_079_632);
    assert_eq!(alice.status, DealerStatus::Flying);
    assert_eq!(alice.location, 0);
    assert!(data.0[0].people.is_empty());
    assert_eq!(flights.0.len(), 1);
    assert_eq!(flights.0[0].nick, "alice");
    assert_eq!(flights.0[0].destination, 1);
}

#[test]
fn fly_to_without_the_money_changes_nothing() {
    let (mut dealers, mut data) = world();
    let mut flights = Flights(vec![]);
    let alice = &mut dealers.0[0];
    alice.money = 10;
    assert_eq!(alice.fly_to(&mut flights, 1, &mut data.0[0], 11), Err(DrugWarsError::NotEnoughMoney));
    assert_eq!(alice.money, 10);
    assert_eq!(alice.status, DealerStatus::Available);
    assert_eq!(data.0[0].people, vec!["alice".to_owned()]);
    assert!(flights.0.is_empty());
    assert_eq!(alice.fly_to(&mut flights, 1, &mut data.0[0], 10), Ok(()));
    assert_eq!(alice.money, 0);
}

#[test]
fn fly_to_while_unavailable_changes_nothing() {
    let (mut dealers, mut data) = world();
    let mut flights = Flights(vec![]);
    let alice = &mut dealers.0[0];
    alice.status = DealerStatus::Dead(Date { days_from_ce: 738522 });
    assert_eq!(
        alice.fly_to(&mut flights, 1, &mut data.0[0], 1),
        Err(DrugWarsError::DealerNotAvailable(
            "alice".to_owned(),
            "can't do business while dead".to_owned()
        ))
    );
    assert_eq!(alice.money, STARTING_MONEY);
    assert!(flights.0.is_empty());
}

#[test]
fn a_new_flight_replaces_the_old_one() {
    let mut flights = Flights(vec![
        Flight { nick: "a".to_owned(), destination: 1 },
        Flight { nick: "b".to_owned(), destination: 2 },
    ]);
    flights.insert("a".to_owned(), 0);
    assert_eq!(flights.0.len(), 2);
    assert_eq!(flights.0[0].nick, "b");
    assert_eq!(flights.0[1].nick, "a");
    assert_eq!(flights.0[1].destination, 0);
}

#[test]
fn landing_puts_every_flyer_down_and_clears_flights() {
    let (mut dealers, mut data) = world();
    let mut flights = Flights(vec![]);
    dealers.0[0].fly_to(&mut flights, 2, &mut data.0[0], 5).unwrap();
    dealers.0[1].fly_to(&mut flights, 0, &mut data.0[1], 5).unwrap();
    assert_eq!(land_flights(&mut flights, &mut dealers, &mut data), Ok(()));
    assert!(flights.0.is_empty());
    assert_eq!(dealers.0[0].location, 2);
    assert_eq!(dealers.0[1].location, 0);
    assert!(dealers.0.iter().all(|d| d.status == DealerStatus::Available));
    assert_eq!(data.0[2].people, vec!["alice".to_owned()]);
    assert_eq!(data.0[0].people, vec!["bob".to_owned()]);
    assert!(data.0[1].people.is_empty());
}

#[test]
fn landing_an_unknown_dealer_is_an_internal_fault() {
    let (mut dealers, mut data) = world();
    let mut flights = Flights(vec![
        Flight { nick: "alice".to_owned(), destination: 1 },
        Flight { nick: "ghost".to_owned(), destination: 1 },
    ]);
    let r = land_flights(&mut flights, &mut dealers, &mut data);
    assert!(matches!(r, Err(DrugWarsError::InternalFault(_))));
    assert_eq!(flights.0.len(), 2);
    assert_eq!(dealers.0[0].location, 0);
    assert_eq!(data.0[1].people, vec!["bob".to_owned()]);
}

#[test]
fn landing_at_a_location_without_data_is_an_internal_fault() {
    let (mut dealers, mut data) = world();
    let mut flights = Flights(vec![Flight { nick: "alice".to_owned(), destination: 9 }]);
    let r = land_flights(&mut flights, &mut dealers, &mut data);
    assert!(matches!(r, Err(DrugWarsError::InternalFault(_))));
}

fn settings() -> Settings {
    Settings {
        day_duration: 60,
        current_day: Date { days_from_ce: 738522 },
        save_path: "save".to_owned(),
        config_path: "config.yaml".to_owned(),
        width: 120,
    }
}

fn game() -> GameData {
    GameData {
        drugs: Drugs(vec![Drug { name: "Cocaine".to_owned(), nominal_price: 10000 }]),
        items: Items(vec![]),
        locations: locations(),
    }
}

#[test]
fn new_day_waits_for_the_day_to_end() {
    let (mut dealers, mut data) = world();
    let mut s = settings();
    let mut flights = Flights(vec![]);
    let mut rng = StdRng::seed_from_u64(4);
    let untouched = rng.clone();
    let r = new_day(&mut s, 59, &mut data, &game(), &mut flights, &mut dealers, &mut rng);
    assert_eq!(r, Ok(false));
    assert_eq!(rng, untouched);
    assert_eq!(s.current_day.days_from_ce, 738522);
    assert!(data.0[0].drug_market.is_empty());
}

#[test]
fn new_day_advances_calendar_markets_and_flights() {
    let (mut dealers, mut data) = world();
    let mut s = settings();
    let mut flights = Flights(vec![]);
    dealers.0[0].fly_to(&mut flights, 1, &mut data.0[0], 5).unwrap();
    let mut rng = StdRng::seed_from_u64(4);
    let r = new_day(&mut s, 60, &mut data, &game(), &mut flights, &mut dealers, &mut rng);
    assert_eq!(r, Ok(true));
    assert_eq!(s.current_day.days_from_ce, 738523);
    assert_eq!(s.current_day.pretty(), Some("2023-01-03".to_owned()));
    assert!(flights.0.is_empty());
    assert_eq!(dealers.0[0].location, 1);
    assert_eq!(dealers.0[0].status, DealerStatus::Available);
    assert_eq!(data.0[1].people, vec!["bob".to_owned(), "alice".to_owned()]);
    assert!(data.0.iter().all(|d| d.rumors.iter().all(|r| r.confirmed.is_none())));
    assert!(data.0.iter().all(|d| d.drug_market.len() == 1));
}

#[test]
fn status_in_words() {
    assert_eq!(DealerStatus::Available.pretty(), "Available");
    assert_eq!(DealerStatus::Flying.pretty(), "Flying");
    assert_eq!(
        DealerStatus::Dead(Date { days_from_ce: 738522 }).pretty(),
        "Dead since 2023-01-02"
    );
    assert_eq!(
        DealerStatus::Dead(Date { days_from_ce: 1 }).pretty(),
        "Dead since 0001-01-01"
    );
    assert_eq!(DealerStatus::Available.description(), "");
    assert_eq!(DealerStatus::Flying.description(), "can't do business while flying");
}

#[test]
fn error_messages() {
    assert_eq!(DrugWarsError::AlreadyRegistered.message(), "You are already playing you donut");
    assert_eq!(DrugWarsError::DealerNotFound("x".to_owned()).message(), "Dealer x not found.");
    assert_eq!(
        DrugWarsError::DealerNotAvailable("x".to_owned(), "why".to_owned()).message(),
        "Dealer x not available -> why"
    );
    assert_eq!(DrugWarsError::ElementNotFound("coc".to_owned()).message(), "couldn't find coc");
    assert_eq!(
        DrugWarsError::ElementAmbiguous("c".to_owned()).message(),
        "c is too ambiguous. try to be more precise"
    );
    assert_eq!(
        DrugWarsError::NotEnoughMoney.message(),
        "you don't have enough money you broke ass punk"
    );
    assert_eq!(DrugWarsError::InvalidElement("q".to_owned()).message(), "Invalid element q");
}
