use drugwars::catalog::{Drug, Drugs, GameData, Item, ItemKind, Items, Location, Locations, Position};
use drugwars::error::DrugWarsError;
use drugwars::market::{
    price_with_mods, Good, LocationData, MarketElement, PriceMod, PriceModKind, PriceTrend, Rumor,
    SingleLocationData, MARKET_RANGE,
};
use rand::rngs::StdRng;
use rand::SeedableRng;

fn drug(name: &str, price: u128) -> Drug {
    Drug { name: name.to_owned(), nominal_price: price }
}

fn game() -> GameData {
    GameData {
        drugs: Drugs(vec![drug("Cocaine", 10000), drug("Heroin", 25000), drug("Weed", 600)]),
        items: Items(vec![
            Item { name: "Glock".to_owned(), nominal_price: 5000000, kind: ItemKind::Ammo },
            Item { name: "Vest".to_owned(), nominal_price: 7000000, kind: ItemKind::Ammo },
        ]),
        locations: Locations(vec![
            Location { name: "Paris".to_owned(), position: Position { lat: 48856600, long: 2352200 } },
            Location { name: "Rome".to_owned(), position: Position { lat: 41902800, long: 12496400 } },
        ]),
    }
}

fn modifier(drug: usize, trend: PriceTrend) -> PriceMod {
    PriceMod { drug, trend, kind: PriceModKind::Spontaneous }
}

#[test]
fn up_modifier_multiplies_price_by_fifteen() {
    assert_eq!(price_with_mods(10000, &vec![modifier(0, PriceTrend::Up)], 0), 150000);
}

#[test]
fn down_modifier_divides_price_by_six_rounding_down() {
    assert_eq!(price_with_mods(10000, &vec![modifier(0, PriceTrend::Down)], 0), 1666);
}

#[test]
fn modifiers_apply_in_order() {
    let mods = vec![modifier(0, PriceTrend::Down), modifier(0, PriceTrend::Up)];
    assert_eq!(price_with_mods(10, &mods, 0), 15);
    let mods = vec![modifier(0, PriceTrend::Up), modifier(0, PriceTrend::Down)];
    assert_eq!(price_with_mods(10, &mods, 0), 25);
}

#[test]
fn repeated_down_modifiers_reach_zero() {
    let mods = vec![
        modifier(0, PriceTrend::Down),
        modifier(0, PriceTrend::Down),
        modifier(0, PriceTrend::Down),
    ];
    assert_eq!(price_with_mods(100, &mods, 0), 0);
    assert_eq!(price_with_mods(5, &vec![modifier(0, PriceTrend::Down)], 0), 0);
}

#[test]
fn modifiers_of_other_drugs_are_ignored() {
    let mods = vec![modifier(1, PriceTrend::Up), modifier(2, PriceTrend::Down)];
    assert_eq!(price_with_mods(777, &mods, 0), 777);
}

#[test]
fn up_modifier_saturates_at_the_largest_price() {
    assert_eq!(price_with_mods(u128::MAX / 2, &vec![modifier(0, PriceTrend::Up)], 0), u128::MAX);
}

#[test]
fn targeted_drug_is_always_on_the_market_at_modded_price() {
    let g = game();
    for seed in 0..40u64 {
        let mut rng = StdRng::seed_from_u64(seed);
        let mut data = SingleLocationData::default();
        data.price_mods = vec![modifier(0, PriceTrend::Up), modifier(1, PriceTrend::Down)];
        data.update_markets(&g.drugs, &g.items, &mut rng);
        assert_eq!(data.drug_market.len(), 3);
        assert_eq!(data.item_market.len(), 2);
        let up = data.drug_market[0].unwrap();
        assert_eq!(up.price, 150000);
        assert!(up.price > g.drugs.0[0].nominal_price);
        let down = data.drug_market[1].unwrap();
        assert_eq!(down.price, 4166);
        assert!(down.price < g.drugs.0[1].nominal_price);
        if let Some(e) = data.drug_market[2] {
            assert_eq!(e.price, 600);
        }
        for e in data.drug_market.iter().chain(data.item_market.iter()).flatten() {
            assert!(e.supply < MARKET_RANGE && e.demand < MARKET_RANGE);
        }
        for (i, e) in data.item_market.iter().enumerate() {
            if let Some(e) = e {
                assert_eq!(e.price, g.items.0[i].nominal_price);
            }
        }
    }
}

#[test]
fn untargeted_goods_are_sometimes_absent() {
    let g = game();
    let mut absent = 0;
    for seed in 0..40u64 {
        let mut rng = StdRng::seed_from_u64(seed);
        let mut data = SingleLocationData::default();
        data.update_markets(&g.drugs, &g.items, &mut rng);
        absent += data.drug_market.iter().filter(|e| e.is_none()).count();
    }
    assert!(absent > 0);
}

#[test]
fn spontaneous_modifiers_are_one_per_drug_in_catalog_order() {
    let g = game();
    let mut seen = 0;
    for seed in 0..60u64 {
        let mut rng = StdRng::seed_from_u64(seed);
        let mut data = SingleLocationData::default();
        data.price_mods = vec![PriceMod { drug: 2, trend: PriceTrend::Up, kind: PriceModKind::Rumor }];
        data.update_price_mods(&g.drugs, &mut rng);
        for w in data.price_mods.windows(2) {
            assert!(w[0].drug < w[1].drug);
        }
        for m in &data.price_mods {
            assert_eq!(m.kind, PriceModKind::Spontaneous);
            assert!(m.drug < 3);
        }
        seen += data.price_mods.len();
    }
    assert!(seen > 0);
}

fn rumor(drug: usize, trend: PriceTrend, confirmed: Option<bool>) -> Rumor {
    Rumor { drug, trend, location: 1, confirmed }
}

#[test]
fn confirm_rumors_resolves_pending_and_discards_every_rumor() {
    let mut confirmed_seen = 0;
    for seed in 0..20u64 {
        let mut rng = StdRng::seed_from_u64(seed);
        let mut data = SingleLocationData::default();
        let kept = modifier(2, PriceTrend::Up);
        data.price_mods = vec![kept];
        data.rumors = vec![
            rumor(0, PriceTrend::Up, None),
            rumor(1, PriceTrend::Down, Some(true)),
            rumor(2, PriceTrend::Down, None),
        ];
        data.confirm_rumors(&mut rng);
        assert!(data.rumors.is_empty());
        assert_eq!(data.price_mods[0], kept);
        let added = &data.price_mods[1..];
        let candidates = [
            PriceMod { drug: 0, trend: PriceTrend::Up, kind: PriceModKind::Rumor },
            PriceMod { drug: 2, trend: PriceTrend::Down, kind: PriceModKind::Rumor },
        ];
        let mut j = 0;
        for m in added {
            while j < candidates.len() && candidates[j] != *m {
                j += 1;
            }
            assert!(j < candidates.len());
            j += 1;
        }
        confirmed_seen += added.len();
    }
    assert!(confirmed_seen > 0);
}

#[test]
fn generated_rumors_are_unresolved_and_name_catalog_entries() {
    let g = game();
    let mut total = 0;
    for seed in 0..100u64 {
        let mut rng = StdRng::seed_from_u64(seed);
        let mut data = SingleLocationData::default();
        data.rumors = vec![rumor(0, PriceTrend::Up, Some(false))];
        data.generate_rumors(&g.drugs, &g.locations, &mut rng);
        for r in &data.rumors {
            assert_eq!(r.confirmed, None);
            assert!(r.drug < 3 && r.location < 2);
        }
        for w in data.rumors.windows(2) {
            assert!(w[0].drug < w[1].drug);
        }
        total += data.rumors.len();
    }
    assert!(total > 0);
}

#[test]
fn a_rumor_is_resolved_on_the_next_day() {
    let g = game();
    let mut rng = StdRng::seed_from_u64(7);
    let mut data = SingleLocationData::default();
    for _ in 0..30 {
        let yesterday: Vec<Rumor> = data.rumors.clone();
        data.run_day(&g, &mut rng);
        assert!(data.rumors.iter().all(|r| r.confirmed.is_none()));
        let from_rumors: Vec<PriceMod> =
            data.price_mods.iter().copied().filter(|m| m.kind == PriceModKind::Rumor).collect();
        let mut j = 0;
        for m in &from_rumors {
            while j < yesterday.len()
                && (yesterday[j].drug != m.drug || yesterday[j].trend != m.trend)
            {
                j += 1;
            }
            assert!(j < yesterday.len());
            j += 1;
        }
        assert!(from_rumors.len() <= yesterday.len());
    }
}

#[test]
fn location_data_update_runs_every_location() {
    let g = game();
    let mut rng = StdRng::seed_from_u64(3);
    let mut data = LocationData(vec![SingleLocationData::default(), SingleLocationData::default()]);
    data.0[1].people = vec!["neo".to_owned()];
    data.update(&g, &mut rng);
    assert_eq!(data.0.len(), 2);
    for d in &data.0 {
        assert_eq!(d.drug_market.len(), 3);
        assert_eq!(d.item_market.len(), 2);
    }
    assert_eq!(data.0[1].people, vec!["neo".to_owned()]);
}

#[test]
fn get_market_element_finds_todays_offer() {
    let g = game();
    let mut data = SingleLocationData::default();
    let offer = MarketElement { supply: 3, demand: 4, price: 99 };
    data.drug_market = vec![None, Some(offer)];
    data.item_market = vec![Some(offer)];
    assert_eq!(data.get_market_element(&g.drugs.0[1], Good::Drug(1)), Ok(&offer));
    assert_eq!(data.get_market_element(&g.items.0[0], Good::Item(0)), Ok(&offer));
    assert_eq!(
        data.get_market_element(&g.drugs.0[0], Good::Drug(0)),
        Err(DrugWarsError::ElementNotFound("Cocaine".to_owned()))
    );
    assert_eq!(
        data.get_market_element(&g.items.0[1], Good::Item(1)),
        Err(DrugWarsError::ElementNotFound("Vest".to_owned()))
    );
}
