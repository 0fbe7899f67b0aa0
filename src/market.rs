//! The per-location market state and the daily pipeline that regenerates it:
//! spontaneous price modifiers, resolution of yesterday's rumors, a fresh
//! market, and tomorrow's rumors.
use crate::catalog::{Drugs, Element, GameData, Items, Locations};
use crate::error::DrugWarsError;
use crate::random::{choose_index, gen_below, gen_ratio};
use rand::rngs::StdRng;
use vstd::prelude::*;

verus! {

#[derive(Debug, Clone, Copy, PartialEq, Eq, Structural)]
pub enum PriceTrend {
    Up,
    Down,
}

#[derive(Debug, Clone, Copy, PartialEq, Eq, Structural)]
pub enum PriceModKind {
    Rumor,
    Spontaneous,
}

/// A one-day change of a drug's price; `drug` indexes the drug catalog.
#[derive(Debug, Clone, Copy, PartialEq, Eq, Structural)]
pub struct PriceMod {
    pub drug: usize,
    pub trend: PriceTrend,
    pub kind: PriceModKind,
}

/// Word of a coming change of a drug's price at `location` (an index of the
/// location catalog); `confirmed` is `None` until the rumor is resolved.
#[derive(Debug, Clone, Copy, PartialEq, Eq, Structural)]
pub struct Rumor {
    pub drug: usize,
    pub trend: PriceTrend,
    pub location: usize,
    pub confirmed: Option<bool>,
}

/// Today's offer of one good; prices carry four implied decimal digits.
#[derive(Debug, Clone, Copy, PartialEq, Eq, Structural)]
pub struct MarketElement {
    pub supply: usize,
    pub demand: usize,
    pub price: u128,
}

/// Goods a dealer holds, with the unit price paid.
#[derive(Debug, Clone, Copy, PartialEq, Eq, Structural)]
pub struct OwnedElement {
    pub amount: usize,
    pub bought_at: u128,
}

/// Supply and demand are drawn from `0..MARKET_RANGE`.
pub const MARKET_RANGE: usize = 1000000;

/// A good that no modifier targets is left out of the day's market with
/// probability `ABSENT_NUM / ABSENT_DEN`.
pub const ABSENT_NUM: u32 = 4;
pub const ABSENT_DEN: u32 = 5;

/// A drug gets no spontaneous modifier with probability
/// `CALM_NUM / CALM_DEN`.
pub const CALM_NUM: u32 = 23;
pub const CALM_DEN: u32 = 25;

/// A drug gets no rumor with probability `QUIET_NUM / QUIET_DEN`.
pub const QUIET_NUM: u32 = 19;
pub const QUIET_DEN: u32 = 20;

pub const UP_FACTOR: u128 = 15;
pub const DOWN_DIVISOR: u128 = 6;

/// One modifier applied to a price: `Up` multiplies by 15 (saturating at the
/// largest `u128`), `Down` divides by 6, rounding toward zero.
pub open spec fn apply_trend(p: nat, t: PriceTrend) -> nat {
    match t {
        PriceTrend::Up => if p * 15 <= u128::MAX {
            p * 15
        } else {
            u128::MAX as nat
        },
        PriceTrend::Down => p / 6,
    }
}

/// `nominal` after every modifier of `mods` that targets `drug`, in order.
pub open spec fn modded_price(nominal: nat, mods: Seq<PriceMod>, drug: usize) -> nat
    decreases mods.len(),
{
    if mods.len() == 0 {
        nominal
    } else {
        let p = modded_price(nominal, mods.drop_last(), drug);
        if mods.last().drug == drug {
            apply_trend(p, mods.last().trend)
        } else {
            p
        }
    }
}

pub open spec fn is_targeted(mods: Seq<PriceMod>, drug: usize) -> bool {
    exists|i: int| 0 <= i < mods.len() && mods[i].drug == drug
}

/// A day's market entry for a drug: when present, its price is the nominal
/// price under the day's modifiers; it is absent only when no modifier
/// targets the drug.
pub open spec fn drug_entry_ok(
    e: Option<MarketElement>,
    nominal: u128,
    mods: Seq<PriceMod>,
    drug: usize,
) -> bool {
    match e {
        Some(m) => m.price == modded_price(nominal as nat, mods, drug) && m.supply < MARKET_RANGE
            && m.demand < MARKET_RANGE,
        None => !is_targeted(mods, drug),
    }
}

/// A day's market entry for an item: when present, at the nominal price.
pub open spec fn item_entry_ok(e: Option<MarketElement>, nominal: u128) -> bool {
    match e {
        Some(m) => m.price == nominal && m.supply < MARKET_RANGE && m.demand < MARKET_RANGE,
        None => true,
    }
}

/// Modifiers made by `update_price_mods`: spontaneous, for drugs of a catalog
/// of `n` drugs, at most one per drug, in catalog order.
pub open spec fn spontaneous_mods(mods: Seq<PriceMod>, n: nat) -> bool {
    &&& forall|i: int|
        0 <= i < mods.len() ==> mods[i].kind == PriceModKind::Spontaneous && mods[i].drug < n
    &&& forall|i: int, j: int| 0 <= i < j < mods.len() ==> mods[i].drug < mods[j].drug
}

/// Rumors made by `generate_rumors`: unresolved, about drugs of a catalog of
/// `n_drugs` drugs, at most one per drug, in catalog order, each naming one
/// of `n_locations` locations.
pub open spec fn fresh_rumors(rumors: Seq<Rumor>, n_drugs: nat, n_locations: nat) -> bool {
    &&& forall|i: int|
        0 <= i < rumors.len() ==> rumors[i].confirmed is None && rumors[i].drug < n_drugs
            && rumors[i].location < n_locations
    &&& forall|i: int, j: int| 0 <= i < j < rumors.len() ==> rumors[i].drug < rumors[j].drug
}

/// The rumors of `rs` that are not resolved yet, in order.
pub open spec fn unresolved(rs: Seq<Rumor>) -> Seq<Rumor>
    decreases rs.len(),
{
    if rs.len() == 0 {
        rs
    } else {
        let u = unresolved(rs.drop_last());
        if rs.last().confirmed is None {
            u.push(rs.last())
        } else {
            u
        }
    }
}

/// `after` is `before` with every rumor resolved one way or the other.
pub open spec fn resolves(before: Seq<Rumor>, after: Seq<Rumor>) -> bool {
    &&& before.len() == after.len()
    &&& forall|i: int|
        0 <= i < after.len() ==> after[i].confirmed is Some && after[i].drug == before[i].drug
            && after[i].trend == before[i].trend && after[i].location == before[i].location
}

/// The modifiers that the confirmed rumors of `rs` produce, in order.
pub open spec fn confirmed_mods(rs: Seq<Rumor>) -> Seq<PriceMod>
    decreases rs.len(),
{
    if rs.len() == 0 {
        Seq::empty()
    } else {
        let m = confirmed_mods(rs.drop_last());
        if rs.last().confirmed == Some(true) {
            m.push(PriceMod { drug: rs.last().drug, trend: rs.last().trend, kind: PriceModKind::Rumor })
        } else {
            m
        }
    }
}

/// The price of a drug of nominal price `nominal` under the modifiers `mods`.
pub fn price_with_mods(nominal: u128, mods: &Vec<PriceMod>, drug: usize) -> (r: u128)
    ensures
        r == modded_price(nominal as nat, mods@, drug),
{
    let mut price = nominal;
    let mut j: usize = 0;
    while j < mods.len()
        invariant
            j <= mods.len(),
            price == modded_price(nominal as nat, mods@.take(j as int), drug),
        decreases mods.len() - j,
    {
        assert(mods@.take(j + 1).drop_last() == mods@.take(j as int));
        if mods[j].drug == drug {
            match mods[j].trend {
                PriceTrend::Up => {
                    if price <= u128::MAX / UP_FACTOR {
                        price = price * UP_FACTOR;
                    } else {
                        price = u128::MAX;
                    }
                },
                PriceTrend::Down => {
                    price = price / DOWN_DIVISOR;
                },
            }
        }
        j = j + 1;
    }
    assert(mods@.take(mods.len() as int) == mods@);
    price
}

fn has_mod_for(mods: &Vec<PriceMod>, drug: usize) -> (r: bool)
    ensures
        r == is_targeted(mods@, drug),
{
    let mut j: usize = 0;
    while j < mods.len()
        invariant
            j <= mods.len(),
            forall|k: int| 0 <= k < j ==> mods@[k].drug != drug,
        decreases mods.len() - j,
    {
        if mods[j].drug == drug {
            return true;
        }
        j = j + 1;
    }
    false
}

/// Everything that one location holds for the day.
#[derive(Debug, Clone)]
pub struct SingleLocationData {
    /// Indexed by drug; `None` where the drug is not sold today.
    pub drug_market: Vec<Option<MarketElement>>,
    /// Indexed by item; `None` where the item is not sold today.
    pub item_market: Vec<Option<MarketElement>>,
    pub messages: Vec<String>,
    /// Nicks of the dealers present.
    pub people: Vec<String>,
    pub price_mods: Vec<PriceMod>,
    pub rumors: Vec<Rumor>,
}

impl Default for SingleLocationData {
    fn default() -> (r: SingleLocationData)
        ensures
            r.drug_market@.len() == 0,
            r.item_market@.len() == 0,
            r.messages@.len() == 0,
            r.people@.len() == 0,
            r.price_mods@.len() == 0,
            r.rumors@.len() == 0,
    {
        SingleLocationData {
            drug_market: Vec::new(),
            item_market: Vec::new(),
            messages: Vec::new(),
            people: Vec::new(),
            price_mods: Vec::new(),
            rumors: Vec::new(),
        }
    }
}


/// A tradable good: a drug or an item, by its index in its catalog.
#[derive(Debug, Clone, Copy, PartialEq, Eq, Structural)]
pub enum Good {
    Drug(usize),
    Item(usize),
}

impl SingleLocationData {
    /// Today's offer of `good` here; `elem` is the good's catalog entry,
    /// whose name the error carries when the good is not sold today.
    pub fn get_market_element<E: Element>(&self, elem: &E, good: Good) -> (r: Result<
        &MarketElement,
        DrugWarsError,
    >)
        ensures
            ({
                let entry = match good {
                    Good::Drug(i) => if i < self.drug_market@.len() {
                        self.drug_market@[i as int]
                    } else {
                        None
                    },
                    Good::Item(i) => if i < self.item_market@.len() {
                        self.item_market@[i as int]
                    } else {
                        None
                    },
                };
                match r {
                    Ok(e) => entry == Some(*e),
                    Err(e) => entry is None && (e matches DrugWarsError::ElementNotFound(n) && n@
                        == elem.spec_name()),
                }
            }),
    {
        let market = match good {
            Good::Drug(_) => &self.drug_market,
            Good::Item(_) => &self.item_market,
        };
        let index = match good {
            Good::Drug(i) => i,
            Good::Item(i) => i,
        };
        if index < market.len() {
            match &market[index] {
                Some(e) => {
                    return Ok(e);
                },
                None => {},
            }
        }
        Err(DrugWarsError::ElementNotFound(elem.name().to_owned()))
    }

    /// Replaces both markets with today's: each good is drawn in or out,
    /// each present one gets a supply, a demand and its price. A drug that
    /// some modifier targets is always present.
    pub fn update_markets(&mut self, drugs: &Drugs, items: &Items, rng: &mut StdRng)
        ensures
            final(self).drug_market@.len() == drugs.0@.len(),
            forall|i: int|
                0 <= i < drugs.0@.len() ==> drug_entry_ok(
                    #[trigger] final(self).drug_market@[i],
                    drugs.0@[i].nominal_price,
                    old(self).price_mods@,
                    i as usize,
                ),
            final(self).item_market@.len() == items.0@.len(),
            forall|i: int|
                0 <= i < items.0@.len() ==> item_entry_ok(
                    #[trigger] final(self).item_market@[i],
                    items.0@[i].nominal_price,
                ),
            final(self).price_mods == old(self).price_mods,
            final(self).rumors == old(self).rumors,
            final(self).people == old(self).people,
            final(self).messages == old(self).messages,
    {
        let mut drug_market: Vec<Option<MarketElement>> = Vec::new();
        let mut i: usize = 0;
        while i < drugs.0.len()
            invariant
                i <= drugs.0@.len(),
                drug_market@.len() == i,
                forall|k: int|
                    0 <= k < i ==> drug_entry_ok(
                        #[trigger] drug_market@[k],
                        drugs.0@[k].nominal_price,
                        self.price_mods@,
                        k as usize,
                    ),
            decreases drugs.0@.len() - i,
        {
            let absent = gen_ratio(rng, ABSENT_NUM, ABSENT_DEN);
            if absent && !has_mod_for(&self.price_mods, i) {
                drug_market.push(None);
            } else {
                let supply = gen_below(rng, 0, MARKET_RANGE);
                let demand = gen_below(rng, 0, MARKET_RANGE);
                let price = price_with_mods(drugs.0[i].nominal_price, &self.price_mods, i);
                drug_market.push(Some(MarketElement { supply, demand, price }));
            }
            i = i + 1;
        }
        let mut item_market: Vec<Option<MarketElement>> = Vec::new();
        let mut i: usize = 0;
        while i < items.0.len()
            invariant
                i <= items.0@.len(),
                item_market@.len() == i,
                forall|k: int|
                    0 <= k < i ==> item_entry_ok(
                        #[trigger] item_market@[k],
                        items.0@[k].nominal_price,
                    ),
            decreases items.0@.len() - i,
        {
            if gen_ratio(rng, ABSENT_NUM, ABSENT_DEN) {
                item_market.push(None);
            } else {
                let supply = gen_below(rng, 0, MARKET_RANGE);
                let demand = gen_below(rng, 0, MARKET_RANGE);
                item_market.push(Some(MarketElement { supply, demand, price: items.0[i].nominal_price }));
            }
            i = i + 1;
        }
        self.drug_market = drug_market;
        self.item_market = item_market;
    }

    /// Drops every modifier and draws the day's spontaneous ones: each drug
    /// may get one, up or down.
    pub fn update_price_mods(&mut self, drugs: &Drugs, rng: &mut StdRng)
        ensures
            spontaneous_mods(final(self).price_mods@, drugs.0@.len()),
            final(self).drug_market == old(self).drug_market,
            final(self).item_market == old(self).item_market,
            final(self).rumors == old(self).rumors,
            final(self).people == old(self).people,
            final(self).messages == old(self).messages,
    {
        let mut mods: Vec<PriceMod> = Vec::new();
        let mut i: usize = 0;
        while i < drugs.0.len()
            invariant
                i <= drugs.0@.len(),
                spontaneous_mods(mods@, i as nat),
            decreases drugs.0@.len() - i,
        {
            if !gen_ratio(rng, CALM_NUM, CALM_DEN) {
                let trend = if gen_ratio(rng, 1, 2) {
                    PriceTrend::Down
                } else {
                    PriceTrend::Up
                };
                mods.push(PriceMod { drug: i, trend, kind: PriceModKind::Spontaneous });
            }
            i = i + 1;
        }
        self.price_mods = mods;
    }

    /// Resolves each unresolved rumor by a fair coin, in order; a confirmed
    /// rumor adds its modifier. Every rumor is then discarded, resolved or
    /// not, so none is left in the list.
    pub fn confirm_rumors(&mut self, rng: &mut StdRng)
        ensures
            exists|resolved: Seq<Rumor>|
                #[trigger] resolves(unresolved(old(self).rumors@), resolved)
                    && final(self).price_mods@ == old(self).price_mods@ + confirmed_mods(resolved),
            final(self).rumors@.len() == 0,
            final(self).drug_market == old(self).drug_market,
            final(self).item_market == old(self).item_market,
            final(self).people == old(self).people,
            final(self).messages == old(self).messages,
    {
        let ghost before = unresolved(self.rumors@);
        let mut pending: Vec<Rumor> = Vec::new();
        let mut i: usize = 0;
        while i < self.rumors.len()
            invariant
                i <= self.rumors@.len(),
                pending@ == unresolved(self.rumors@.take(i as int)),
            decreases self.rumors@.len() - i,
        {
            assert(self.rumors@.take(i + 1).drop_last() == self.rumors@.take(i as int));
            if self.rumors[i].confirmed.is_none() {
                pending.push(self.rumors[i]);
            }
            i = i + 1;
        }
        assert(self.rumors@.take(self.rumors@.len() as int) == self.rumors@);
        let mut resolved: Vec<Rumor> = Vec::new();
        let mut j: usize = 0;
        while j < pending.len()
            invariant
                pending@ == before,
                j <= pending@.len(),
                resolves(pending@.take(j as int), resolved@),
                self.price_mods@ == old(self).price_mods@ + confirmed_mods(resolved@),
                self.drug_market == old(self).drug_market,
                self.item_market == old(self).item_market,
                self.people == old(self).people,
                self.messages == old(self).messages,
            decreases pending@.len() - j,
        {
            let r = pending[j];
            let ghost prev = resolved@;
            if gen_ratio(rng, 1, 2) {
                resolved.push(Rumor { confirmed: Some(false), ..r });
            } else {
                resolved.push(Rumor { confirmed: Some(true), ..r });
                self.price_mods.push(PriceMod { drug: r.drug, trend: r.trend, kind: PriceModKind::Rumor });
            }
            assert(resolved@.drop_last() == prev);
            assert(old(self).price_mods@ + confirmed_mods(resolved@) =~= self.price_mods@);
            j = j + 1;
        }
        assert(pending@.take(pending@.len() as int) == pending@);
        assert(resolves(before, resolved@));
        self.rumors = Vec::new();
    }

    /// Replaces the rumors with tomorrow's: each drug may get one, up or
    /// down, naming a location drawn from the catalog.
    pub fn generate_rumors(&mut self, drugs: &Drugs, locations: &Locations, rng: &mut StdRng)
        requires
            locations.0@.len() > 0,
        ensures
            fresh_rumors(final(self).rumors@, drugs.0@.len(), locations.0@.len()),
            final(self).price_mods == old(self).price_mods,
            final(self).drug_market == old(self).drug_market,
            final(self).item_market == old(self).item_market,
            final(self).people == old(self).people,
            final(self).messages == old(self).messages,
    {
        let mut rumors: Vec<Rumor> = Vec::new();
        let mut i: usize = 0;
        while i < drugs.0.len()
            invariant
                i <= drugs.0@.len(),
                locations.0@.len() > 0,
                fresh_rumors(rumors@, i as nat, locations.0@.len()),
            decreases drugs.0@.len() - i,
        {
            if !gen_ratio(rng, QUIET_NUM, QUIET_DEN) {
                let trend = if gen_ratio(rng, 1, 2) {
                    PriceTrend::Down
                } else {
                    PriceTrend::Up
                };
                match choose_index(rng, locations.0.len()) {
                    Some(location) => {
                        rumors.push(Rumor { drug: i, trend, location, confirmed: None });
                    },
                    None => {},
                }
            }
            i = i + 1;
        }
        self.rumors = rumors;
    }

    /// One day at this location: fresh spontaneous modifiers, yesterday's
    /// rumors resolved, the market regenerated under the modifiers, and
    /// tomorrow's rumors.
    pub fn run_day(&mut self, game_data: &GameData, rng: &mut StdRng)
        requires
            game_data.locations.0@.len() > 0,
        ensures
            day_outcome(*old(self), *final(self), *game_data),
    {
        let ghost start = *self;
        self.update_price_mods(&game_data.drugs, rng);
        let ghost spont = self.price_mods@;
        self.confirm_rumors(rng);
        let ghost resolved = choose|resolved: Seq<Rumor>|
            #[trigger] resolves(unresolved(start.rumors@), resolved) && self.price_mods@ == spont
                + confirmed_mods(resolved);
        self.update_markets(&game_data.drugs, &game_data.items, rng);
        self.generate_rumors(&game_data.drugs, &game_data.locations, rng);
        assert(spontaneous_mods(spont, game_data.drugs.0@.len()) && resolves(
            unresolved(start.rumors@),
            resolved,
        ) && self.price_mods@ == spont + confirmed_mods(resolved));
    }
}

/// What one day does to a location: the modifiers are fresh spontaneous ones
/// followed by those of yesterday's rumors that were confirmed (every one of
/// them was resolved), the markets follow those modifiers, only tomorrow's
/// fresh rumors remain, and the dealers present are untouched.
pub open spec fn day_outcome(
    before: SingleLocationData,
    after: SingleLocationData,
    game_data: GameData,
) -> bool {
    &&& exists|spont: Seq<PriceMod>, resolved: Seq<Rumor>|
        #[trigger] spontaneous_mods(spont, game_data.drugs.0@.len()) && #[trigger] resolves(
            unresolved(before.rumors@),
            resolved,
        ) && after.price_mods@ == spont + confirmed_mods(resolved)
    &&& after.drug_market@.len() == game_data.drugs.0@.len()
    &&& forall|i: int|
        0 <= i < game_data.drugs.0@.len() ==> drug_entry_ok(
            #[trigger] after.drug_market@[i],
            game_data.drugs.0@[i].nominal_price,
            after.price_mods@,
            i as usize,
        )
    &&& after.item_market@.len() == game_data.items.0@.len()
    &&& forall|i: int|
        0 <= i < game_data.items.0@.len() ==> item_entry_ok(
            #[trigger] after.item_market@[i],
            game_data.items.0@[i].nominal_price,
        )
    &&& fresh_rumors(after.rumors@, game_data.drugs.0@.len(), game_data.locations.0@.len())
    &&& after.people == before.people
    &&& after.messages == before.messages
}

/// The data of every location, indexed like the location catalog.
#[derive(Debug, Clone)]
pub struct LocationData(pub Vec<SingleLocationData>);

impl LocationData {
    /// Runs the day at every location.
    pub fn update(&mut self, game_data: &GameData, rng: &mut StdRng)
        requires
            game_data.locations.0@.len() > 0,
        ensures
            final(self).0@.len() == old(self).0@.len(),
            forall|i: int|
                0 <= i < old(self).0@.len() ==> day_outcome(
                    #[trigger] old(self).0@[i],
                    final(self).0@[i],
                    *game_data,
                ),
    {
        let n = self.0.len();
        let mut i: usize = 0;
        while i < n
            invariant
                n == old(self).0@.len(),
                self.0@.len() == n,
                i <= n,
                game_data.locations.0@.len() > 0,
                forall|k: int|
                    0 <= k < i ==> day_outcome(#[trigger] old(self).0@[k], self.0@[k], *game_data),
                forall|k: int| i <= k < n ==> #[trigger] self.0@[k] == old(self).0@[k],
            decreases n - i,
        {
            self.0[i].run_day(game_data, rng);
            i = i + 1;
        }
    }
}


/// Every modifier of `mods` that targets `drug` goes the same way.
pub open spec fn only_trend(mods: Seq<PriceMod>, drug: usize, t: PriceTrend) -> bool {
    forall|i: int| 0 <= i < mods.len() && mods[i].drug == drug ==> mods[i].trend == t
}

proof fn lemma_up_never_lowers(nominal: nat, mods: Seq<PriceMod>, drug: usize)
    requires
        nominal <= u128::MAX,
        only_trend(mods, drug, PriceTrend::Up),
    ensures
        nominal <= modded_price(nominal, mods, drug) <= u128::MAX,
        is_targeted(mods, drug) && 0 < nominal < u128::MAX ==> modded_price(nominal, mods, drug)
            > nominal,
    decreases mods.len(),
{
    if mods.len() > 0 {
        let rest = mods.drop_last();
        assert(only_trend(rest, drug, PriceTrend::Up));
        lemma_up_never_lowers(nominal, rest, drug);
        if is_targeted(mods, drug) && !is_targeted(rest, drug) {
            assert(mods.last().drug == drug) by {
                let i = choose|i: int| 0 <= i < mods.len() && mods[i].drug == drug;
                if i < mods.len() - 1 {
                    assert(rest[i].drug == drug);
                }
            }
        }
    }
}

proof fn lemma_down_never_raises(nominal: nat, mods: Seq<PriceMod>, drug: usize)
    requires
        only_trend(mods, drug, PriceTrend::Down),
    ensures
        modded_price(nominal, mods, drug) <= nominal,
        is_targeted(mods, drug) && 0 < nominal ==> modded_price(nominal, mods, drug) < nominal,
    decreases mods.len(),
{
    if mods.len() > 0 {
        let rest = mods.drop_last();
        assert(only_trend(rest, drug, PriceTrend::Down));
        lemma_down_never_raises(nominal, rest, drug);
        if is_targeted(mods, drug) && !is_targeted(rest, drug) {
            assert(mods.last().drug == drug) by {
                let i = choose|i: int| 0 <= i < mods.len() && mods[i].drug == drug;
                if i < mods.len() - 1 {
                    assert(rest[i].drug == drug);
                }
            }
        }
    }
}

/// A drug that a day's modifiers only push up is on that day's market above
/// its nominal price (for a nominal price above zero and below the largest
/// `u128`, where the price saturates).
pub proof fn lemma_up_raises_price(
    before: SingleLocationData,
    after: SingleLocationData,
    game_data: GameData,
    drug: usize,
)
    requires
        day_outcome(before, after, game_data),
        drug < game_data.drugs.0@.len(),
        is_targeted(after.price_mods@, drug),
        only_trend(after.price_mods@, drug, PriceTrend::Up),
        0 < game_data.drugs.0@[drug as int].nominal_price < u128::MAX,
    ensures
        after.drug_market@[drug as int] matches Some(e) && e.price
            > game_data.drugs.0@[drug as int].nominal_price,
{
    let nominal = game_data.drugs.0@[drug as int].nominal_price;
    assert(drug_entry_ok(after.drug_market@[drug as int], nominal, after.price_mods@, drug));
    lemma_up_never_lowers(nominal as nat, after.price_mods@, drug);
}

/// A drug that a day's modifiers only push down is on that day's market
/// below its nominal price (for a nominal price above zero); repeated falls
/// may bring it to zero.
pub proof fn lemma_down_lowers_price(
    before: SingleLocationData,
    after: SingleLocationData,
    game_data: GameData,
    drug: usize,
)
    requires
        day_outcome(before, after, game_data),
        drug < game_data.drugs.0@.len(),
        is_targeted(after.price_mods@, drug),
        only_trend(after.price_mods@, drug, PriceTrend::Down),
        0 < game_data.drugs.0@[drug as int].nominal_price,
    ensures
        after.drug_market@[drug as int] matches Some(e) && e.price
            < game_data.drugs.0@[drug as int].nominal_price,
{
    let nominal = game_data.drugs.0@[drug as int].nominal_price;
    assert(drug_entry_ok(after.drug_market@[drug as int], nominal, after.price_mods@, drug));
    lemma_down_never_raises(nominal as nat, after.price_mods@, drug);
}

proof fn lemma_unresolved_of_fresh(rs: Seq<Rumor>)
    requires
        forall|i: int| 0 <= i < rs.len() ==> rs[i].confirmed is None,
    ensures
        unresolved(rs) == rs,
    decreases rs.len(),
{
    if rs.len() > 0 {
        lemma_unresolved_of_fresh(rs.drop_last());
        assert(rs.drop_last().push(rs.last()) == rs);
    }
}

/// A rumor made on one day is resolved by the next day's run: every rumor
/// left after day one is settled (confirmed or denied) on day two, the
/// confirmed ones become day two's rumor modifiers, and none of them stays in
/// the rumor list, which holds only day two's unresolved rumors.
pub proof fn lemma_rumor_lifecycle(
    day_zero: SingleLocationData,
    day_one: SingleLocationData,
    day_two: SingleLocationData,
    game_data: GameData,
)
    requires
        day_outcome(day_zero, day_one, game_data),
        day_outcome(day_one, day_two, game_data),
    ensures
        forall|i: int| 0 <= i < day_two.rumors@.len() ==> day_two.rumors@[i].confirmed is None,
        exists|resolved: Seq<Rumor>|
            #[trigger] resolves(day_one.rumors@, resolved) && confirmed_mods(
                resolved,
            ).is_suffix_of(day_two.price_mods@),
{
    lemma_unresolved_of_fresh(day_one.rumors@);
    let (spont, resolved) = choose|spont: Seq<PriceMod>, resolved: Seq<Rumor>|
        #[trigger] spontaneous_mods(spont, game_data.drugs.0@.len()) && #[trigger] resolves(
            unresolved(day_one.rumors@),
            resolved,
        ) && day_two.price_mods@ == spont + confirmed_mods(resolved);
    let c = confirmed_mods(resolved);
    assert(c =~= day_two.price_mods@.subrange(
        day_two.price_mods@.len() - c.len(),
        day_two.price_mods@.len() as int,
    ));
    assert(resolves(day_one.rumors@, resolved) && c.is_suffix_of(day_two.price_mods@));
}


proof fn lemma_untargeted_price(nominal: nat, mods: Seq<PriceMod>, drug: usize)
    requires
        !is_targeted(mods, drug),
    ensures
        modded_price(nominal, mods, drug) == nominal,
    decreases mods.len(),
{
    if mods.len() > 0 {
        let rest = mods.drop_last();
        assert(!is_targeted(rest, drug)) by {
            if is_targeted(rest, drug) {
                let i = choose|i: int| 0 <= i < rest.len() && rest[i].drug == drug;
                assert(mods[i].drug == drug);
            }
        }
        assert(mods.last().drug != drug);
        lemma_untargeted_price(nominal, rest, drug);
    }
}

/// Under exactly one modifier for `drug`, at index `i`, the price is the
/// nominal price with that one trend applied.
pub proof fn lemma_single_mod_price(nominal: nat, mods: Seq<PriceMod>, drug: usize, i: int)
    requires
        0 <= i < mods.len(),
        mods[i].drug == drug,
        forall|j: int| 0 <= j < mods.len() && j != i ==> mods[j].drug != drug,
    ensures
        modded_price(nominal, mods, drug) == apply_trend(nominal, mods[i].trend),
    decreases mods.len(),
{
    let rest = mods.drop_last();
    if i == mods.len() - 1 {
        assert(!is_targeted(rest, drug)) by {
            if is_targeted(rest, drug) {
                let j = choose|j: int| 0 <= j < rest.len() && rest[j].drug == drug;
                assert(mods[j].drug == drug);
            }
        }
        lemma_untargeted_price(nominal, rest, drug);
    } else {
        lemma_single_mod_price(nominal, rest, drug, i);
        assert(mods.last().drug != drug);
    }
}

/// A drug with a single Up modifier sells at exactly fifteen times its
/// nominal price, when that product fits in a `u128`.
pub proof fn lemma_single_up_price(
    before: SingleLocationData,
    after: SingleLocationData,
    game_data: GameData,
    drug: usize,
    i: int,
)
    requires
        day_outcome(before, after, game_data),
        drug < game_data.drugs.0@.len(),
        0 <= i < after.price_mods@.len(),
        after.price_mods@[i].drug == drug,
        after.price_mods@[i].trend == PriceTrend::Up,
        forall|j: int| 0 <= j < after.price_mods@.len() && j != i ==> after.price_mods@[j].drug != drug,
        game_data.drugs.0@[drug as int].nominal_price * 15 <= u128::MAX,
    ensures
        after.drug_market@[drug as int] matches Some(e) && e.price
            == game_data.drugs.0@[drug as int].nominal_price * 15,
{
    let nominal = game_data.drugs.0@[drug as int].nominal_price;
    assert(drug_entry_ok(after.drug_market@[drug as int], nominal, after.price_mods@, drug));
    assert(is_targeted(after.price_mods@, drug));
    lemma_single_mod_price(nominal as nat, after.price_mods@, drug, i);
}

/// Prices are never negative: every entry of a location's markets after a
/// day has a price of at least zero.
pub proof fn lemma_prices_not_negative(
    before: SingleLocationData,
    after: SingleLocationData,
    game_data: GameData,
)
    requires
        day_outcome(before, after, game_data),
    ensures
        forall|i: int|
            0 <= i < after.drug_market@.len() ==> (#[trigger] after.drug_market@[i] matches Some(
                e,
            ) ==> e.price >= 0),
        forall|i: int|
            0 <= i < after.item_market@.len() ==> (#[trigger] after.item_market@[i] matches Some(
                e,
            ) ==> e.price >= 0),
{
}

} // verus!
