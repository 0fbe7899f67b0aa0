//! The immutable catalogs of the game world: drugs, items and locations,
//! and the lookup of an entry by a fragment of its name.
use crate::error::DrugWarsError;
use vstd::prelude::*;
use vstd::string::*;

verus! {

/// A point on the globe, in millionths of a degree.
#[derive(Debug, Clone, Copy, PartialEq, Eq)]
pub struct Position {
    pub lat: i32,
    pub long: i32,
}

#[derive(Debug, Clone)]
pub struct Location {
    pub name: String,
    pub position: Position,
}

/// A drug; prices carry four implied decimal digits.
#[derive(Debug, Clone)]
pub struct Drug {
    pub name: String,
    pub nominal_price: u128,
}

#[derive(Debug, Clone)]
pub struct Item {
    pub name: String,
    pub nominal_price: u128,
    pub kind: ItemKind,
}

#[derive(Debug, Clone)]
pub enum ItemKind {
    Weapon(Weapon),
    Ammo,
    Armor(Armor),
}

/// Damage absorbed, in hundredths of a health point.
#[derive(Debug, Clone, Copy, PartialEq, Eq)]
pub struct Armor {
    pub block: u32,
}

/// Damage dealt, in hundredths of a health point; `ammo` names the item
/// the weapon fires, if any.
#[derive(Debug, Clone)]
pub struct Weapon {
    pub ammo: Option<String>,
    pub damage: u32,
}

/// A catalog entry, known by its name.
pub trait Element {
    spec fn spec_name(&self) -> Seq<char>;

    fn name(&self) -> (r: &str)
        ensures
            r@ == self.spec_name(),
    ;
}

impl Element for Drug {
    open spec fn spec_name(&self) -> Seq<char> {
        self.name@
    }

    fn name(&self) -> (r: &str) {
        self.name.as_str()
    }
}

impl Element for Item {
    open spec fn spec_name(&self) -> Seq<char> {
        self.name@
    }

    fn name(&self) -> (r: &str) {
        self.name.as_str()
    }
}

impl Element for Location {
    open spec fn spec_name(&self) -> Seq<char> {
        self.name@
    }

    fn name(&self) -> (r: &str) {
        self.name.as_str()
    }
}

/// A shared catalog entry, known by the name of the entry it points to.
pub trait ArcElement {
    spec fn spec_name(&self) -> Seq<char>;

    fn name(&self) -> (r: &str)
        ensures
            r@ == self.spec_name(),
    ;
}

impl<E: Element> ArcElement for std::sync::Arc<E> {
    open spec fn spec_name(&self) -> Seq<char> {
        (**self).spec_name()
    }

    fn name(&self) -> (r: &str) {
        (**self).name()
    }
}

/// What `str::to_lowercase` makes of a string.
pub uninterp spec fn lower_of(s: Seq<char>) -> Seq<char>;

/// Relies on `str::to_lowercase`: the result depends on the characters alone.
#[verifier::external_body]
fn lowercase(s: &str) -> (r: String)
    ensures
        r@ == lower_of(s@),
{
    s.to_lowercase()
}

/// `s` with every space taken out.
pub open spec fn without_spaces(s: Seq<char>) -> Seq<char>
    decreases s.len(),
{
    if s.len() == 0 {
        s
    } else {
        let rest = without_spaces(s.drop_last());
        if s.last() == ' ' {
            rest
        } else {
            rest.push(s.last())
        }
    }
}

/// A (lower-cased) query selects a (lower-cased) name when it begins the name
/// once the name's spaces are taken out.
pub open spec fn name_matches(query: Seq<char>, name: Seq<char>) -> bool {
    query.is_prefix_of(without_spaces(name))
}

pub open spec fn match_count(query: Seq<char>, names: Seq<Seq<char>>) -> nat
    decreases names.len(),
{
    if names.len() == 0 {
        0
    } else {
        match_count(query, names.drop_last()) + if name_matches(query, names.last()) {
            1nat
        } else {
            0nat
        }
    }
}

/// The outcome of a lookup: the one index whose name the query selects, or
/// `ElementNotFound` when none is selected, or `ElementAmbiguous` when several
/// are; both errors carry the query.
pub open spec fn match_outcome(
    query: Seq<char>,
    names: Seq<Seq<char>>,
    r: Result<usize, DrugWarsError>,
) -> bool {
    match r {
        Ok(i) => match_count(query, names) == 1 && i < names.len() && name_matches(
            query,
            names[i as int],
        ),
        Err(DrugWarsError::ElementNotFound(s)) => match_count(query, names) == 0 && s@ == query,
        Err(DrugWarsError::ElementAmbiguous(s)) => match_count(query, names) > 1 && s@ == query,
        Err(_) => false,
    }
}

pub open spec fn string_views(v: Seq<String>) -> Seq<Seq<char>> {
    v.map_values(|s: String| s@)
}

fn chars_without_spaces(s: &str) -> (r: Vec<char>)
    ensures
        r@ == without_spaces(s@),
{
    let n = s.unicode_len();
    let mut out: Vec<char> = Vec::new();
    let mut i: usize = 0;
    while i < n
        invariant
            n == s@.len(),
            i <= n,
            out@ == without_spaces(s@.take(i as int)),
        decreases n - i,
    {
        let c = s.get_char(i);
        if c != ' ' {
            out.push(c);
        }
        assert(s@.take(i + 1).drop_last() == s@.take(i as int));
        i = i + 1;
    }
    assert(s@.take(n as int) == s@);
    out
}

pub(crate) fn chars_of(s: &str) -> (r: Vec<char>)
    ensures
        r@ == s@,
{
    let n = s.unicode_len();
    let mut out: Vec<char> = Vec::new();
    let mut i: usize = 0;
    while i < n
        invariant
            n == s@.len(),
            i <= n,
            out@ == s@.take(i as int),
        decreases n - i,
    {
        out.push(s.get_char(i));
        assert(out@ == s@.take(i + 1));
        i = i + 1;
    }
    assert(s@.take(n as int) == s@);
    out
}

fn starts_with(t: &Vec<char>, q: &Vec<char>) -> (r: bool)
    ensures
        r == q@.is_prefix_of(t@),
{
    if q.len() > t.len() {
        return false;
    }
    let mut j: usize = 0;
    while j < q.len()
        invariant
            q.len() <= t.len(),
            j <= q.len(),
            forall|k: int| 0 <= k < j ==> q@[k] == t@[k],
        decreases q.len() - j,
    {
        if q[j] != t[j] {
            return false;
        }
        j = j + 1;
    }
    assert(q@ =~= t@.subrange(0, q@.len() as int));
    true
}

/// Picks, among names already lower-cased, the one that `query` (lower-cased
/// too) selects.
pub fn select_match(query: &str, lowered_names: &Vec<String>) -> (r: Result<usize, DrugWarsError>)
    ensures
        match_outcome(query@, string_views(lowered_names@), r),
{
    let ghost names = string_views(lowered_names@);
    let q = chars_of(query);
    let mut count: usize = 0;
    let mut found: usize = 0;
    let mut i: usize = 0;
    while i < lowered_names.len()
        invariant
            q@ == query@,
            names == string_views(lowered_names@),
            i <= lowered_names.len(),
            count <= i,
            count == match_count(query@, names.take(i as int)),
            count > 0 ==> found < i && name_matches(query@, names[found as int]),
        decreases lowered_names.len() - i,
    {
        let stripped = chars_without_spaces(lowered_names[i].as_str());
        let m = starts_with(&stripped, &q);
        assert(names.take(i + 1).drop_last() == names.take(i as int));
        if m {
            if count == 0 {
                found = i;
            }
            count = count + 1;
        }
        i = i + 1;
    }
    assert(names.take(lowered_names.len() as int) == names);
    if count == 0 {
        Err(DrugWarsError::ElementNotFound(query.to_owned()))
    } else if count > 1 {
        Err(DrugWarsError::ElementAmbiguous(query.to_owned()))
    } else {
        Ok(found)
    }
}

/// Lookup of a catalog entry by a case-insensitive fragment of its name.
pub trait Matching {
    type Elem: Element;

    spec fn spec_elems(&self) -> Seq<Self::Elem>;

    fn elems(&self) -> (r: &Vec<Self::Elem>)
        ensures
            r@ == self.spec_elems(),
    ;

    /// The entry whose name, lower-cased and without spaces, begins with
    /// `val` lower-cased.
    fn get_matching(&self, val: &str) -> (r: Result<&Self::Elem, DrugWarsError>)
        ensures
            match r {
                Ok(e) => exists|i: usize|
                    i < self.spec_elems().len() && *e == self.spec_elems()[i as int]
                        && #[trigger] match_outcome(
                        lower_of(val@),
                        lowered_names::<Self::Elem>(self.spec_elems()),
                        Ok(i),
                    ),
                Err(e) => match_outcome(
                    lower_of(val@),
                    lowered_names::<Self::Elem>(self.spec_elems()),
                    Err(e),
                ),
            },
    {
        let elems = self.elems();
        let mut names: Vec<String> = Vec::new();
        let mut i: usize = 0;
        while i < elems.len()
            invariant
                elems@ == self.spec_elems(),
                i <= elems.len(),
                names@.len() == i,
                string_views(names@) == lowered_names::<Self::Elem>(elems@.take(i as int)),
            decreases elems.len() - i,
        {
            let ghost prev = names@;
            let lw = lowercase(elems[i].name());
            assert(lw@ == lower_of(elems@[i as int].spec_name()));
            names.push(lw);
            assert forall|k: int| 0 <= k < i + 1 implies string_views(names@)[k]
                == lowered_names::<Self::Elem>(elems@.take(i + 1))[k] by {
                if k < i {
                    assert(string_views(prev)[k] == lowered_names::<Self::Elem>(
                        elems@.take(i as int),
                    )[k]);
                }
            }
            assert(string_views(names@) =~= lowered_names::<Self::Elem>(elems@.take(i + 1)));
            i = i + 1;
        }
        assert(elems@.take(elems.len() as int) == elems@);
        match select_match(lowercase(val).as_str(), &names) {
            Ok(k) => Ok(&elems[k]),
            Err(e) => Err(e),
        }
    }
}

/// The names of `elems`, lower-cased.
pub open spec fn lowered_names<E: Element>(elems: Seq<E>) -> Seq<Seq<char>> {
    elems.map_values(|e: E| lower_of(e.spec_name()))
}

#[derive(Debug, Clone)]
pub struct Drugs(pub Vec<Drug>);

#[derive(Debug, Clone)]
pub struct Items(pub Vec<Item>);

#[derive(Debug, Clone)]
pub struct Locations(pub Vec<Location>);

impl Matching for Drugs {
    type Elem = Drug;

    open spec fn spec_elems(&self) -> Seq<Drug> {
        self.0@
    }

    fn elems(&self) -> (r: &Vec<Drug>) {
        &self.0
    }
}

impl Matching for Items {
    type Elem = Item;

    open spec fn spec_elems(&self) -> Seq<Item> {
        self.0@
    }

    fn elems(&self) -> (r: &Vec<Item>) {
        &self.0
    }
}

impl Matching for Locations {
    type Elem = Location;

    open spec fn spec_elems(&self) -> Seq<Location> {
        self.0@
    }

    fn elems(&self) -> (r: &Vec<Location>) {
        &self.0
    }
}

/// Message templates by category (`price_up`, `price_down_end`, ...); each
/// template holds a `%DRUG` placeholder.
#[derive(Debug, Clone)]
pub struct Messages(pub std::collections::HashMap<String, Vec<String>>);

/// The immutable catalogs, built once at startup.
#[derive(Debug, Clone)]
pub struct GameData {
    pub drugs: Drugs,
    pub items: Items,
    pub locations: Locations,
}

} // verus!
