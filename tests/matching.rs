use drugwars::catalog::{
    select_match, Drug, Drugs, Element, Location, Locations, Matching, Position,
};
use drugwars::error::DrugWarsError;

fn drug(name: &str, price: u128) -> Drug {
    Drug { name: name.to_owned(), nominal_price: price }
}

fn location(name: &str) -> Location {
    Location { name: name.to_owned(), position: Position { lat: 0, long: 0 } }
}

#[test]
fn get_matching_finds_the_only_candidate() {
    let drugs = Drugs(vec![drug("Heroin", 10), drug("Cocaine", 20), drug("Weed", 5)]);
    let found = drugs.get_matching("coc").unwrap();
    assert_eq!(found.name(), "Cocaine");
}

#[test]
fn get_matching_reports_ambiguity() {
    let drugs = Drugs(vec![drug("Cocaine", 20), drug("Cocainelite", 30)]);
    match drugs.get_matching("coc") {
        Err(DrugWarsError::ElementAmbiguous(q)) => assert_eq!(q, "coc"),
        other => panic!("unexpected {:?}", other.map(|d| d.name.clone())),
    }
}

#[test]
fn get_matching_full_name_that_prefixes_another_is_ambiguous() {
    let drugs = Drugs(vec![drug("Cocaine", 20), drug("Cocainelite", 30)]);
    assert!(matches!(drugs.get_matching("cocaine"), Err(DrugWarsError::ElementAmbiguous(_))));
}

#[test]
fn get_matching_reports_absence() {
    let drugs = Drugs(vec![drug("Heroin", 10), drug("Weed", 5)]);
    match drugs.get_matching("coc") {
        Err(DrugWarsError::ElementNotFound(q)) => assert_eq!(q, "coc"),
        other => panic!("unexpected {:?}", other.map(|d| d.name.clone())),
    }
}

#[test]
fn get_matching_ignores_case() {
    let drugs = Drugs(vec![drug("Heroin", 10), drug("Cocaine", 20)]);
    assert_eq!(drugs.get_matching("COC").unwrap().name(), "Cocaine");
    assert_eq!(drugs.get_matching("hEr").unwrap().name(), "Heroin");
}

#[test]
fn get_matching_error_carries_lowercased_query() {
    let drugs = Drugs(vec![drug("Heroin", 10)]);
    assert_eq!(
        drugs.get_matching("XYZ").err(),
        Some(DrugWarsError::ElementNotFound("xyz".to_owned()))
    );
}

#[test]
fn get_matching_ignores_spaces_in_names() {
    let locations = Locations(vec![location("New York"), location("Paris")]);
    assert_eq!(locations.get_matching("newy").unwrap().name(), "New York");
    assert_eq!(locations.get_matching("new").unwrap().name(), "New York");
}

#[test]
fn get_matching_on_empty_catalog_is_not_found() {
    let drugs = Drugs(vec![]);
    assert!(matches!(drugs.get_matching("a"), Err(DrugWarsError::ElementNotFound(_))));
}

#[test]
fn select_match_on_lowered_names() {
    let names = vec!["cocaine".to_owned(), "heroin".to_owned(), "new york".to_owned()];
    assert_eq!(select_match("her", &names), Ok(1));
    assert_eq!(select_match("newyo", &names), Ok(2));
    assert_eq!(select_match("", &names), Err(DrugWarsError::ElementAmbiguous(String::new())));
    assert_eq!(select_match("x", &names), Err(DrugWarsError::ElementNotFound("x".to_owned())));
}
