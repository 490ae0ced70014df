//! Placing nodes and naming countries.
use valira_desktop::geo::{english_name, fold, fold_lower, locate, resolve_code, Place};
use valira_desktop::places::{CITIES, COUNTRY_NAMES};
use valira_desktop::order::{no_later, sorted, Rank};

#[test]
fn city_beats_country() {
    let paris = locate("fr", "Paris").unwrap();
    let france = locate("fr", "Nowhere").unwrap();
    assert!(paris != france);
}

#[test]
fn folds_accents_and_case() {
    // Spellings the service actually sends: São Paulo, Hénin-Beaumont,
    // Rajbāri. The table is written unaccented and has to match anyway.
    assert!(locate("BR", "São Paulo").is_some());
    assert_eq!(locate("ca", "montreal"), locate("CA", "Montréal"));
    // Accented capitals too.
    assert_eq!(locate("ca", "MONTRÉAL"), locate("ca", "montreal"));
    assert_eq!(fold("SÃO PAULO"), "sao paulo");
}

#[test]
fn unknown_country_is_not_placed() {
    assert!(locate("zz", "Atlantis").is_none());
}

#[test]
fn a_code_wins_and_a_name_covers_for_it() {
    // The usual case: the service sends the code, in upper case.
    assert_eq!(resolve_code("FR", "France").as_deref(), Some("fr"));
    // And the records where it leaves the code empty.
    assert_eq!(resolve_code("", "France").as_deref(), Some("fr"));
    assert_eq!(resolve_code("   ", "Japan").as_deref(), Some("jp"));
}

#[test]
fn resolves_the_spellings_this_service_uses() {
    for (name, code) in [
        ("United States", "us"),
        ("Turkey", "tr"),
        ("Czechia", "cz"),
        ("The Netherlands", "nl"),
        ("Brunei", "bn"),
        ("Congo (DRC)", "cd"),
    ] {
        assert_eq!(resolve_code("", name).as_deref(), Some(code), "{name}");
    }
}

#[test]
fn refuses_what_it_cannot_place() {
    assert_eq!(resolve_code("", "Atlantis"), None);
    assert_eq!(resolve_code("", ""), None);
    // Three letters is not alpha-2, and must not be taken for it.
    assert_eq!(resolve_code("FRA", "Atlantis"), None);
}

#[test]
fn names_a_country_from_the_flag_set() {
    assert_eq!(english_name("de"), Some("Germany"));
    assert_eq!(english_name("af"), Some("Afghanistan"));
    assert_eq!(english_name("zz"), None);
}

#[test]
fn folding_sorts_accented_names_where_a_reader_looks() {
    // The service spells some countries with accents, and byte order buries
    // every one of them past Z.
    let mut names = ["Sweden", "Åland Islands", "Switzerland", "Canada"];
    names.sort_by_key(|name| fold(name));
    assert_eq!(
        names,
        ["Åland Islands", "Canada", "Sweden", "Switzerland"]
    );

    let mut raw = ["Sweden", "Åland Islands", "Canada"];
    raw.sort();
    assert_eq!(raw.last(), Some(&"Åland Islands"));
}

#[test]
fn a_city_is_placed_where_the_table_puts_it() {
    assert_eq!(locate(" FR ", "Paris "), Some(Place { lat: 4886, lon: 235 }));
}

#[test]
fn a_code_wins_over_a_name_that_disagrees() {
    assert_eq!(resolve_code(" De ", "France").as_deref(), Some("de"));
}

fn rank(late: bool, name: &str, tie: &str) -> Rank {
    Rank { late, name: name.to_string(), tie: tie.to_string() }
}

#[test]
fn rows_are_ordered_and_equals_keep_their_place() {
    let keys = vec![
        rank(true, "a", "a"),
        rank(false, "b", "z"),
        rank(false, "b", "a"),
        rank(false, "a", "m"),
        rank(false, "a", "m"),
    ];
    assert_eq!(sorted(&keys), vec![3, 4, 2, 1, 0]);
    assert!(no_later("abc", "abd"));
    assert!(no_later("ab", "abc"));
    assert!(!no_later("b", "abc"));
    assert!(no_later("z", "é"));
}

#[test]
fn folding_touches_nothing_but_accents() {
    assert_eq!(fold_lower("são tomé & príncipe 7"), "sao tome & principe 7");
    assert_eq!(fold_lower("ĀŁ"), "ĀŁ");
    assert_eq!(fold_lower(""), "");
    assert_eq!(fold("  Île-de-France\n"), fold("Île-de-France"));
    assert_eq!(fold(" New YORK "), "new york");
    assert!(fold("ÀÉÎÕÜÇÑŸ Z").chars().all(|c| !c.is_ascii_uppercase()));
}

#[test]
fn placing_depends_on_the_country_alone() {
    for (country, city, _, _) in CITIES {
        assert!(locate(country, city).is_some());
        assert!(locate(country, "nowhere at all").is_some(), "{country}");
    }
    assert!(locate("zz", "paris").is_none());
}

#[test]
fn a_name_is_found_again() {
    for line in COUNTRY_NAMES.lines() {
        let (code, _) = line.split_once('\t').expect("a code and a name");
        let name = english_name(code).expect("a name");
        assert!(resolve_code("", name).is_some(), "{name}");
    }
    assert_eq!(resolve_code("", english_name("FR").unwrap()).as_deref(), Some("fr"));
    // A code that is none counts for nothing.
    assert_eq!(resolve_code("fra", "France").as_deref(), Some("fr"));
    assert_eq!(resolve_code("é", "France"), resolve_code("", "France"));
    assert_eq!(resolve_code("Q9", "nowhere"), None);
    assert_eq!(resolve_code(" QX ", "France").as_deref(), Some("qx"));
}
