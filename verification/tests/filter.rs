use rick_morty_back::graphql::character_model::Character;
use rick_morty_back::graphql::filter::{
    contains_id, contains_text, filter_characters, CharacterFilter, FilterCharacterExpr,
};
use rick_morty_back::graphql::Query;

fn character(
    id: i32,
    name: &str,
    status: &str,
    species: &str,
    gender: &str,
    origin_id: Option<i32>,
    location_id: Option<i32>,
) -> Character {
    Character {
        id,
        name: name.to_string(),
        status: status.to_string(),
        species: species.to_string(),
        gender: gender.to_string(),
        type_: None,
        origin_id,
        location_id,
    }
}

fn fixture() -> Vec<Character> {
    vec![
        character(1, "Rick Sanchez", "Alive", "Human", "Male", Some(1), Some(20)),
        character(2, "Morty Smith", "Alive", "Human", "Male", Some(1), Some(20)),
        character(3, "Birdperson", "Dead", "Alien", "Male", Some(15), Some(15)),
        character(4, "Unity", "unknown", "Alien", "Female", None, Some(28)),
        character(5, "Squanchy", "Alive", "Alien", "Male", None, None),
        character(6, "Beth Smith", "Dead", "Human", "Female", Some(20), Some(20)),
    ]
}

fn no_criteria() -> CharacterFilter {
    CharacterFilter {
        search_text: None,
        status: None,
        species: None,
        gender: None,
        origin_id: None,
        location_id: None,
    }
}

fn texts(values: &[&str]) -> Option<Vec<String>> {
    Some(values.iter().map(|v| v.to_string()).collect())
}

fn accepted(filter: &CharacterFilter) -> Vec<i32> {
    let predicate = filter_characters(filter);
    fixture().iter().filter(|row| predicate.accepts(row)).map(|row| row.id).collect()
}

#[test]
fn no_criteria_compile_to_always_true() {
    let filter = no_criteria();
    assert!(matches!(filter_characters(&filter), FilterCharacterExpr::AlwaysTrue));
    assert_eq!(accepted(&filter), vec![1, 2, 3, 4, 5, 6]);
}

#[test]
fn status_alive_admits_only_the_living() {
    let mut filter = no_criteria();
    filter.status = texts(&["Alive"]);
    assert_eq!(accepted(&filter), vec![1, 2, 5]);
}

#[test]
fn a_criterion_admits_any_listed_value() {
    let mut filter = no_criteria();
    filter.status = texts(&["Dead", "unknown"]);
    assert_eq!(accepted(&filter), vec![3, 4, 6]);
}

#[test]
fn two_criteria_admit_rows_that_meet_both() {
    let mut filter = no_criteria();
    filter.status = texts(&["Alive"]);
    filter.species = texts(&["Alien"]);
    assert_eq!(accepted(&filter), vec![5]);
    let mut other = no_criteria();
    other.species = texts(&["Human"]);
    other.gender = texts(&["Female"]);
    assert_eq!(accepted(&other), vec![6]);
}

#[test]
fn all_five_criteria_together() {
    let filter = CharacterFilter {
        search_text: None,
        status: texts(&["Alive", "Dead"]),
        species: texts(&["Human"]),
        gender: texts(&["Male", "Female"]),
        origin_id: Some(vec![1, 20]),
        location_id: Some(vec![20]),
    };
    assert_eq!(accepted(&filter), vec![1, 2, 6]);
}

#[test]
fn reference_criteria_leave_out_rows_without_reference() {
    let mut filter = no_criteria();
    filter.origin_id = Some(vec![1, 15]);
    assert_eq!(accepted(&filter), vec![1, 2, 3]);
    let mut by_location = no_criteria();
    by_location.location_id = Some(vec![28, 15]);
    assert_eq!(accepted(&by_location), vec![3, 4]);
}

#[test]
fn a_present_but_empty_list_admits_nothing() {
    let mut filter = no_criteria();
    filter.gender = Some(vec![]);
    assert_eq!(accepted(&filter), Vec::<i32>::new());
}

#[test]
fn text_comparison_is_exact() {
    let mut filter = no_criteria();
    filter.status = texts(&["alive"]);
    assert_eq!(accepted(&filter), Vec::<i32>::new());
}

#[test]
fn compiled_predicate_nests_to_the_left_in_field_order() {
    let mut filter = no_criteria();
    filter.species = texts(&["Alien"]);
    filter.location_id = Some(vec![15]);
    match filter_characters(&filter) {
        FilterCharacterExpr::And(left, right) => {
            assert!(matches!(*right, FilterCharacterExpr::LocationIn(_)));
            match *left {
                FilterCharacterExpr::And(first, second) => {
                    assert!(matches!(*first, FilterCharacterExpr::AlwaysTrue));
                    assert!(matches!(*second, FilterCharacterExpr::SpeciesIn(_)));
                }
                _ => panic!("species criterion missing"),
            }
        }
        _ => panic!("conjunction expected"),
    }
}

#[test]
fn membership_helpers() {
    let values = vec!["a".to_string(), "b".to_string()];
    assert!(contains_text(&values, &"b".to_string()));
    assert!(!contains_text(&values, &"c".to_string()));
    assert!(!contains_text(&vec![], &"a".to_string()));
    assert!(contains_id(&vec![3, 4], &Some(4)));
    assert!(!contains_id(&vec![3, 4], &Some(5)));
    assert!(!contains_id(&vec![3, 4], &None));
}

#[test]
fn search_text_is_carried_as_it_is() {
    let mut filter = no_criteria();
    filter.search_text = Some("rick".to_string());
    filter.status = texts(&["Alive"]);
    let query = Query::characters_filtered(10, 20, &filter);
    assert_eq!(query.limit, 10);
    assert_eq!(query.offset, 20);
    assert_eq!(query.search_text, Some("rick".to_string()));
    assert!(matches!(query.predicate, FilterCharacterExpr::And(_, _)));
}

#[test]
fn search_text_with_quotes_stays_one_text() {
    for text in ["'", "') or ('a' = 'a", "x'; delete from character; --", "\"quoted\"", " ", "''"] {
        let mut filter = no_criteria();
        filter.search_text = Some(text.to_string());
        let query = Query::characters_filtered(5, 0, &filter);
        assert_eq!(query.search_text, Some(text.to_string()));
        assert!(matches!(query.predicate, FilterCharacterExpr::AlwaysTrue));
        assert_eq!(query.limit, 5);
        assert_eq!(query.offset, 0);
    }
}

#[test]
fn empty_search_text_is_no_search() {
    let mut with_empty = no_criteria();
    with_empty.search_text = Some(String::new());
    with_empty.species = texts(&["Human"]);
    let mut without = no_criteria();
    without.species = texts(&["Human"]);
    let a = Query::characters_filtered(5, 0, &with_empty);
    let b = Query::characters_filtered(5, 0, &without);
    assert_eq!(a.search_text, None);
    assert_eq!(b.search_text, None);
    assert_eq!(a.limit, b.limit);
    assert_eq!(a.offset, b.offset);
    let rows = fixture();
    for row in rows.iter() {
        assert_eq!(a.predicate.accepts(row), b.predicate.accepts(row));
    }
}

#[test]
fn filtered_query_keeps_the_callers_window() {
    let filter = no_criteria();
    let query = Query::characters_filtered(-1, i32::MAX, &filter);
    assert_eq!(query.limit, -1);
    assert_eq!(query.offset, i32::MAX as i64);
    assert_eq!(query.search_text, None);
    assert!(matches!(query.predicate, FilterCharacterExpr::AlwaysTrue));
}
