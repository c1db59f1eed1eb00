use rick_morty_back::graphql::character_model::{
    duplicate_text, CaracterMutation, Character, CharacterCreator, CharacterRelations,
    CharacterUpdater,
};
use rick_morty_back::graphql::episode_model::{
    CharacterEpisode, Episode, EpisodeCreator, EpisodeUpdater,
};
use rick_morty_back::graphql::location_model::{Location, LocationCreator, LocationUpdater};
use rick_morty_back::graphql::{page_plan, InfoListResult};
use rick_morty_back::memory::{
    any_character_refers, are_characters_resolved, are_links_resolved, clear_reference, copy_rows,
    is_reference_resolved, link_among, link_end, link_end_in_use, location_referred_to, reference,
    related_rows,
};
use rick_morty_back::pager::{Fetch, Pager, ALL_ROWS};
use rick_morty_back::store::{Keyed, LinkEnd, Reference, Statement};

fn location(id: i32) -> Location {
    Location { id, name: "n".to_string(), type_: "t".to_string(), dimension: "d".to_string() }
}

fn episode(id: i32) -> Episode {
    Episode { id, name: "n".to_string(), air_date: "a".to_string(), code: "c".to_string() }
}

fn character(id: i32, origin_id: Option<i32>, location_id: Option<i32>) -> Character {
    Character {
        id,
        name: "n".to_string(),
        status: "s".to_string(),
        species: "p".to_string(),
        gender: "g".to_string(),
        type_: None,
        origin_id,
        location_id,
    }
}

fn link(character_id: i32, episode_id: i32) -> CharacterEpisode {
    CharacterEpisode { character_id, episode_id }
}

#[test]
fn page_plan_gives_metadata_and_read() {
    assert_eq!(
        page_plan(&Pager::reference(), 2, 95),
        (
            InfoListResult { next_page: Some(3), num_pages: 4, item_count: 95 },
            Fetch::Window { offset: 30, limit: 30 }
        )
    );
    assert_eq!(
        page_plan(&Pager::reference(), 4, 90),
        (InfoListResult { next_page: None, num_pages: 3, item_count: 90 }, Fetch::Nothing)
    );
    assert_eq!(
        page_plan(&Pager::reference(), ALL_ROWS, 90),
        (InfoListResult { next_page: Some(2), num_pages: 3, item_count: 90 }, Fetch::All)
    );
    assert_eq!(
        page_plan(&Pager::reference(), 1, 0),
        (InfoListResult { next_page: None, num_pages: 0, item_count: 0 }, Fetch::Nothing)
    );
}

#[test]
fn relation_step_only_where_episodes_are_listed() {
    assert!(CaracterMutation::relation_step(4, &CharacterRelations { episode_ids: vec![] }).is_none());
    match CaracterMutation::relation_step(4, &CharacterRelations { episode_ids: vec![9, 8] }) {
        Some(Statement::LoadRelations(rows)) => assert_eq!(rows, vec![link(4, 9), link(4, 8)]),
        _ => panic!("one insert of relation rows expected"),
    }
}

#[test]
fn relink_steps_delete_then_insert() {
    assert!(CaracterMutation::relink_steps(4, &None).is_empty());
    let steps =
        CaracterMutation::relink_steps(4, &Some(CharacterRelations { episode_ids: vec![2] }));
    assert_eq!(steps.len(), 2);
    assert!(matches!(steps[0], Statement::DeleteRelationsOfCharacter(4)));
    assert!(matches!(&steps[1], Statement::LoadRelations(rows) if *rows == vec![link(4, 2)]));
    let empty =
        CaracterMutation::relink_steps(4, &Some(CharacterRelations { episode_ids: vec![] }));
    assert_eq!(empty.len(), 2);
    assert!(matches!(&empty[1], Statement::LoadRelations(rows) if rows.is_empty()));
}

#[test]
fn creators_and_updaters_become_rows() {
    let made = CharacterCreator {
        name: "Rick".to_string(),
        status: "Alive".to_string(),
        species: "Human".to_string(),
        gender: "Male".to_string(),
        type_: Some("Pickle".to_string()),
        origin_id: Some(1),
        location_id: None,
    }
    .into_row(12);
    assert_eq!(made.id, 12);
    assert_eq!(made.name, "Rick");
    assert_eq!(made.status, "Alive");
    assert_eq!(made.species, "Human");
    assert_eq!(made.gender, "Male");
    assert_eq!(made.type_, Some("Pickle".to_string()));
    assert_eq!(made.origin_id, Some(1));
    assert_eq!(made.location_id, None);
    let saved = CharacterUpdater {
        id: 3,
        name: "Morty".to_string(),
        status: "Dead".to_string(),
        species: "Human".to_string(),
        gender: "Male".to_string(),
        type_: None,
        origin_id: None,
        location_id: Some(2),
    }
    .into_row();
    assert_eq!((saved.id, saved.location_id, saved.origin_id), (3, Some(2), None));
    assert_eq!(saved.status, "Dead");
    let show = EpisodeCreator {
        name: "Pilot".to_string(),
        air_date: "2013".to_string(),
        code: "S01E01".to_string(),
    }
    .into_row(1);
    assert_eq!((show.id, show.name.as_str(), show.air_date.as_str(), show.code.as_str()), (
        1, "Pilot", "2013", "S01E01"
    ));
    let show = EpisodeUpdater {
        id: 5,
        name: "Five".to_string(),
        air_date: "2014".to_string(),
        code: "S01E05".to_string(),
    }
    .into_row();
    assert_eq!((show.id, show.code.as_str()), (5, "S01E05"));
    let place = LocationCreator {
        name: "Earth".to_string(),
        type_: "Planet".to_string(),
        dimension: "C-137".to_string(),
    }
    .into_row(7);
    assert_eq!((place.id, place.name.as_str(), place.type_.as_str(), place.dimension.as_str()), (
        7, "Earth", "Planet", "C-137"
    ));
    let place = LocationUpdater {
        id: 8,
        name: "Mars".to_string(),
        type_: "Planet".to_string(),
        dimension: "unknown".to_string(),
    }
    .into_row();
    assert_eq!((place.id, place.dimension.as_str()), (8, "unknown"));
}

#[test]
fn copies_equal_their_source() {
    assert_eq!(duplicate_text(&Some("x".to_string())), Some("x".to_string()));
    assert_eq!(duplicate_text(&None), None);
    let rows = vec![location(3), location(1)];
    let copy = copy_rows(&rows);
    assert_eq!(copy.iter().map(|l| l.id).collect::<Vec<i32>>(), vec![3, 1]);
    assert_eq!(copy[0].name, "n");
    let show = episode(4).duplicate();
    assert_eq!((show.id, show.code.as_str()), (4, "c"));
    let place = location(4).copy_of();
    assert_eq!((place.key_of(), place.dimension.as_str()), (4, "d"));
    assert_eq!(character(6, None, None).key_of(), 6);
    assert_eq!(episode(7).key_of(), 7);
}

#[test]
fn reference_checks() {
    let locations = vec![location(1), location(2)];
    assert!(is_reference_resolved(&None, &locations));
    assert!(is_reference_resolved(&Some(2), &locations));
    assert!(!is_reference_resolved(&Some(3), &locations));
    assert!(are_characters_resolved(
        &vec![character(1, Some(1), None), character(2, None, Some(2))],
        &locations
    ));
    assert!(!are_characters_resolved(
        &vec![character(1, Some(1), None), character(2, None, Some(3))],
        &locations
    ));
    assert!(!are_characters_resolved(&vec![character(1, Some(0), Some(1))], &locations));
    assert!(are_characters_resolved(&vec![], &vec![]));
    let characters = vec![character(1, None, None), character(2, Some(5), Some(6))];
    assert!(any_character_refers(&characters));
    assert!(!any_character_refers(&vec![character(1, None, None)]));
    assert!(location_referred_to(&characters, 5));
    assert!(location_referred_to(&characters, 6));
    assert!(!location_referred_to(&characters, 7));
    assert_eq!(reference(&characters[1], Reference::Origin), Some(5));
    assert_eq!(reference(&characters[1], Reference::Location), Some(6));
    assert_eq!(reference(&characters[0], Reference::Origin), None);
}

#[test]
fn clear_reference_touches_only_the_named_reference() {
    let mut characters =
        vec![character(1, Some(5), Some(5)), character(2, Some(6), Some(5)), character(3, None, None)];
    assert_eq!(clear_reference(&mut characters, Reference::Origin, 5), 1);
    assert_eq!(characters[0].origin_id, None);
    assert_eq!(characters[0].location_id, Some(5));
    assert_eq!(characters[1].origin_id, Some(6));
    assert_eq!(clear_reference(&mut characters, Reference::Location, 5), 2);
    assert_eq!(characters[0].location_id, None);
    assert_eq!(characters[1].location_id, None);
    assert_eq!(characters[1].origin_id, Some(6));
    assert_eq!(clear_reference(&mut characters, Reference::Location, 5), 0);
    assert_eq!(characters.len(), 3);
}

#[test]
fn link_checks() {
    let links = vec![link(1, 10), link(2, 10), link(1, 11)];
    assert_eq!(link_end(&links[2], LinkEnd::Character), 1);
    assert_eq!(link_end(&links[2], LinkEnd::Episode), 11);
    assert!(link_end_in_use(&links, LinkEnd::Character, 2));
    assert!(!link_end_in_use(&links, LinkEnd::Character, 10));
    assert!(link_end_in_use(&links, LinkEnd::Episode, 10));
    assert!(!link_end_in_use(&links, LinkEnd::Episode, 1));
    assert!(link_among(&links, 3, link(1, 11)));
    assert!(!link_among(&links, 2, link(1, 11)));
    assert!(!link_among(&links, 0, link(1, 10)));
    let characters = vec![character(1, None, None), character(2, None, None)];
    let episodes = vec![episode(10), episode(11)];
    assert!(are_links_resolved(&links, &characters, &episodes));
    assert!(!are_links_resolved(&vec![link(3, 10)], &characters, &episodes));
    assert!(!are_links_resolved(&vec![link(1, 12)], &characters, &episodes));
}

#[test]
fn related_rows_of_either_end() {
    let links = vec![link(1, 11), link(2, 10), link(1, 10)];
    let characters = vec![character(1, None, None), character(2, None, None)];
    let episodes = vec![episode(10), episode(11)];
    let of_first = related_rows(&links, LinkEnd::Character, 1, &episodes);
    assert_eq!(of_first.iter().map(|e| e.id).collect::<Vec<i32>>(), vec![11, 10]);
    let in_tenth = related_rows(&links, LinkEnd::Episode, 10, &characters);
    assert_eq!(in_tenth.iter().map(|c| c.id).collect::<Vec<i32>>(), vec![2, 1]);
    assert!(related_rows(&links, LinkEnd::Episode, 12, &characters).is_empty());
}
