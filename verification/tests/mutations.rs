use rick_morty_back::db::{
    get_all_counts, get_count, init_db, reset_db, reset_steps, DbCounts, EntityKind, SeedData,
};
use rick_morty_back::graphql::character_model::{
    character_relation_rows, CaracterMutation, Character, CharacterCreator, CharacterRelations,
    CharacterUpdater,
};
use rick_morty_back::graphql::context::Ctx;
use rick_morty_back::graphql::episode_model::{
    CharacterEpisode, Episode, EpisodeCreator, EpisodeMutation, EpisodeUpdater,
};
use rick_morty_back::graphql::location_model::{
    Location, LocationCreator, LocationMutation, LocationUpdater,
};
use rick_morty_back::graphql::Mutation;
use rick_morty_back::memory::Store;
use rick_morty_back::store::{Reference, Statement, StoreError, Table};

fn location(id: i32, name: &str) -> Location {
    Location {
        id,
        name: name.to_string(),
        type_: "Planet".to_string(),
        dimension: "C-137".to_string(),
    }
}

fn episode(id: i32, code: &str) -> Episode {
    Episode {
        id,
        name: format!("Episode {}", id),
        air_date: "December 2, 2013".to_string(),
        code: code.to_string(),
    }
}

fn character(id: i32, name: &str, origin_id: Option<i32>, location_id: Option<i32>) -> Character {
    Character {
        id,
        name: name.to_string(),
        status: "Alive".to_string(),
        species: "Human".to_string(),
        gender: "Male".to_string(),
        type_: Some("Scientist".to_string()),
        origin_id,
        location_id,
    }
}

fn link(character_id: i32, episode_id: i32) -> CharacterEpisode {
    CharacterEpisode { character_id, episode_id }
}

fn creator(name: &str, origin_id: Option<i32>, location_id: Option<i32>) -> CharacterCreator {
    CharacterCreator {
        name: name.to_string(),
        status: "Alive".to_string(),
        species: "Human".to_string(),
        gender: "Female".to_string(),
        type_: None,
        origin_id,
        location_id,
    }
}

fn seed() -> SeedData {
    SeedData {
        locations: vec![location(1, "Earth"), location(2, "Citadel"), location(20, "Anatomy Park")],
        characters: vec![
            character(1, "Rick", Some(1), Some(2)),
            character(2, "Morty", Some(1), Some(1)),
            character(3, "Summer", Some(20), Some(1)),
            character(4, "Beth", None, Some(20)),
            character(500, "Last", None, None),
        ],
        episodes: vec![episode(1, "S01E01"), episode(2, "S01E02")],
        character_episodes: vec![link(1, 1), link(2, 1), link(1, 2), link(3, 2), link(500, 2)],
    }
}

fn seeded() -> (Store, Ctx) {
    let mut store = Store::new();
    let mut ctx = Ctx::new(DbCounts { character: 0, location: 0, episode: 0 });
    assert_eq!(Mutation::reset_db(&mut store, &mut ctx, seed()), Ok(true));
    (store, ctx)
}

fn character_ids(store: &Store) -> Vec<i32> {
    store.characters().iter().map(|row| row.id).collect()
}

#[test]
fn reseed_counts_match_the_fixture() {
    let (store, ctx) = seeded();
    assert_eq!(store.count(EntityKind::Character), 5);
    assert_eq!(store.count(EntityKind::Location), 3);
    assert_eq!(store.count(EntityKind::Episode), 2);
    assert_eq!(ctx.counts(), DbCounts { character: 5, location: 3, episode: 2 });
    assert_eq!(get_all_counts(&store), ctx.counts());
    assert_eq!(get_count(&store, EntityKind::Character), 5);
    assert_eq!(store.episodes_of(1).len(), 2);
    assert_eq!(store.characters_of(2).len(), 3);
}

#[test]
fn reseed_replaces_what_was_there() {
    let (mut store, mut ctx) = seeded();
    CaracterMutation::create_character(
        creator("Extra", None, None),
        CharacterRelations { episode_ids: vec![1] },
        &mut store,
        &mut ctx,
    )
    .unwrap();
    assert_eq!(ctx.read(EntityKind::Character), 6);
    let smaller = SeedData {
        locations: vec![location(9, "Only")],
        characters: vec![character(7, "Seven", Some(9), None)],
        episodes: vec![],
        character_episodes: vec![],
    };
    assert_eq!(Mutation::reset_db(&mut store, &mut ctx, smaller), Ok(true));
    assert_eq!(ctx.counts(), DbCounts { character: 1, location: 1, episode: 0 });
    assert_eq!(character_ids(&store), vec![7]);
    assert_eq!(store.find_location(9).unwrap().name, "Only");
    assert_eq!(store.find_location(1).unwrap_err(), StoreError::NotFound);
}

#[test]
fn reseed_from_nothing_empties_the_store() {
    let (mut store, mut ctx) = seeded();
    let nothing =
        SeedData { locations: vec![], characters: vec![], episodes: vec![], character_episodes: vec![] };
    assert_eq!(Mutation::reset_db(&mut store, &mut ctx, nothing), Ok(true));
    assert_eq!(ctx.counts(), DbCounts { character: 0, location: 0, episode: 0 });
    assert_eq!(store.count(EntityKind::Character), 0);
    assert_eq!(
        CaracterMutation::create_character(
            creator("After", None, None),
            CharacterRelations { episode_ids: vec![] },
            &mut store,
            &mut ctx
        )
        .unwrap()
        .id,
        501
    );
}

#[test]
fn reseed_with_a_duplicate_id_changes_nothing() {
    let (mut store, mut ctx) = seeded();
    let mut bad = seed();
    bad.characters.push(character(2, "Twin", None, None));
    assert_eq!(Mutation::reset_db(&mut store, &mut ctx, bad), Err(StoreError::UniqueViolation));
    assert_eq!(character_ids(&store), vec![1, 2, 3, 4, 500]);
    assert_eq!(ctx.counts(), DbCounts { character: 5, location: 3, episode: 2 });
    assert_eq!(store.episodes_of(1).len(), 2);
    let mut twice = seed();
    twice.character_episodes.push(link(1, 1));
    assert_eq!(reset_db(&mut store, twice), Err(StoreError::UniqueViolation));
    let mut places = seed();
    places.locations.push(location(20, "Again"));
    assert_eq!(reset_db(&mut store, places), Err(StoreError::UniqueViolation));
    let mut shows = seed();
    shows.episodes.push(episode(1, "Again"));
    assert_eq!(reset_db(&mut store, shows), Err(StoreError::UniqueViolation));
    assert_eq!(store.count(EntityKind::Location), 3);
    assert_eq!(store.count(EntityKind::Episode), 2);
}

#[test]
fn reseed_with_a_dangling_reference_changes_nothing() {
    let (mut store, mut ctx) = seeded();
    let mut bad = seed();
    bad.characters.push(character(9, "Lost", Some(77), None));
    assert_eq!(
        Mutation::reset_db(&mut store, &mut ctx, bad),
        Err(StoreError::ForeignKeyViolation)
    );
    let mut unrelated = seed();
    unrelated.character_episodes.push(link(1, 77));
    assert_eq!(reset_db(&mut store, unrelated), Err(StoreError::ForeignKeyViolation));
    assert_eq!(character_ids(&store), vec![1, 2, 3, 4, 500]);
    assert_eq!(ctx.counts(), DbCounts { character: 5, location: 3, episode: 2 });
    assert_eq!(store.characters_of(2).len(), 3);
}

#[test]
fn reseed_runs_eleven_statements_in_dependency_order() {
    let steps = reset_steps(seed());
    assert_eq!(steps.len(), 11);
    assert!(matches!(steps[0], Statement::DeleteAll(Table::CharacterEpisode)));
    assert!(matches!(steps[1], Statement::DeleteAll(Table::Episode)));
    assert!(matches!(steps[2], Statement::DeleteAll(Table::Character)));
    assert!(matches!(steps[3], Statement::DeleteAll(Table::Location)));
    assert!(matches!(&steps[4], Statement::LoadLocations(rows) if rows.len() == 3));
    assert!(matches!(&steps[5], Statement::LoadCharacters(rows) if rows.len() == 5));
    assert!(matches!(&steps[6], Statement::LoadEpisodes(rows) if rows.len() == 2));
    assert!(matches!(&steps[7], Statement::LoadRelations(rows) if rows.len() == 5));
    assert!(matches!(steps[8], Statement::ResyncSequence(EntityKind::Character)));
    assert!(matches!(steps[9], Statement::ResyncSequence(EntityKind::Location)));
    assert!(matches!(steps[10], Statement::ResyncSequence(EntityKind::Episode)));
}

#[test]
fn next_character_after_reseed_gets_an_id_above_500() {
    let (mut store, mut ctx) = seeded();
    let made = CaracterMutation::create_character(
        creator("Newcomer", Some(1), None),
        CharacterRelations { episode_ids: vec![] },
        &mut store,
        &mut ctx,
    )
    .unwrap();
    assert!(made.id > 500);
    assert_eq!(made.id, 501);
    assert_eq!(ctx.read(EntityKind::Character), 6);
    let place = LocationMutation::create_location(
        LocationCreator {
            name: "New".to_string(),
            type_: "Moon".to_string(),
            dimension: "unknown".to_string(),
        },
        &mut store,
        &mut ctx,
    )
    .unwrap();
    assert_eq!(place.id, 21);
    let show = EpisodeMutation::create_episode(
        EpisodeCreator {
            name: "New".to_string(),
            air_date: "".to_string(),
            code: "S01E03".to_string(),
        },
        &mut store,
        &mut ctx,
    )
    .unwrap();
    assert_eq!(show.id, 3);
    assert_eq!(ctx.counts(), DbCounts { character: 6, location: 4, episode: 3 });
}

#[test]
fn init_reseeds_only_a_store_without_characters() {
    let mut store = Store::new();
    assert_eq!(
        init_db(&mut store, seed()),
        Ok(DbCounts { character: 5, location: 3, episode: 2 })
    );
    let other = SeedData {
        locations: vec![],
        characters: vec![character(1, "Other", None, None)],
        episodes: vec![],
        character_episodes: vec![],
    };
    assert_eq!(init_db(&mut store, other), Ok(DbCounts { character: 5, location: 3, episode: 2 }));
    assert_eq!(store.find_character(1).unwrap().name, "Rick");
    let mut empty = Store::new();
    let mut bad = seed();
    bad.locations.push(location(1, "Twin"));
    assert_eq!(init_db(&mut empty, bad), Err(StoreError::UniqueViolation));
    assert_eq!(empty.count(EntityKind::Location), 0);
}

#[test]
fn deleting_a_location_keeps_the_characters_and_clears_their_references() {
    let (mut store, mut ctx) = seeded();
    assert_eq!(LocationMutation::delete_location(1, &mut store, &mut ctx), Ok(true));
    assert_eq!(character_ids(&store), vec![1, 2, 3, 4, 500]);
    let rick = store.find_character(1).unwrap();
    assert_eq!(rick.origin_id, None);
    assert_eq!(rick.location_id, Some(2));
    assert_eq!(rick.name, "Rick");
    assert_eq!(rick.type_, Some("Scientist".to_string()));
    let morty = store.find_character(2).unwrap();
    assert_eq!(morty.origin_id, None);
    assert_eq!(morty.location_id, None);
    let summer = store.find_character(3).unwrap();
    assert_eq!(summer.origin_id, Some(20));
    assert_eq!(summer.location_id, None);
    let beth = store.find_character(4).unwrap();
    assert_eq!(beth.origin_id, None);
    assert_eq!(beth.location_id, Some(20));
    assert_eq!(store.find_location(1).unwrap_err(), StoreError::NotFound);
    assert_eq!(ctx.counts(), DbCounts { character: 5, location: 2, episode: 2 });
    assert_eq!(store.episodes_of(1).len(), 2);
    assert_eq!(store.characters_at(Reference::Origin, 1).len(), 0);
}

#[test]
fn deleting_a_missing_location_changes_nothing() {
    let (mut store, mut ctx) = seeded();
    assert_eq!(LocationMutation::delete_location(77, &mut store, &mut ctx), Ok(false));
    assert_eq!(ctx.counts(), DbCounts { character: 5, location: 3, episode: 2 });
    assert_eq!(store.find_character(1).unwrap().origin_id, Some(1));
}

#[test]
fn deleting_a_character_removes_its_own_relation_rows_only() {
    let (mut store, mut ctx) = seeded();
    assert_eq!(CaracterMutation::delete_character(1, &mut store, &mut ctx), Ok(true));
    assert_eq!(character_ids(&store), vec![2, 3, 4, 500]);
    assert_eq!(store.episodes_of(1).len(), 0);
    let first: Vec<i32> = store.characters_of(1).iter().map(|c| c.id).collect();
    let second: Vec<i32> = store.characters_of(2).iter().map(|c| c.id).collect();
    assert_eq!(first, vec![2]);
    assert_eq!(second, vec![3, 500]);
    assert_eq!(ctx.counts(), DbCounts { character: 4, location: 3, episode: 2 });
    assert_eq!(store.count(EntityKind::Episode), 2);
    assert_eq!(store.count(EntityKind::Location), 3);
    assert_eq!(CaracterMutation::delete_character(1, &mut store, &mut ctx), Ok(false));
    assert_eq!(ctx.read(EntityKind::Character), 4);
}

#[test]
fn deleting_an_episode_removes_its_own_relation_rows_only() {
    let (mut store, mut ctx) = seeded();
    assert_eq!(EpisodeMutation::delete_episode(2, &mut store, &mut ctx), Ok(true));
    assert_eq!(store.find_episode(2).unwrap_err(), StoreError::NotFound);
    let first: Vec<i32> = store.characters_of(1).iter().map(|c| c.id).collect();
    assert_eq!(first, vec![1, 2]);
    assert_eq!(store.characters_of(2).len(), 0);
    assert_eq!(store.episodes_of(1).len(), 1);
    assert_eq!(store.episodes_of(500).len(), 0);
    assert_eq!(character_ids(&store), vec![1, 2, 3, 4, 500]);
    assert_eq!(ctx.counts(), DbCounts { character: 5, location: 3, episode: 1 });
    assert_eq!(EpisodeMutation::delete_episode(2, &mut store, &mut ctx), Ok(false));
    assert_eq!(ctx.read(EntityKind::Episode), 1);
}

#[test]
fn delete_scripts_put_the_dependents_first() {
    let steps = CaracterMutation::delete_character_steps(7);
    assert!(matches!(steps[..], [Statement::DeleteRelationsOfCharacter(7), Statement::DeleteCharacter(7)]));
    let steps = EpisodeMutation::delete_episode_steps(8);
    assert!(matches!(steps[..], [Statement::DeleteRelationsOfEpisode(8), Statement::DeleteEpisode(8)]));
    let steps = LocationMutation::delete_location_steps(9);
    assert!(matches!(
        steps[..],
        [Statement::ClearOrigin(9), Statement::ClearLocation(9), Statement::DeleteLocation(9)]
    ));
}

#[test]
fn create_character_with_relations() {
    let (mut store, mut ctx) = seeded();
    let made = CaracterMutation::create_character(
        creator("Jessica", Some(1), Some(1)),
        CharacterRelations { episode_ids: vec![2, 1] },
        &mut store,
        &mut ctx,
    )
    .unwrap();
    assert_eq!(made.id, 501);
    assert_eq!(made.name, "Jessica");
    let episodes: Vec<i32> = store.episodes_of(501).iter().map(|e| e.id).collect();
    assert_eq!(episodes, vec![2, 1]);
    assert_eq!(ctx.counts(), DbCounts { character: 6, location: 3, episode: 2 });
}

#[test]
fn create_character_is_all_or_nothing() {
    let (mut store, mut ctx) = seeded();
    let refused = CaracterMutation::create_character(
        creator("Ghost", None, None),
        CharacterRelations { episode_ids: vec![1, 77] },
        &mut store,
        &mut ctx,
    );
    assert_eq!(refused.unwrap_err(), StoreError::ForeignKeyViolation);
    assert_eq!(character_ids(&store), vec![1, 2, 3, 4, 500]);
    assert_eq!(store.characters_of(1).len(), 2);
    assert_eq!(ctx.read(EntityKind::Character), 5);
    let twice = CaracterMutation::create_character(
        creator("Ghost", None, None),
        CharacterRelations { episode_ids: vec![1, 1] },
        &mut store,
        &mut ctx,
    );
    assert_eq!(twice.unwrap_err(), StoreError::UniqueViolation);
    let dangling = CaracterMutation::create_character(
        creator("Ghost", Some(77), None),
        CharacterRelations { episode_ids: vec![] },
        &mut store,
        &mut ctx,
    );
    assert_eq!(dangling.unwrap_err(), StoreError::ForeignKeyViolation);
    assert_eq!(ctx.read(EntityKind::Character), 5);
    let made = CaracterMutation::create_character(
        creator("Real", None, None),
        CharacterRelations { episode_ids: vec![] },
        &mut store,
        &mut ctx,
    )
    .unwrap();
    assert_eq!(made.id, 504);
}

#[test]
fn update_character_replaces_the_whole_set_of_relations() {
    let (mut store, _ctx) = seeded();
    let updater = CharacterUpdater {
        id: 1,
        name: "Rick C-137".to_string(),
        status: "Alive".to_string(),
        species: "Human".to_string(),
        gender: "Male".to_string(),
        type_: None,
        origin_id: None,
        location_id: Some(20),
    };
    let saved = CaracterMutation::update_character(
        updater,
        Some(CharacterRelations { episode_ids: vec![2] }),
        &mut store,
    )
    .unwrap();
    assert_eq!(saved.name, "Rick C-137");
    assert_eq!(saved.type_, None);
    assert_eq!(saved.origin_id, None);
    let episodes: Vec<i32> = store.episodes_of(1).iter().map(|e| e.id).collect();
    assert_eq!(episodes, vec![2]);
    assert_eq!(store.characters_of(1).iter().map(|c| c.id).collect::<Vec<i32>>(), vec![2]);
    assert_eq!(store.find_character(1).unwrap().location_id, Some(20));
}

#[test]
fn update_character_without_relations_keeps_them() {
    let (mut store, _ctx) = seeded();
    let updater = CharacterUpdater {
        id: 1,
        name: "Renamed".to_string(),
        status: "Dead".to_string(),
        species: "Human".to_string(),
        gender: "Male".to_string(),
        type_: None,
        origin_id: Some(1),
        location_id: None,
    };
    CaracterMutation::update_character(updater, None, &mut store).unwrap();
    assert_eq!(store.episodes_of(1).len(), 2);
    assert_eq!(store.find_character(1).unwrap().status, "Dead");
}

#[test]
fn update_character_with_an_empty_list_removes_its_relations() {
    let (mut store, _ctx) = seeded();
    let updater = CharacterUpdater {
        id: 1,
        name: "Rick".to_string(),
        status: "Alive".to_string(),
        species: "Human".to_string(),
        gender: "Male".to_string(),
        type_: None,
        origin_id: Some(1),
        location_id: Some(2),
    };
    CaracterMutation::update_character(
        updater,
        Some(CharacterRelations { episode_ids: vec![] }),
        &mut store,
    )
    .unwrap();
    assert_eq!(store.episodes_of(1).len(), 0);
    assert_eq!(store.episodes_of(2).len(), 1);
}

#[test]
fn update_character_is_all_or_nothing() {
    let (mut store, _ctx) = seeded();
    let updater = |id: i32, origin_id: Option<i32>| CharacterUpdater {
        id,
        name: "Changed".to_string(),
        status: "Alive".to_string(),
        species: "Human".to_string(),
        gender: "Male".to_string(),
        type_: None,
        origin_id,
        location_id: None,
    };
    let unrelated = CaracterMutation::update_character(
        updater(1, None),
        Some(CharacterRelations { episode_ids: vec![77] }),
        &mut store,
    );
    assert_eq!(unrelated.unwrap_err(), StoreError::ForeignKeyViolation);
    assert_eq!(store.episodes_of(1).len(), 2);
    assert_eq!(store.find_character(1).unwrap().name, "Rick");
    let dangling = CaracterMutation::update_character(
        updater(1, Some(77)),
        Some(CharacterRelations { episode_ids: vec![1] }),
        &mut store,
    );
    assert_eq!(dangling.unwrap_err(), StoreError::ForeignKeyViolation);
    assert_eq!(store.episodes_of(1).len(), 2);
    let missing = CaracterMutation::update_character(updater(77, None), None, &mut store);
    assert_eq!(missing.unwrap_err(), StoreError::NotFound);
    let missing_with_relations = CaracterMutation::update_character(
        updater(77, None),
        Some(CharacterRelations { episode_ids: vec![1] }),
        &mut store,
    );
    assert_eq!(missing_with_relations.unwrap_err(), StoreError::ForeignKeyViolation);
    assert_eq!(store.characters_of(1).len(), 2);
}

#[test]
fn update_episode_and_location() {
    let (mut store, _ctx) = seeded();
    let show = EpisodeMutation::update_episode(
        EpisodeUpdater {
            id: 2,
            name: "Lawnmower Dog".to_string(),
            air_date: "December 9, 2013".to_string(),
            code: "S01E02".to_string(),
        },
        &mut store,
    )
    .unwrap();
    assert_eq!(show.name, "Lawnmower Dog");
    assert_eq!(store.find_episode(2).unwrap().air_date, "December 9, 2013");
    let place = LocationMutation::update_location(
        LocationUpdater {
            id: 2,
            name: "Citadel of Ricks".to_string(),
            type_: "Space station".to_string(),
            dimension: "unknown".to_string(),
        },
        &mut store,
    )
    .unwrap();
    assert_eq!(place.type_, "Space station");
    assert_eq!(store.find_location(2).unwrap().name, "Citadel of Ricks");
    let missing = EpisodeMutation::update_episode(
        EpisodeUpdater {
            id: 9,
            name: "".to_string(),
            air_date: "".to_string(),
            code: "".to_string(),
        },
        &mut store,
    );
    assert_eq!(missing.unwrap_err(), StoreError::NotFound);
}

#[test]
fn relation_rows_pair_the_character_with_each_episode() {
    let rows = character_relation_rows(7, &CharacterRelations { episode_ids: vec![3, 1, 2] });
    assert_eq!(rows, vec![link(7, 3), link(7, 1), link(7, 2)]);
    assert!(character_relation_rows(7, &CharacterRelations { episode_ids: vec![] }).is_empty());
}

#[test]
fn counter_returns_to_its_start_after_as_many_deletes_as_creates() {
    let (mut store, mut ctx) = seeded();
    let mut made = Vec::new();
    for i in 0..10 {
        let row = CaracterMutation::create_character(
            creator(&format!("Clone {}", i), None, None),
            CharacterRelations { episode_ids: vec![1] },
            &mut store,
            &mut ctx,
        )
        .unwrap();
        made.push(row.id);
    }
    assert_eq!(ctx.read(EntityKind::Character), 15);
    for id in made.iter().take(4) {
        assert_eq!(CaracterMutation::delete_character(*id, &mut store, &mut ctx), Ok(true));
    }
    assert_eq!(ctx.read(EntityKind::Character), 5 + 10 - 4);
    assert_eq!(store.count(EntityKind::Character), 11);
    assert_eq!(get_all_counts(&store), ctx.counts());
}

#[test]
fn mutation_handles() {
    let _characters: CaracterMutation = Mutation::character_mutation();
    let _episodes: EpisodeMutation = Mutation::episode_mutation();
    let _locations: LocationMutation = Mutation::location_mutation();
}

#[test]
fn writes_that_change_no_row_need_no_room_in_the_counter() {
    let (mut store, _ctx) = seeded();
    let mut lowest = Ctx::new(DbCounts { character: i32::MIN, location: i32::MIN, episode: i32::MIN });
    assert_eq!(CaracterMutation::delete_character(77, &mut store, &mut lowest), Ok(false));
    assert_eq!(EpisodeMutation::delete_episode(77, &mut store, &mut lowest), Ok(false));
    assert_eq!(LocationMutation::delete_location(77, &mut store, &mut lowest), Ok(false));
    assert_eq!(
        lowest.counts(),
        DbCounts { character: i32::MIN, location: i32::MIN, episode: i32::MIN }
    );
    let mut highest =
        Ctx::new(DbCounts { character: i32::MAX, location: i32::MAX, episode: i32::MAX });
    let refused = CaracterMutation::create_character(
        creator("Lost", Some(77), None),
        CharacterRelations { episode_ids: vec![] },
        &mut store,
        &mut highest,
    );
    assert_eq!(refused.unwrap_err(), StoreError::ForeignKeyViolation);
    let unrelated = CaracterMutation::create_character(
        creator("Lost", None, None),
        CharacterRelations { episode_ids: vec![77] },
        &mut store,
        &mut highest,
    );
    assert_eq!(unrelated.unwrap_err(), StoreError::ForeignKeyViolation);
    assert_eq!(
        highest.counts(),
        DbCounts { character: i32::MAX, location: i32::MAX, episode: i32::MAX }
    );
}

#[test]
fn counts_of_a_store_that_fits_are_the_row_counts() {
    let (store, _ctx) = seeded();
    assert_eq!(get_count(&store, EntityKind::Character), 5);
    assert_eq!(get_count(&store, EntityKind::Location), 3);
    assert_eq!(get_count(&store, EntityKind::Episode), 2);
    assert_eq!(get_all_counts(&store), DbCounts { character: 5, location: 3, episode: 2 });
    let empty = Store::new();
    assert_eq!(get_count(&empty, EntityKind::Episode), 0);
    assert_eq!(get_all_counts(&empty), DbCounts { character: 0, location: 0, episode: 0 });
}
