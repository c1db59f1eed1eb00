//! Row counts, seed data and the all-or-nothing reseed of the store.

use vstd::prelude::*;
use crate::graphql::character_model::{
    created, law_created_keeps_sequences_ahead, Character, CharacterCreator,
};
use crate::graphql::episode_model::{CharacterEpisode, Episode};
use crate::graphql::location_model::Location;
use crate::memory::Store;
use crate::store::{
    characters_resolved, distinct_keys, lemma_max_key, links_resolved, resynced, rolled_back, run,
    run_from, Statement, StoreError, Table, Tables,
};

verus! {

/// The entity types that have a table with a store-assigned id.
#[derive(Clone, Copy, Debug, PartialEq, Eq, Structural)]
pub enum EntityKind {
    Character,
    Location,
    Episode,
}

/// Row counts of the three entity tables.
#[derive(Clone, Copy, Debug, PartialEq, Eq, Structural)]
pub struct DbCounts {
    pub character: i32,
    pub location: i32,
    pub episode: i32,
}

impl DbCounts {
    /// The count kept for `kind`.
    pub open spec fn of(self, kind: EntityKind) -> int {
        match kind {
            EntityKind::Character => self.character as int,
            EntityKind::Location => self.location as int,
            EntityKind::Episode => self.episode as int,
        }
    }
}

/// The rows that a reseed loads, table by table.
#[derive(Debug)]
pub struct SeedData {
    pub locations: Vec<Location>,
    pub characters: Vec<Character>,
    pub episodes: Vec<Episode>,
    pub character_episodes: Vec<CharacterEpisode>,
}

impl SeedData {
    /// Whether the rows can stand in a store together: ids are unique in each
    /// table, no relation row occurs twice, and every reference names a row of
    /// the seed.
    pub open spec fn valid(self) -> bool {
        &&& distinct_keys(self.locations@)
        &&& distinct_keys(self.characters@)
        &&& characters_resolved(self.characters@, self.locations@)
        &&& distinct_keys(self.episodes@)
        &&& self.character_episodes@.no_duplicates()
        &&& links_resolved(self.character_episodes@, self.characters@, self.episodes@)
    }

    /// The first constraint that the rows break, in the order in which the
    /// tables are loaded.
    pub open spec fn fault(self) -> Option<StoreError> {
        if !distinct_keys(self.locations@) {
            Some(StoreError::UniqueViolation)
        } else if !distinct_keys(self.characters@) {
            Some(StoreError::UniqueViolation)
        } else if !characters_resolved(self.characters@, self.locations@) {
            Some(StoreError::ForeignKeyViolation)
        } else if !distinct_keys(self.episodes@) {
            Some(StoreError::UniqueViolation)
        } else if !self.character_episodes@.no_duplicates() {
            Some(StoreError::UniqueViolation)
        } else if !links_resolved(self.character_episodes@, self.characters@, self.episodes@) {
            Some(StoreError::ForeignKeyViolation)
        } else {
            None
        }
    }

    /// The store that holds exactly the rows of the seed, with each sequence
    /// moved behind the greatest id of its table; the sequence of a table that
    /// the seed leaves empty stays where it is in `before`.
    pub open spec fn seeded(self, before: Tables) -> Tables {
        Tables {
            characters: self.characters@,
            locations: self.locations@,
            episodes: self.episodes@,
            links: self.character_episodes@,
            next_character_id: resynced(self.characters@, before.next_character_id),
            next_location_id: resynced(self.locations@, before.next_location_id),
            next_episode_id: resynced(self.episodes@, before.next_episode_id),
        }
    }
}

/// The statements of a reseed, in order: empty the relation, the episodes, the
/// characters and the locations; load the locations, the characters, the
/// episodes and the relation; move each id sequence behind its table.
pub open spec fn reset_script(seed: SeedData) -> Seq<Statement> {
    seq![
        Statement::DeleteAll(Table::CharacterEpisode),
        Statement::DeleteAll(Table::Episode),
        Statement::DeleteAll(Table::Character),
        Statement::DeleteAll(Table::Location),
        Statement::LoadLocations(seed.locations),
        Statement::LoadCharacters(seed.characters),
        Statement::LoadEpisodes(seed.episodes),
        Statement::LoadRelations(seed.character_episodes),
        Statement::ResyncSequence(EntityKind::Character),
        Statement::ResyncSequence(EntityKind::Location),
        Statement::ResyncSequence(EntityKind::Episode),
    ]
}

/// The statements of a reseed from `seed`, in the order in which they run.
pub fn reset_steps(seed: SeedData) -> (r: Vec<Statement>)
    ensures
        r@ == reset_script(seed),
{
    let mut steps: Vec<Statement> = Vec::new();
    steps.push(Statement::DeleteAll(Table::CharacterEpisode));
    steps.push(Statement::DeleteAll(Table::Episode));
    steps.push(Statement::DeleteAll(Table::Character));
    steps.push(Statement::DeleteAll(Table::Location));
    steps.push(Statement::LoadLocations(seed.locations));
    steps.push(Statement::LoadCharacters(seed.characters));
    steps.push(Statement::LoadEpisodes(seed.episodes));
    steps.push(Statement::LoadRelations(seed.character_episodes));
    steps.push(Statement::ResyncSequence(EntityKind::Character));
    steps.push(Statement::ResyncSequence(EntityKind::Location));
    steps.push(Statement::ResyncSequence(EntityKind::Episode));
    assert(steps@ =~= reset_script(seed));
    steps
}

/// A reseed is all or nothing. On a consistent store it succeeds exactly when
/// the seed is valid; then the store holds the rows of the seed and no others,
/// table by table, and every sequence is ahead of its table. Otherwise it
/// fails with the first constraint that the seed breaks, and the store is as
/// it was.
pub proof fn law_reseed_all_or_nothing(before: Tables, seed: SeedData)
    requires
        before.consistent(),
    ensures
        seed.valid() <==> seed.fault() is None,
        seed.valid() ==> run(before, reset_script(seed)) == (
            seed.seeded(before),
            Ok::<int, StoreError>(0),
        ),
        seed.fault() matches Some(e) ==> run(before, reset_script(seed)) == (
            before,
            Err::<int, StoreError>(e),
        ),
        seed.seeded(before).count(EntityKind::Character) == seed.characters@.len(),
        seed.seeded(before).count(EntityKind::Location) == seed.locations@.len(),
        seed.seeded(before).count(EntityKind::Episode) == seed.episodes@.len(),
        seed.seeded(before).links.len() == seed.character_episodes@.len(),
        seed.seeded(before).sequences_ahead(),
{
    let script = reset_script(seed);
    let none = Seq::<CharacterEpisode>::empty();
    let t1 = Tables { links: Seq::empty(), ..before };
    let t2 = Tables { episodes: Seq::empty(), ..t1 };
    let t3 = Tables { characters: Seq::empty(), ..t2 };
    let t4 = Tables { locations: Seq::empty(), ..t3 };
    let s1 = script.drop_first();
    let s2 = s1.drop_first();
    let s3 = s2.drop_first();
    let s4 = s3.drop_first();
    let s5 = s4.drop_first();
    let s6 = s5.drop_first();
    let s7 = s6.drop_first();
    let s8 = s7.drop_first();
    let s9 = s8.drop_first();
    let s10 = s9.drop_first();
    let s11 = s10.drop_first();
    assert(script[0] == Statement::DeleteAll(Table::CharacterEpisode));
    assert(s1[0] == Statement::DeleteAll(Table::Episode));
    assert(s2[0] == Statement::DeleteAll(Table::Character));
    assert(s3[0] == Statement::DeleteAll(Table::Location));
    assert(s4[0] == Statement::LoadLocations(seed.locations));
    assert(s5[0] == Statement::LoadCharacters(seed.characters));
    assert(s6[0] == Statement::LoadEpisodes(seed.episodes));
    assert(s7[0] == Statement::LoadRelations(seed.character_episodes));
    assert(s8[0] == Statement::ResyncSequence(EntityKind::Character));
    assert(s9[0] == Statement::ResyncSequence(EntityKind::Location));
    assert(s10[0] == Statement::ResyncSequence(EntityKind::Episode));
    assert(s11.len() == 0);
    assert(before.after(script[0]) == Ok::<Tables, StoreError>(t1));
    assert(t1.after(s1[0]) == Ok::<Tables, StoreError>(t2));
    assert(t2.after(s2[0]) == Ok::<Tables, StoreError>(t3));
    assert(t3.after(s3[0]) == Ok::<Tables, StoreError>(t4));
    assert(run(before, script) == run_from(before, t4, s4, before.locations.len() as int)) by {
        reveal_with_fuel(run_from, 5);
    }
    assert(rolled_back(before, t4) == before);
    assert(Seq::<Location>::empty() + seed.locations@ =~= seed.locations@);
    assert(Seq::<Character>::empty() + seed.characters@ =~= seed.characters@);
    assert(Seq::<Episode>::empty() + seed.episodes@ =~= seed.episodes@);
    assert(none + seed.character_episodes@ =~= seed.character_episodes@);
    lemma_max_key(seed.characters@);
    lemma_max_key(seed.locations@);
    lemma_max_key(seed.episodes@);
    assert(seed.seeded(before).sequences_ahead());
    if !distinct_keys(seed.locations@) {
        assert(t4.after(s4[0]) == Err::<Tables, StoreError>(StoreError::UniqueViolation));
    } else {
        let t5 = Tables { locations: seed.locations@, ..t4 };
        assert(t4.after(s4[0]) == Ok::<Tables, StoreError>(t5));
        assert(rolled_back(before, t5) == before);
        if !distinct_keys(seed.characters@) || !characters_resolved(
            seed.characters@,
            seed.locations@,
        ) {
            assert(t5.after(s5[0]) is Err);
            assert(run_from(before, t4, s4, before.locations.len() as int) == (
                before,
                Err::<int, StoreError>(seed.fault()->Some_0),
            )) by {
                reveal_with_fuel(run_from, 3);
            }
        } else {
            let t6 = Tables { characters: seed.characters@, ..t5 };
            assert(t5.after(s5[0]) == Ok::<Tables, StoreError>(t6));
            assert(rolled_back(before, t6) == before);
            if !distinct_keys(seed.episodes@) {
                assert(t6.after(s6[0]) is Err);
                assert(run_from(before, t4, s4, before.locations.len() as int) == (
                    before,
                    Err::<int, StoreError>(seed.fault()->Some_0),
                )) by {
                    reveal_with_fuel(run_from, 4);
                }
            } else {
                let t7 = Tables { episodes: seed.episodes@, ..t6 };
                assert(t6.after(s6[0]) == Ok::<Tables, StoreError>(t7));
                assert(rolled_back(before, t7) == before);
                if !seed.character_episodes@.no_duplicates() || !links_resolved(
                    seed.character_episodes@,
                    seed.characters@,
                    seed.episodes@,
                ) {
                    assert(t7.after(s7[0]) is Err);
                    assert(run_from(before, t4, s4, before.locations.len() as int) == (
                        before,
                        Err::<int, StoreError>(seed.fault()->Some_0),
                    )) by {
                        reveal_with_fuel(run_from, 5);
                    }
                } else {
                    let t8 = Tables { links: seed.character_episodes@, ..t7 };
                    assert(t7.after(s7[0]) == Ok::<Tables, StoreError>(t8));
                    let t9 = Tables {
                        next_character_id: resynced(seed.characters@, before.next_character_id),
                        ..t8
                    };
                    let t10 = Tables {
                        next_location_id: resynced(seed.locations@, before.next_location_id),
                        ..t9
                    };
                    let t11 = Tables {
                        next_episode_id: resynced(seed.episodes@, before.next_episode_id),
                        ..t10
                    };
                    assert(t8.after(s8[0]) == Ok::<Tables, StoreError>(t9));
                    assert(t9.after(s9[0]) == Ok::<Tables, StoreError>(t10));
                    assert(t10.after(s10[0]) == Ok::<Tables, StoreError>(t11));
                    assert(t11 == seed.seeded(before));
                    assert(run_from(before, t4, s4, before.locations.len() as int) == run_from(
                        before,
                        t8,
                        s8,
                        seed.character_episodes@.len() as int,
                    )) by {
                        reveal_with_fuel(run_from, 5);
                    }
                    assert(run_from(before, t8, s8, seed.character_episodes@.len() as int) == (
                        t11,
                        Ok::<int, StoreError>(0),
                    )) by {
                        reveal_with_fuel(run_from, 5);
                    }
                }
            }
        }
    }
    if !distinct_keys(seed.locations@) {
        assert(run_from(before, t4, s4, before.locations.len() as int) == (
            before,
            Err::<int, StoreError>(StoreError::UniqueViolation),
        )) by {
            reveal_with_fuel(run_from, 2);
        }
    }
}

/// Replaces every row of the store by the rows of `seed`, as one transaction,
/// and moves each id sequence behind the greatest id that was loaded. If the
/// seed breaks a constraint, the store keeps the rows it had.
pub fn reset_db(store: &mut Store, seed: SeedData) -> (r: Result<(), StoreError>)
    requires
        old(store)@.consistent(),
    ensures
        final(store)@.consistent(),
        final(store)@ == run(old(store)@, reset_script(seed)).0,
        match seed.fault() {
            None => r is Ok && final(store)@ == seed.seeded(old(store)@),
            Some(e) => r == Err::<(), StoreError>(e) && final(store)@ == old(store)@,
        },
{
    proof {
        law_reseed_all_or_nothing(store@, seed);
    }
    match store.run_all(reset_steps(seed)) {
        Ok(_) => Ok(()),
        Err(e) => Err(e),
    }
}

/// A row count as a counter holds it: the count itself where it fits 32 bits,
/// else its low 32 bits.
pub open spec fn counted(rows: nat) -> i32 {
    (rows as i64) as i32
}

/// The row counts of `tables` as the counters hold them.
pub open spec fn counts_of(tables: Tables) -> DbCounts {
    DbCounts {
        character: counted(tables.characters.len()),
        location: counted(tables.locations.len()),
        episode: counted(tables.episodes.len()),
    }
}

/// Whether the cache counts, for each entity type, the rows that the store
/// holds.
pub open spec fn cache_matches(counts: DbCounts, tables: Tables) -> bool {
    &&& counts.of(EntityKind::Character) == tables.count(EntityKind::Character)
    &&& counts.of(EntityKind::Location) == tables.count(EntityKind::Location)
    &&& counts.of(EntityKind::Episode) == tables.count(EntityKind::Episode)
}

/// Whether the row count of each entity table fits a counter.
pub open spec fn countable(tables: Tables) -> bool {
    &&& tables.characters.len() <= i32::MAX
    &&& tables.locations.len() <= i32::MAX
    &&& tables.episodes.len() <= i32::MAX
}

/// The number of rows of `kind` in the store.
pub fn get_count(store: &Store, kind: EntityKind) -> (r: i64)
    ensures
        r == store@.count(kind) as i64,
        store@.count(kind) <= i64::MAX ==> r == store@.count(kind),
{
    #[verifier::truncate]
    (store.count(kind) as i64)
}

/// The row counts of the three entity tables, each as a counter holds it.
pub fn get_all_counts(store: &Store) -> (r: DbCounts)
    ensures
        r == counts_of(store@),
        countable(store@) ==> cache_matches(r, store@),
{
    DbCounts {
        character: #[verifier::truncate]
        (get_count(store, EntityKind::Character) as i32),
        location: #[verifier::truncate]
        (get_count(store, EntityKind::Location) as i32),
        episode: #[verifier::truncate]
        (get_count(store, EntityKind::Episode) as i32),
    }
}

/// Whether the row count of each entity table of the seed fits a counter.
pub open spec fn seed_countable(seed: SeedData) -> bool {
    &&& seed.characters@.len() <= i32::MAX
    &&& seed.locations@.len() <= i32::MAX
    &&& seed.episodes@.len() <= i32::MAX
}

/// Prepares the store at start-up: a store without characters is reseeded
/// from `seed`, any other store is left as it is. Returns the row counts that
/// the count cache starts from.
pub fn init_db(store: &mut Store, seed: SeedData) -> (r: Result<DbCounts, StoreError>)
    requires
        old(store)@.consistent(),
    ensures
        final(store)@.consistent(),
        old(store)@.characters.len() > 0 ==> final(store)@ == old(store)@ && r == Ok::<
            DbCounts,
            StoreError,
        >(counts_of(old(store)@)),
        old(store)@.characters.len() == 0 ==> match seed.fault() {
            None => final(store)@ == seed.seeded(old(store)@) && r == Ok::<DbCounts, StoreError>(
                counts_of(seed.seeded(old(store)@)),
            ),
            Some(e) => final(store)@ == old(store)@ && r == Err::<DbCounts, StoreError>(e),
        },
        r matches Ok(counts) ==> (countable(final(store)@) ==> cache_matches(
            counts,
            final(store)@,
        )),
{
    if store.count(EntityKind::Character) == 0 {
        match reset_db(store, seed) {
            Ok(_) => {},
            Err(e) => {
                return Err(e);
            },
        }
    }
    Ok(get_all_counts(store))
}

/// After a reseed no id is issued twice: the character that is created next
/// gets an id above every character id of the seed, and its insert does not
/// collide with a character of the seed.
pub proof fn law_reseed_resynchronizes_ids(
    before: Tables,
    seed: SeedData,
    creator: CharacterCreator,
    episode_ids: Seq<i32>,
)
    requires
        before.consistent(),
        seed.valid(),
    ensures
        seed.seeded(before).consistent(),
        seed.seeded(before).sequences_ahead(),
        seed.seeded(before).create_character(creator).1 != Err::<Character, StoreError>(
            StoreError::UniqueViolation,
        ),
        created(seed.seeded(before), creator, episode_ids).1 matches Ok(row) ==> forall|i: int|
            0 <= i < seed.characters@.len() ==> (#[trigger] seed.characters@[i]).id < row.id,
{
    law_reseed_all_or_nothing(before, seed);
    lemma_max_key(seed.characters@);
    lemma_max_key(seed.locations@);
    lemma_max_key(seed.episodes@);
    law_created_keeps_sequences_ahead(seed.seeded(before), creator, episode_ids);
}


} // verus!
