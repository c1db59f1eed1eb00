//! Characters: the rows, and what a create or an update carries.

use vstd::prelude::*;
use crate::db::{cache_matches, EntityKind};
use crate::graphql::context::{after_step, CounterStep, Ctx};
use crate::graphql::episode_model::{CharacterEpisode, Episode};
use crate::graphql::location_model::Location;
use crate::memory::Store;
use crate::store::{
    avoids, found, has_key, law_created_character_is_new, lemma_ahead_with_replaced,
    lemma_ahead_without_key, lemma_filtered_links, lemma_links_without, lemma_without_key,
    links_without, related, rolled_back, run, run_from, without_key, LinkEnd, Statement, StoreError,
    Tables,
};

verus! {

/// One row of the character table. `origin_id` and `location_id` refer to
/// locations, or to none.
#[derive(Debug)]
pub struct Character {
    pub id: i32,
    pub name: String,
    pub status: String,
    pub species: String,
    pub gender: String,
    pub type_: Option<String>,
    pub origin_id: Option<i32>,
    pub location_id: Option<i32>,
}

/// A copy of an optional string.
pub fn duplicate_text(text: &Option<String>) -> (r: Option<String>)
    ensures
        r == *text,
{
    match text {
        Some(s) => Some(s.clone()),
        None => None,
    }
}

impl Character {
    pub fn id(&self) -> (r: i32)
        ensures
            r == self.id,
    {
        self.id
    }

    pub fn name(&self) -> (r: &str)
        ensures
            r@ == self.name@,
    {
        self.name.as_str()
    }

    pub fn status(&self) -> (r: &str)
        ensures
            r@ == self.status@,
    {
        self.status.as_str()
    }

    pub fn species(&self) -> (r: &str)
        ensures
            r@ == self.species@,
    {
        self.species.as_str()
    }

    pub fn gender(&self) -> (r: &str)
        ensures
            r@ == self.gender@,
    {
        self.gender.as_str()
    }

    pub fn origin_id(&self) -> (r: &Option<i32>)
        ensures
            *r == self.origin_id,
    {
        &self.origin_id
    }

    pub fn location_id(&self) -> (r: &Option<i32>)
        ensures
            *r == self.location_id,
    {
        &self.location_id
    }

    pub fn type_(&self) -> (r: &Option<String>)
        ensures
            *r == self.type_,
    {
        &self.type_
    }

    /// The row with its origin set to none.
    pub open spec fn without_origin(self) -> Character {
        Character { origin_id: None, ..self }
    }

    /// The row with its current location set to none.
    pub open spec fn without_location(self) -> Character {
        Character { location_id: None, ..self }
    }

    /// A copy of the row, field for field.
    pub fn duplicate(&self) -> (r: Character)
        ensures
            r == *self,
    {
        Character {
            id: self.id,
            name: self.name.clone(),
            status: self.status.clone(),
            species: self.species.clone(),
            gender: self.gender.clone(),
            type_: duplicate_text(&self.type_),
            origin_id: self.origin_id,
            location_id: self.location_id,
        }
    }
}

/// A new character; the store assigns its id.
#[derive(Debug)]
pub struct CharacterCreator {
    pub name: String,
    pub status: String,
    pub species: String,
    pub gender: String,
    pub type_: Option<String>,
    pub origin_id: Option<i32>,
    pub location_id: Option<i32>,
}

impl CharacterCreator {
    /// The row that is inserted when the store assigns `id`.
    pub open spec fn row(self, id: i32) -> Character {
        Character {
            id,
            name: self.name,
            status: self.status,
            species: self.species,
            gender: self.gender,
            type_: self.type_,
            origin_id: self.origin_id,
            location_id: self.location_id,
        }
    }

    pub fn into_row(self, id: i32) -> (r: Character)
        ensures
            r == self.row(id),
    {
        Character {
            id,
            name: self.name,
            status: self.status,
            species: self.species,
            gender: self.gender,
            type_: self.type_,
            origin_id: self.origin_id,
            location_id: self.location_id,
        }
    }
}

/// A full replacement for the character with the given id; a field that is
/// `None` is stored as absent.
#[derive(Debug)]
pub struct CharacterUpdater {
    pub id: i32,
    pub name: String,
    pub status: String,
    pub species: String,
    pub gender: String,
    pub type_: Option<String>,
    pub origin_id: Option<i32>,
    pub location_id: Option<i32>,
}

impl CharacterUpdater {
    /// The row that the update leaves in the table.
    pub open spec fn row(self) -> Character {
        Character {
            id: self.id,
            name: self.name,
            status: self.status,
            species: self.species,
            gender: self.gender,
            type_: self.type_,
            origin_id: self.origin_id,
            location_id: self.location_id,
        }
    }

    pub fn into_row(self) -> (r: Character)
        ensures
            r == self.row(),
    {
        Character {
            id: self.id,
            name: self.name,
            status: self.status,
            species: self.species,
            gender: self.gender,
            type_: self.type_,
            origin_id: self.origin_id,
            location_id: self.location_id,
        }
    }
}

/// The episodes in which a character appears.
#[derive(Debug)]
pub struct CharacterRelations {
    pub episode_ids: Vec<i32>,
}

/// The relation rows that tie character `id` to each of `episode_ids`, in the
/// order of the list.
pub open spec fn relation_rows(id: i32, episode_ids: Seq<i32>) -> Seq<CharacterEpisode> {
    Seq::new(
        episode_ids.len(),
        |i: int| CharacterEpisode { character_id: id, episode_id: episode_ids[i] },
    )
}

/// Builds the relation rows of character `id`: one per listed episode, in the
/// order of the list.
pub fn character_relation_rows(id: i32, relations: &CharacterRelations) -> (r: Vec<
    CharacterEpisode,
>)
    ensures
        r@ == relation_rows(id, relations.episode_ids@),
{
    let mut rows: Vec<CharacterEpisode> = Vec::new();
    let mut i: usize = 0;
    while i < relations.episode_ids.len()
        invariant
            i <= relations.episode_ids.len(),
            rows@ == relation_rows(id, relations.episode_ids@.take(i as int)),
        decreases relations.episode_ids.len() - i,
    {
        rows.push(CharacterEpisode { character_id: id, episode_id: relations.episode_ids[i] });
        i = i + 1;
    }
    assert(relations.episode_ids@.take(i as int) == relations.episode_ids@);
    rows
}

impl Character {
    /// The location that the character comes from, if it has one.
    pub fn origin(&self, store: &Store) -> (r: Option<Location>)
        requires
            store@.consistent(),
            self.origin_id matches Some(id) ==> has_key(store@.locations, id),
        ensures
            r == match self.origin_id {
                Some(id) => Some(found(store@.locations, id)->Ok_0),
                None => None,
            },
    {
        match self.origin_id {
            Some(id) => match store.find_location(id) {
                Ok(location) => Some(location),
                Err(_) => None,
            },
            None => None,
        }
    }

    /// The location where the character is now, if it has one.
    pub fn location(&self, store: &Store) -> (r: Option<Location>)
        requires
            store@.consistent(),
            self.location_id matches Some(id) ==> has_key(store@.locations, id),
        ensures
            r == match self.location_id {
                Some(id) => Some(found(store@.locations, id)->Ok_0),
                None => None,
            },
    {
        match self.location_id {
            Some(id) => match store.find_location(id) {
                Ok(location) => Some(location),
                Err(_) => None,
            },
            None => None,
        }
    }

    /// The episodes in which the character appears, in the order of the
    /// relation.
    pub fn episodes(&self, store: &Store) -> (r: Vec<Episode>)
        requires
            store@.consistent(),
        ensures
            r@ == related(store@.links, LinkEnd::Character, self.id, store@.episodes),
    {
        store.episodes_of(self.id)
    }
}

/// The statements that delete the character `id`: first its relation rows,
/// then the character.
pub open spec fn delete_character_script(id: i32) -> Seq<Statement> {
    seq![Statement::DeleteRelationsOfCharacter(id), Statement::DeleteCharacter(id)]
}

/// The store after the character `id` and its relation rows are deleted.
pub open spec fn without_character(before: Tables, id: i32) -> Tables {
    Tables {
        links: links_without(before.links, LinkEnd::Character, id),
        characters: without_key(before.characters, id),
        ..before
    }
}

/// Deleting a character always goes through: once its relation rows are gone
/// nothing refers to it. It leaves the store without the character and
/// without its relation rows, and reports one row if the character was there.
pub proof fn law_delete_character(before: Tables, id: i32)
    requires
        before.consistent(),
    ensures
        run(before, delete_character_script(id)) == (
            without_character(before, id),
            Ok::<int, StoreError>(
                if has_key(before.characters, id) {
                    1int
                } else {
                    0int
                },
            ),
        ),
        forall|link: CharacterEpisode| #[trigger]
            without_character(before, id).links.contains(link) <==> before.links.contains(link)
                && link.character_id != id,
        forall|k: i32|
            has_key(without_character(before, id).characters, k) <==> has_key(
                before.characters,
                k,
            ) && k != id,
        without_character(before, id).characters.len() == before.characters.len() - if has_key(
            before.characters,
            id,
        ) {
            1int
        } else {
            0int
        },
        without_character(before, id).episodes == before.episodes,
        without_character(before, id).locations == before.locations,
        before.sequences_ahead() ==> without_character(before, id).sequences_ahead(),
{
    lemma_filtered_links(before.links, avoids(LinkEnd::Character, id));
    lemma_without_key(before.characters, id);
    if before.sequences_ahead() {
        lemma_ahead_without_key(before.characters, id, before.next_character_id);
    }
    let script = delete_character_script(id);
    let rest = script.drop_first();
    lemma_links_without(before, LinkEnd::Character, id);
    let t1 = Tables { links: links_without(before.links, LinkEnd::Character, id), ..before };
    assert(before.after(script[0]) == Ok::<Tables, StoreError>(t1));
    assert(rest[0] == Statement::DeleteCharacter(id));
    assert(t1.after(rest[0]) == Ok::<Tables, StoreError>(without_character(before, id)));
    assert(rest.drop_first().len() == 0);
    reveal_with_fuel(run_from, 3);
}

/// What creating a character with relations leaves and returns. The character
/// is inserted first; if it is, and episodes are listed, its relation rows
/// follow. If those are refused the character is not kept either, though its
/// id stays issued.
pub open spec fn created(before: Tables, creator: CharacterCreator, episode_ids: Seq<i32>) -> (
    Tables,
    Result<Character, StoreError>,
) {
    let (inserted, made) = before.create_character(creator);
    match made {
        Err(e) => (inserted, Err(e)),
        Ok(row) => if episode_ids.len() == 0 {
            (inserted, Ok(row))
        } else {
            match inserted.with_relations(relation_rows(row.id, episode_ids)) {
                Ok(related) => (related, Ok(row)),
                Err(e) => (rolled_back(before, inserted), Err(e)),
            }
        },
    }
}

/// What updating a character leaves and returns. Where relations are given,
/// the character's relation rows are deleted and the listed ones inserted;
/// then the row is replaced. If any step is refused, nothing changes.
pub open spec fn updated(
    before: Tables,
    updater: CharacterUpdater,
    episode_ids: Option<Seq<i32>>,
) -> (Tables, Result<Character, StoreError>) {
    let related = match episode_ids {
        Some(ids) => (Tables {
            links: links_without(before.links, LinkEnd::Character, updater.id),
            ..before
        }).with_relations(relation_rows(updater.id, ids)),
        None => Ok(before),
    };
    match related {
        Err(e) => (before, Err(e)),
        Ok(tables) => match tables.save_character(updater) {
            Ok(saved) => (saved, Ok(updater.row())),
            Err(e) => (before, Err(e)),
        },
    }
}

/// The episode ids that an update carries, where it carries relations.
pub open spec fn listed(relations: Option<CharacterRelations>) -> Option<Seq<i32>> {
    match relations {
        Some(rel) => Some(rel.episode_ids@),
        None => None,
    }
}

/// Creating a character with relations leaves each id sequence ahead of its
/// table; the insert of the character never collides with a character that is
/// there, and the new character gets an id above every id of the table.
pub proof fn law_created_keeps_sequences_ahead(
    before: Tables,
    creator: CharacterCreator,
    episode_ids: Seq<i32>,
)
    requires
        before.consistent(),
        before.sequences_ahead(),
    ensures
        created(before, creator, episode_ids).0.sequences_ahead(),
        before.create_character(creator).1 != Err::<Character, StoreError>(
            StoreError::UniqueViolation,
        ),
        created(before, creator, episode_ids).1 matches Ok(row) ==> forall|i: int|
            0 <= i < before.characters.len() ==> (#[trigger] before.characters[i]).id < row.id,
{
    law_created_character_is_new(before, creator);
}

/// Updating a character leaves each id sequence ahead of its table.
pub proof fn law_updated_keeps_sequences_ahead(
    before: Tables,
    updater: CharacterUpdater,
    episode_ids: Option<Seq<i32>>,
)
    requires
        before.sequences_ahead(),
    ensures
        updated(before, updater, episode_ids).0.sequences_ahead(),
{
    if has_key(before.characters, updater.id) {
        lemma_ahead_with_replaced(before.characters, updater.row(), before.next_character_id);
    }
}

/// The writes on characters.
pub struct CaracterMutation;

impl CaracterMutation {
    /// The statement that ties the character `id` to the listed episodes; none
    /// where no episode is listed.
    pub fn relation_step(id: i32, relations: &CharacterRelations) -> (r: Option<Statement>)
        ensures
            r is None <==> relations.episode_ids@.len() == 0,
            r matches Some(step) ==> (step matches Statement::LoadRelations(rows) && rows@
                == relation_rows(id, relations.episode_ids@)),
    {
        if relations.episode_ids.len() > 0 {
            Some(Statement::LoadRelations(character_relation_rows(id, relations)))
        } else {
            None
        }
    }

    /// The statements that replace the relation rows of the character `id`:
    /// none where no relations are given, else one that deletes the rows it
    /// has and one that inserts a row for each listed episode.
    pub fn relink_steps(id: i32, relations: &Option<CharacterRelations>) -> (r: Vec<Statement>)
        ensures
            match relations {
                None => r@.len() == 0,
                Some(rel) => {
                    &&& r@.len() == 2
                    &&& r@[0] == Statement::DeleteRelationsOfCharacter(id)
                    &&& r@[1] matches Statement::LoadRelations(rows)
                    &&& rows@ == relation_rows(id, rel.episode_ids@)
                },
            },
    {
        let mut steps: Vec<Statement> = Vec::new();
        if let Some(rel) = relations {
            steps.push(Statement::DeleteRelationsOfCharacter(id));
            steps.push(Statement::LoadRelations(character_relation_rows(id, rel)));
        }
        steps
    }

    /// Creates a character and ties it to the listed episodes, all or
    /// nothing, and counts it.
    pub fn create_character(
        creator: CharacterCreator,
        relations: CharacterRelations,
        store: &mut Store,
        context: &mut Ctx,
    ) -> (r: Result<Character, StoreError>)
        requires
            old(store)@.consistent(),
            created(old(store)@, creator, relations.episode_ids@).1 is Ok ==> old(context)@.of(
                EntityKind::Character,
            ) < i32::MAX,
        ensures
            final(store)@.consistent(),
            final(store)@ == created(old(store)@, creator, relations.episode_ids@).0,
            r == created(old(store)@, creator, relations.episode_ids@).1,
            old(store)@.sequences_ahead() ==> final(store)@.sequences_ahead(),
            cache_matches(old(context)@, old(store)@) ==> cache_matches(
                final(context)@,
                final(store)@,
            ),
            final(context)@.of(EntityKind::Character) == if r is Ok {
                after_step(old(context)@.of(EntityKind::Character), CounterStep::Increment)
            } else {
                old(context)@.of(EntityKind::Character)
            },
            final(context)@.of(EntityKind::Location) == old(context)@.of(EntityKind::Location),
            final(context)@.of(EntityKind::Episode) == old(context)@.of(EntityKind::Episode),
    {
        let snapshot = store.snapshot();
        let ghost before = store@;
        proof {
            if before.sequences_ahead() {
                law_created_keeps_sequences_ahead(before, creator, relations.episode_ids@);
            }
        }
        let character = match store.create_character(creator) {
            Ok(character) => character,
            Err(e) => {
                return Err(e);
            },
        };
        if let Some(step) = Self::relation_step(character.id, &relations) {
            match store.execute(step) {
                Ok(_) => {},
                Err(e) => {
                    assert(snapshot.rows_with_sequences_of(store@) == rolled_back(before, store@));
                    store.restore(snapshot);
                    return Err(e);
                },
            }
        }
        context.increment(EntityKind::Character);
        Ok(character)
    }

    /// The statements that delete the character `id`.
    pub fn delete_character_steps(id: i32) -> (r: Vec<Statement>)
        ensures
            r@ == delete_character_script(id),
    {
        let mut steps: Vec<Statement> = Vec::new();
        steps.push(Statement::DeleteRelationsOfCharacter(id));
        steps.push(Statement::DeleteCharacter(id));
        assert(steps@ =~= delete_character_script(id));
        steps
    }

    /// Deletes the character `id` with its relation rows, and counts one
    /// character less if it was there. Says whether it was.
    pub fn delete_character(id: i32, store: &mut Store, context: &mut Ctx) -> (r: Result<
        bool,
        StoreError,
    >)
        requires
            old(store)@.consistent(),
            has_key(old(store)@.characters, id) ==> old(context)@.of(EntityKind::Character)
                > i32::MIN,
        ensures
            final(store)@.consistent(),
            final(store)@ == without_character(old(store)@, id),
            r == Ok::<bool, StoreError>(has_key(old(store)@.characters, id)),
            old(store)@.sequences_ahead() ==> final(store)@.sequences_ahead(),
            cache_matches(old(context)@, old(store)@) ==> cache_matches(
                final(context)@,
                final(store)@,
            ),
            final(context)@.of(EntityKind::Character) == if has_key(old(store)@.characters, id) {
                after_step(old(context)@.of(EntityKind::Character), CounterStep::Decrement)
            } else {
                old(context)@.of(EntityKind::Character)
            },
            final(context)@.of(EntityKind::Location) == old(context)@.of(EntityKind::Location),
            final(context)@.of(EntityKind::Episode) == old(context)@.of(EntityKind::Episode),
    {
        proof {
            law_delete_character(store@, id);
        }
        match store.run_all(Self::delete_character_steps(id)) {
            Ok(affected) => Ok(context.settle_delete(EntityKind::Character, affected)),
            Err(e) => Err(e),
        }
    }

    /// Replaces the character with the id of `updater` and, where relations
    /// are given, its relation rows, all or nothing.
    pub fn update_character(
        updater: CharacterUpdater,
        relations: Option<CharacterRelations>,
        store: &mut Store,
    ) -> (r: Result<Character, StoreError>)
        requires
            old(store)@.consistent(),
        ensures
            final(store)@.consistent(),
            final(store)@ == updated(old(store)@, updater, listed(relations)).0,
            r == updated(old(store)@, updater, listed(relations)).1,
            old(store)@.sequences_ahead() ==> final(store)@.sequences_ahead(),
    {
        let snapshot = store.snapshot();
        let ghost before = store@;
        proof {
            if before.sequences_ahead() {
                law_updated_keeps_sequences_ahead(before, updater, listed(relations));
            }
        }
        let steps = Self::relink_steps(updater.id, &relations);
        proof {
            lemma_links_without(before, LinkEnd::Character, updater.id);
            let unlinked = Tables {
                links: links_without(before.links, LinkEnd::Character, updater.id),
                ..before
            };
            if relations is Some {
                assert(before.after(steps@[0]) == Ok::<Tables, StoreError>(unlinked));
                assert(steps@.drop_first()[0] == steps@[1]);
                assert(steps@.drop_first().drop_first().len() == 0);
                assert(rolled_back(before, unlinked) == before);
            }
            reveal_with_fuel(run_from, 3);
        }
        match store.run_all(steps) {
            Ok(_) => {},
            Err(e) => {
                return Err(e);
            },
        }
        match store.save_character(updater) {
            Ok(character) => Ok(character),
            Err(e) => {
                assert(snapshot.rows_with_sequences_of(store@) == rolled_back(before, store@));
                store.restore(snapshot);
                Err(e)
            },
        }
    }
}


} // verus!
