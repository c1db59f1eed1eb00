//! Episodes and the character/episode relation: the rows, and what a create
//! or an update carries.

use vstd::prelude::*;
use crate::db::{cache_matches, EntityKind};
use crate::graphql::character_model::Character;
use crate::graphql::context::{after_step, CounterStep, Ctx};
use crate::memory::Store;
use crate::store::{
    avoids, has_key, law_created_episode_is_new, lemma_ahead_with_replaced, lemma_ahead_without_key,
    lemma_filtered_links, lemma_links_without, lemma_without_key, links_without, related, run,
    run_from, without_key, LinkEnd, Statement, StoreError, Tables,
};

verus! {

/// One row of the episode table.
#[derive(Debug)]
pub struct Episode {
    pub id: i32,
    pub name: String,
    pub air_date: String,
    pub code: String,
}

/// One row of the relation "character appears in episode".
#[derive(Clone, Copy, Debug, PartialEq, Eq, Structural)]
pub struct CharacterEpisode {
    pub character_id: i32,
    pub episode_id: i32,
}

impl Episode {
    pub fn id(&self) -> (r: i32)
        ensures
            r == self.id,
    {
        self.id
    }

    pub fn name(&self) -> (r: &str)
        ensures
            r@ == self.name@,
    {
        self.name.as_str()
    }

    pub fn air_date(&self) -> (r: &str)
        ensures
            r@ == self.air_date@,
    {
        self.air_date.as_str()
    }

    pub fn code(&self) -> (r: &str)
        ensures
            r@ == self.code@,
    {
        self.code.as_str()
    }

    /// A copy of the row, field for field.
    pub fn duplicate(&self) -> (r: Episode)
        ensures
            r == *self,
    {
        Episode {
            id: self.id,
            name: self.name.clone(),
            air_date: self.air_date.clone(),
            code: self.code.clone(),
        }
    }
}

/// A full replacement for the episode with the given id.
#[derive(Debug)]
pub struct EpisodeUpdater {
    pub id: i32,
    pub name: String,
    pub air_date: String,
    pub code: String,
}

impl EpisodeUpdater {
    /// The row that the update leaves in the table.
    pub open spec fn row(self) -> Episode {
        Episode { id: self.id, name: self.name, air_date: self.air_date, code: self.code }
    }

    pub fn into_row(self) -> (r: Episode)
        ensures
            r == self.row(),
    {
        Episode { id: self.id, name: self.name, air_date: self.air_date, code: self.code }
    }
}

/// A new episode; the store assigns its id.
#[derive(Debug)]
pub struct EpisodeCreator {
    pub name: String,
    pub air_date: String,
    pub code: String,
}

impl EpisodeCreator {
    /// The row that is inserted when the store assigns `id`.
    pub open spec fn row(self, id: i32) -> Episode {
        Episode { id, name: self.name, air_date: self.air_date, code: self.code }
    }

    pub fn into_row(self, id: i32) -> (r: Episode)
        ensures
            r == self.row(id),
    {
        Episode { id, name: self.name, air_date: self.air_date, code: self.code }
    }
}

impl Episode {
    /// The characters that appear in the episode, in the order of the
    /// relation.
    pub fn characters(&self, store: &Store) -> (r: Vec<Character>)
        requires
            store@.consistent(),
        ensures
            r@ == related(store@.links, LinkEnd::Episode, self.id, store@.characters),
    {
        store.characters_of(self.id)
    }
}

/// The statements that delete the episode `id`: first its relation rows, then
/// the episode.
pub open spec fn delete_episode_script(id: i32) -> Seq<Statement> {
    seq![Statement::DeleteRelationsOfEpisode(id), Statement::DeleteEpisode(id)]
}

/// The store after the episode `id` and its relation rows are deleted.
pub open spec fn without_episode(before: Tables, id: i32) -> Tables {
    Tables {
        links: links_without(before.links, LinkEnd::Episode, id),
        episodes: without_key(before.episodes, id),
        ..before
    }
}

/// Deleting an episode always goes through: once its relation rows are gone
/// nothing refers to it. It leaves the store without the episode and without
/// its relation rows, and reports one row if the episode was there.
pub proof fn law_delete_episode(before: Tables, id: i32)
    requires
        before.consistent(),
    ensures
        run(before, delete_episode_script(id)) == (
            without_episode(before, id),
            Ok::<int, StoreError>(
                if has_key(before.episodes, id) {
                    1int
                } else {
                    0int
                },
            ),
        ),
        forall|link: CharacterEpisode| #[trigger]
            without_episode(before, id).links.contains(link) <==> before.links.contains(link)
                && link.episode_id != id,
        forall|k: i32|
            has_key(without_episode(before, id).episodes, k) <==> has_key(before.episodes, k) && k
                != id,
        without_episode(before, id).episodes.len() == before.episodes.len() - if has_key(
            before.episodes,
            id,
        ) {
            1int
        } else {
            0int
        },
        without_episode(before, id).characters == before.characters,
        without_episode(before, id).locations == before.locations,
        before.sequences_ahead() ==> without_episode(before, id).sequences_ahead(),
{
    lemma_filtered_links(before.links, avoids(LinkEnd::Episode, id));
    lemma_without_key(before.episodes, id);
    if before.sequences_ahead() {
        lemma_ahead_without_key(before.episodes, id, before.next_episode_id);
    }
    let script = delete_episode_script(id);
    let rest = script.drop_first();
    lemma_links_without(before, LinkEnd::Episode, id);
    let t1 = Tables { links: links_without(before.links, LinkEnd::Episode, id), ..before };
    assert(before.after(script[0]) == Ok::<Tables, StoreError>(t1));
    assert(rest[0] == Statement::DeleteEpisode(id));
    assert(t1.after(rest[0]) == Ok::<Tables, StoreError>(without_episode(before, id)));
    assert(rest.drop_first().len() == 0);
    reveal_with_fuel(run_from, 3);
}

/// The writes on episodes.
pub struct EpisodeMutation;

impl EpisodeMutation {
    /// Creates an episode and counts it.
    pub fn create_episode(creator: EpisodeCreator, store: &mut Store, context: &mut Ctx) -> (r:
        Result<Episode, StoreError>)
        requires
            old(store)@.consistent(),
            old(store)@.create_episode(creator).1 is Ok ==> old(context)@.of(EntityKind::Episode)
                < i32::MAX,
        ensures
            final(store)@.consistent(),
            final(store)@ == old(store)@.create_episode(creator).0,
            r == old(store)@.create_episode(creator).1,
            old(store)@.sequences_ahead() ==> final(store)@.sequences_ahead(),
            cache_matches(old(context)@, old(store)@) ==> cache_matches(
                final(context)@,
                final(store)@,
            ),
            final(context)@.of(EntityKind::Episode) == if r is Ok {
                after_step(old(context)@.of(EntityKind::Episode), CounterStep::Increment)
            } else {
                old(context)@.of(EntityKind::Episode)
            },
            final(context)@.of(EntityKind::Character) == old(context)@.of(EntityKind::Character),
            final(context)@.of(EntityKind::Location) == old(context)@.of(EntityKind::Location),
    {
        proof {
            if store@.sequences_ahead() {
                law_created_episode_is_new(store@, creator);
            }
        }
        match store.create_episode(creator) {
            Ok(episode) => {
                context.increment(EntityKind::Episode);
                Ok(episode)
            },
            Err(e) => Err(e),
        }
    }

    /// The statements that delete the episode `id`.
    pub fn delete_episode_steps(id: i32) -> (r: Vec<Statement>)
        ensures
            r@ == delete_episode_script(id),
    {
        let mut steps: Vec<Statement> = Vec::new();
        steps.push(Statement::DeleteRelationsOfEpisode(id));
        steps.push(Statement::DeleteEpisode(id));
        assert(steps@ =~= delete_episode_script(id));
        steps
    }

    /// Deletes the episode `id` with its relation rows, and counts one episode
    /// less if it was there. Says whether it was.
    pub fn delete_episode(id: i32, store: &mut Store, context: &mut Ctx) -> (r: Result<
        bool,
        StoreError,
    >)
        requires
            old(store)@.consistent(),
            has_key(old(store)@.episodes, id) ==> old(context)@.of(EntityKind::Episode) > i32::MIN,
        ensures
            final(store)@.consistent(),
            final(store)@ == without_episode(old(store)@, id),
            r == Ok::<bool, StoreError>(has_key(old(store)@.episodes, id)),
            old(store)@.sequences_ahead() ==> final(store)@.sequences_ahead(),
            cache_matches(old(context)@, old(store)@) ==> cache_matches(
                final(context)@,
                final(store)@,
            ),
            final(context)@.of(EntityKind::Episode) == if has_key(old(store)@.episodes, id) {
                after_step(old(context)@.of(EntityKind::Episode), CounterStep::Decrement)
            } else {
                old(context)@.of(EntityKind::Episode)
            },
            final(context)@.of(EntityKind::Character) == old(context)@.of(EntityKind::Character),
            final(context)@.of(EntityKind::Location) == old(context)@.of(EntityKind::Location),
    {
        proof {
            law_delete_episode(store@, id);
        }
        match store.run_all(Self::delete_episode_steps(id)) {
            Ok(affected) => Ok(context.settle_delete(EntityKind::Episode, affected)),
            Err(e) => Err(e),
        }
    }

    /// Replaces the episode with the id of `updater`.
    pub fn update_episode(updater: EpisodeUpdater, store: &mut Store) -> (r: Result<
        Episode,
        StoreError,
    >)
        requires
            old(store)@.consistent(),
        ensures
            final(store)@.consistent(),
            match old(store)@.save_episode(updater) {
                Ok(next) => final(store)@ == next && r == Ok::<Episode, StoreError>(updater.row()),
                Err(e) => final(store)@ == old(store)@ && r == Err::<Episode, StoreError>(e),
            },
            old(store)@.sequences_ahead() ==> final(store)@.sequences_ahead(),
    {
        proof {
            if store@.sequences_ahead() && has_key(store@.episodes, updater.id) {
                lemma_ahead_with_replaced(store@.episodes, updater.row(), store@.next_episode_id);
            }
        }
        store.save_episode(updater)
    }
}


} // verus!
