//! Locations: the rows, and what a create or an update carries.

use vstd::prelude::*;
use crate::db::{cache_matches, EntityKind};
use crate::graphql::character_model::Character;
use crate::graphql::context::{after_step, CounterStep, Ctx};
use crate::memory::Store;
use crate::store::{
    characters_at, cleared, has_key, law_created_location_is_new,
    lemma_ahead_with_reference_cleared, lemma_ahead_with_replaced, lemma_ahead_without_key,
    lemma_without_key, location_in_use, refers_to, run, run_from, with_reference_cleared,
    without_key, Reference, Statement, StoreError, Tables,
};

verus! {

/// One row of the location table.
#[derive(Debug)]
pub struct Location {
    pub id: i32,
    pub name: String,
    pub type_: String,
    pub dimension: String,
}

impl Location {
    pub fn id(&self) -> (r: i32)
        ensures
            r == self.id,
    {
        self.id
    }

    pub fn name(&self) -> (r: &str)
        ensures
            r@ == self.name@,
    {
        self.name.as_str()
    }

    pub fn type_(&self) -> (r: &str)
        ensures
            r@ == self.type_@,
    {
        self.type_.as_str()
    }

    pub fn dimension(&self) -> (r: &str)
        ensures
            r@ == self.dimension@,
    {
        self.dimension.as_str()
    }

    /// A copy of the row, field for field.
    pub fn duplicate(&self) -> (r: Location)
        ensures
            r == *self,
    {
        Location {
            id: self.id,
            name: self.name.clone(),
            type_: self.type_.clone(),
            dimension: self.dimension.clone(),
        }
    }
}

/// A full replacement for the location with the given id.
#[derive(Debug)]
pub struct LocationUpdater {
    pub id: i32,
    pub name: String,
    pub type_: String,
    pub dimension: String,
}

impl LocationUpdater {
    /// The row that the update leaves in the table.
    pub open spec fn row(self) -> Location {
        Location { id: self.id, name: self.name, type_: self.type_, dimension: self.dimension }
    }

    pub fn into_row(self) -> (r: Location)
        ensures
            r == self.row(),
    {
        Location { id: self.id, name: self.name, type_: self.type_, dimension: self.dimension }
    }
}

/// A new location; the store assigns its id.
#[derive(Debug)]
pub struct LocationCreator {
    pub name: String,
    pub type_: String,
    pub dimension: String,
}

impl LocationCreator {
    /// The row that is inserted when the store assigns `id`.
    pub open spec fn row(self, id: i32) -> Location {
        Location { id, name: self.name, type_: self.type_, dimension: self.dimension }
    }

    pub fn into_row(self, id: i32) -> (r: Location)
        ensures
            r == self.row(id),
    {
        Location { id, name: self.name, type_: self.type_, dimension: self.dimension }
    }
}

impl Location {
    /// The characters that come from this location.
    pub fn characters_with_origin(&self, store: &Store) -> (r: Vec<Character>)
        ensures
            r@ == characters_at(store@.characters, Reference::Origin, self.id),
    {
        store.characters_at(Reference::Origin, self.id)
    }

    /// The characters that are at this location now.
    pub fn characters_with_location(&self, store: &Store) -> (r: Vec<Character>)
        ensures
            r@ == characters_at(store@.characters, Reference::Location, self.id),
    {
        store.characters_at(Reference::Location, self.id)
    }
}

/// The statements that delete the location `id`: first the references to it
/// are set to none, as origin and as current location, then the location is
/// deleted.
pub open spec fn delete_location_script(id: i32) -> Seq<Statement> {
    seq![Statement::ClearOrigin(id), Statement::ClearLocation(id), Statement::DeleteLocation(id)]
}

/// The store after the location `id` is deleted: no character refers to it
/// any more, and every character is still there.
pub open spec fn without_location(before: Tables, id: i32) -> Tables {
    Tables {
        characters: with_reference_cleared(
            with_reference_cleared(before.characters, Reference::Origin, id),
            Reference::Location,
            id,
        ),
        locations: without_key(before.locations, id),
        ..before
    }
}

/// Deleting a location always goes through: once the references to it are set
/// to none nothing refers to it. It leaves every character in place, with a
/// reference set to none where it named the location and all else unchanged,
/// and reports one row if the location was there.
pub proof fn law_delete_location(before: Tables, id: i32)
    requires
        before.consistent(),
    ensures
        run(before, delete_location_script(id)) == (
            without_location(before, id),
            Ok::<int, StoreError>(
                if has_key(before.locations, id) {
                    1int
                } else {
                    0int
                },
            ),
        ),
        without_location(before, id).characters.len() == before.characters.len(),
        forall|i: int|
            0 <= i < before.characters.len() ==> {
                let was = before.characters[i];
                let is = #[trigger] without_location(before, id).characters[i];
                &&& is.id == was.id
                &&& is.name == was.name
                &&& is.status == was.status
                &&& is.species == was.species
                &&& is.gender == was.gender
                &&& is.type_ == was.type_
                &&& is.origin_id == if was.origin_id == Some(id) {
                    None
                } else {
                    was.origin_id
                }
                &&& is.location_id == if was.location_id == Some(id) {
                    None
                } else {
                    was.location_id
                }
            },
        without_location(before, id).links == before.links,
        without_location(before, id).episodes == before.episodes,
        forall|k: i32|
            has_key(without_location(before, id).locations, k) <==> has_key(before.locations, k)
                && k != id,
        before.sequences_ahead() ==> without_location(before, id).sequences_ahead(),
{
    lemma_without_key(before.locations, id);
    if before.sequences_ahead() {
        lemma_ahead_without_key(before.locations, id, before.next_location_id);
        lemma_ahead_with_reference_cleared(
            before.characters,
            Reference::Origin,
            id,
            before.next_character_id,
        );
        lemma_ahead_with_reference_cleared(
            with_reference_cleared(before.characters, Reference::Origin, id),
            Reference::Location,
            id,
            before.next_character_id,
        );
    }
    let script = delete_location_script(id);
    let s1 = script.drop_first();
    let s2 = s1.drop_first();
    let c1 = with_reference_cleared(before.characters, Reference::Origin, id);
    let c2 = with_reference_cleared(c1, Reference::Location, id);
    let t1 = Tables { characters: c1, ..before };
    let t2 = Tables { characters: c2, ..t1 };
    assert(before.after(script[0]) == Ok::<Tables, StoreError>(t1));
    assert(s1[0] == Statement::ClearLocation(id));
    assert(t1.after(s1[0]) == Ok::<Tables, StoreError>(t2));
    assert(s2[0] == Statement::DeleteLocation(id));
    assert(s2.drop_first().len() == 0);
    assert(!location_in_use(c2, id)) by {
        assert forall|i: int| 0 <= i < c2.len() implies !refers_to(#[trigger] c2[i], id) by {
            assert(c1[i] == cleared(before.characters[i], Reference::Origin, id));
            assert(c2[i] == cleared(c1[i], Reference::Location, id));
        }
    }
    assert(t2.after(s2[0]) == Ok::<Tables, StoreError>(without_location(before, id)));
    reveal_with_fuel(run_from, 4);
}

/// The writes on locations.
pub struct LocationMutation;

impl LocationMutation {
    /// Creates a location and counts it.
    pub fn create_location(creator: LocationCreator, store: &mut Store, context: &mut Ctx) -> (r:
        Result<Location, StoreError>)
        requires
            old(store)@.consistent(),
            old(store)@.create_location(creator).1 is Ok ==> old(context)@.of(
                EntityKind::Location,
            ) < i32::MAX,
        ensures
            final(store)@.consistent(),
            final(store)@ == old(store)@.create_location(creator).0,
            r == old(store)@.create_location(creator).1,
            old(store)@.sequences_ahead() ==> final(store)@.sequences_ahead(),
            cache_matches(old(context)@, old(store)@) ==> cache_matches(
                final(context)@,
                final(store)@,
            ),
            final(context)@.of(EntityKind::Location) == if r is Ok {
                after_step(old(context)@.of(EntityKind::Location), CounterStep::Increment)
            } else {
                old(context)@.of(EntityKind::Location)
            },
            final(context)@.of(EntityKind::Character) == old(context)@.of(EntityKind::Character),
            final(context)@.of(EntityKind::Episode) == old(context)@.of(EntityKind::Episode),
    {
        proof {
            if store@.sequences_ahead() {
                law_created_location_is_new(store@, creator);
            }
        }
        match store.create_location(creator) {
            Ok(location) => {
                context.increment(EntityKind::Location);
                Ok(location)
            },
            Err(e) => Err(e),
        }
    }

    /// The statements that delete the location `id`.
    pub fn delete_location_steps(id: i32) -> (r: Vec<Statement>)
        ensures
            r@ == delete_location_script(id),
    {
        let mut steps: Vec<Statement> = Vec::new();
        steps.push(Statement::ClearOrigin(id));
        steps.push(Statement::ClearLocation(id));
        steps.push(Statement::DeleteLocation(id));
        assert(steps@ =~= delete_location_script(id));
        steps
    }

    /// Deletes the location `id`; characters that referred to it stay and
    /// refer to none. Counts one location less if it was there, and says
    /// whether it was.
    pub fn delete_location(id: i32, store: &mut Store, context: &mut Ctx) -> (r: Result<
        bool,
        StoreError,
    >)
        requires
            old(store)@.consistent(),
            has_key(old(store)@.locations, id) ==> old(context)@.of(EntityKind::Location)
                > i32::MIN,
        ensures
            final(store)@.consistent(),
            final(store)@ == without_location(old(store)@, id),
            r == Ok::<bool, StoreError>(has_key(old(store)@.locations, id)),
            old(store)@.sequences_ahead() ==> final(store)@.sequences_ahead(),
            cache_matches(old(context)@, old(store)@) ==> cache_matches(
                final(context)@,
                final(store)@,
            ),
            final(context)@.of(EntityKind::Location) == if has_key(old(store)@.locations, id) {
                after_step(old(context)@.of(EntityKind::Location), CounterStep::Decrement)
            } else {
                old(context)@.of(EntityKind::Location)
            },
            final(context)@.of(EntityKind::Character) == old(context)@.of(EntityKind::Character),
            final(context)@.of(EntityKind::Episode) == old(context)@.of(EntityKind::Episode),
    {
        proof {
            law_delete_location(store@, id);
        }
        match store.run_all(Self::delete_location_steps(id)) {
            Ok(affected) => Ok(context.settle_delete(EntityKind::Location, affected)),
            Err(e) => Err(e),
        }
    }

    /// Replaces the location with the id of `updater`.
    pub fn update_location(updater: LocationUpdater, store: &mut Store) -> (r: Result<
        Location,
        StoreError,
    >)
        requires
            old(store)@.consistent(),
        ensures
            final(store)@.consistent(),
            match old(store)@.save_location(updater) {
                Ok(next) => final(store)@ == next && r == Ok::<Location, StoreError>(updater.row()),
                Err(e) => final(store)@ == old(store)@ && r == Err::<Location, StoreError>(e),
            },
            old(store)@.sequences_ahead() ==> final(store)@.sequences_ahead(),
    {
        proof {
            if store@.sequences_ahead() && has_key(store@.locations, updater.id) {
                lemma_ahead_with_replaced(store@.locations, updater.row(), store@.next_location_id);
            }
        }
        store.save_location(updater)
    }
}


} // verus!
