//! The entity store as a mathematical object: four tables, three id
//! sequences, the constraints that hold between them, and what each statement
//! does to them.

use vstd::prelude::*;
use crate::db::EntityKind;
use crate::graphql::character_model::{Character, CharacterCreator, CharacterUpdater};
use crate::graphql::episode_model::{CharacterEpisode, Episode, EpisodeCreator, EpisodeUpdater};
use crate::graphql::location_model::{Location, LocationCreator, LocationUpdater};
use crate::pager::Fetch;

verus! {

/// A row with an id that is unique in its table.
pub trait Keyed {
    /// The row's id.
    spec fn key(&self) -> i32;

    /// Reads the row's id.
    fn key_of(&self) -> (k: i32)
        ensures
            k == self.key(),
    ;

    /// A copy of the row, field for field.
    fn copy_of(&self) -> (r: Self) where Self: Sized
        ensures
            r == *self,
    ;
}

impl Keyed for Character {
    open spec fn key(&self) -> i32 {
        self.id
    }

    fn key_of(&self) -> (k: i32) {
        self.id
    }

    fn copy_of(&self) -> (r: Character) {
        self.duplicate()
    }
}

impl Keyed for Location {
    open spec fn key(&self) -> i32 {
        self.id
    }

    fn key_of(&self) -> (k: i32) {
        self.id
    }

    fn copy_of(&self) -> (r: Location) {
        self.duplicate()
    }
}

impl Keyed for Episode {
    open spec fn key(&self) -> i32 {
        self.id
    }

    fn key_of(&self) -> (k: i32) {
        self.id
    }

    fn copy_of(&self) -> (r: Episode) {
        self.duplicate()
    }
}

/// Whether some row of `rows` has the id `id`.
pub open spec fn has_key<T: Keyed>(rows: Seq<T>, id: i32) -> bool {
    exists|i: int| 0 <= i < rows.len() && (#[trigger] rows[i]).key() == id
}

/// Whether no two rows of `rows` share an id.
pub open spec fn distinct_keys<T: Keyed>(rows: Seq<T>) -> bool {
    forall|i: int, j: int|
        0 <= i < j < rows.len() ==> (#[trigger] rows[i]).key() != (#[trigger] rows[j]).key()
}

/// The position of a row with the id `id`, where there is one.
pub open spec fn index_of_key<T: Keyed>(rows: Seq<T>, id: i32) -> int {
    choose|i: int| 0 <= i < rows.len() && (#[trigger] rows[i]).key() == id
}

/// `rows` without the row that has the id `id`.
pub open spec fn without_key<T: Keyed>(rows: Seq<T>, id: i32) -> Seq<T> {
    if has_key(rows, id) {
        rows.remove(index_of_key(rows, id))
    } else {
        rows
    }
}

/// `rows` with the row that has the id of `row` replaced by `row`.
pub open spec fn with_replaced<T: Keyed>(rows: Seq<T>, row: T) -> Seq<T> {
    rows.update(index_of_key(rows, row.key()), row)
}

/// Whether every id in `rows` is below `next`.
pub open spec fn ahead_of<T: Keyed>(rows: Seq<T>, next: int) -> bool {
    forall|i: int| 0 <= i < rows.len() ==> (#[trigger] rows[i]).key() < next
}

/// The greatest id in `rows`; `i32::MIN` for no rows.
pub open spec fn max_key<T: Keyed>(rows: Seq<T>) -> int
    decreases rows.len(),
{
    if rows.len() == 0 {
        i32::MIN as int
    } else {
        let rest = max_key(rows.drop_last());
        if rows.last().key() > rest {
            rows.last().key() as int
        } else {
            rest
        }
    }
}

/// The tables, named for statements that empty one of them.
#[derive(Clone, Copy, Debug, PartialEq, Eq, Structural)]
pub enum Table {
    CharacterEpisode,
    Episode,
    Character,
    Location,
}

/// Why the store refused a statement.
#[derive(Clone, Copy, Debug, PartialEq, Eq, Structural)]
pub enum StoreError {
    /// No row has the id that was asked for.
    NotFound,
    /// A row with that id, or that pair of ids, exists already.
    UniqueViolation,
    /// A row refers to a row that does not exist, or a row that is still
    /// referred to was to be deleted.
    ForeignKeyViolation,
    /// The id sequence has run past the ids that a row can hold.
    IdOutOfRange,
    /// A read asked for a negative offset or a negative number of rows.
    NegativeWindow,
}

/// A statement that changes rows and reports how many.
#[derive(Debug)]
pub enum Statement {
    /// Deletes every row of a table.
    DeleteAll(Table),
    /// Inserts locations with the ids they carry.
    LoadLocations(Vec<Location>),
    /// Inserts characters with the ids they carry.
    LoadCharacters(Vec<Character>),
    /// Inserts episodes with the ids they carry.
    LoadEpisodes(Vec<Episode>),
    /// Inserts relation rows.
    LoadRelations(Vec<CharacterEpisode>),
    /// Moves the id sequence of a table behind the greatest id in it.
    ResyncSequence(EntityKind),
    /// Deletes the relation rows of one character.
    DeleteRelationsOfCharacter(i32),
    /// Deletes the relation rows of one episode.
    DeleteRelationsOfEpisode(i32),
    /// Deletes the character with the given id.
    DeleteCharacter(i32),
    /// Deletes the episode with the given id.
    DeleteEpisode(i32),
    /// Deletes the location with the given id.
    DeleteLocation(i32),
    /// Sets the origin to none where it is the given location.
    ClearOrigin(i32),
    /// Sets the current location to none where it is the given location.
    ClearLocation(i32),
}

/// Whether a reference to a location is absent or names an existing one.
pub open spec fn reference_resolved(reference: Option<i32>, locations: Seq<Location>) -> bool {
    reference matches Some(id) ==> has_key(locations, id)
}

/// Whether both references of `character` are absent or name existing
/// locations.
pub open spec fn character_resolved(character: Character, locations: Seq<Location>) -> bool {
    &&& reference_resolved(character.origin_id, locations)
    &&& reference_resolved(character.location_id, locations)
}

/// Whether every character of `characters` is resolved.
pub open spec fn characters_resolved(characters: Seq<Character>, locations: Seq<Location>) -> bool {
    forall|i: int|
        0 <= i < characters.len() ==> character_resolved(#[trigger] characters[i], locations)
}

/// Whether `link` names an existing character and an existing episode.
pub open spec fn link_resolved(
    link: CharacterEpisode,
    characters: Seq<Character>,
    episodes: Seq<Episode>,
) -> bool {
    &&& has_key(characters, link.character_id)
    &&& has_key(episodes, link.episode_id)
}

/// Whether every row of `links` is resolved.
pub open spec fn links_resolved(
    links: Seq<CharacterEpisode>,
    characters: Seq<Character>,
    episodes: Seq<Episode>,
) -> bool {
    forall|i: int| 0 <= i < links.len() ==> link_resolved(#[trigger] links[i], characters, episodes)
}

/// Whether `character` refers to a location at all.
pub open spec fn refers_somewhere(character: Character) -> bool {
    character.origin_id is Some || character.location_id is Some
}

/// Whether `character` refers to the location `id`, as origin or as current
/// location.
pub open spec fn refers_to(character: Character, id: i32) -> bool {
    character.origin_id == Some(id) || character.location_id == Some(id)
}

/// Whether some character refers to a location.
pub open spec fn any_reference(characters: Seq<Character>) -> bool {
    exists|i: int| 0 <= i < characters.len() && refers_somewhere(#[trigger] characters[i])
}

/// Whether some character refers to the location `id`.
pub open spec fn location_in_use(characters: Seq<Character>, id: i32) -> bool {
    exists|i: int| 0 <= i < characters.len() && refers_to(#[trigger] characters[i], id)
}

/// The two ends of a relation row.
#[derive(Clone, Copy, Debug, PartialEq, Eq, Structural)]
pub enum LinkEnd {
    Character,
    Episode,
}

/// The id at one end of `link`.
pub open spec fn end_of(link: CharacterEpisode, end: LinkEnd) -> i32 {
    match end {
        LinkEnd::Character => link.character_id,
        LinkEnd::Episode => link.episode_id,
    }
}

/// Whether some relation row has `id` at its `end`.
pub open spec fn end_in_use(links: Seq<CharacterEpisode>, end: LinkEnd, id: i32) -> bool {
    exists|i: int| 0 <= i < links.len() && end_of(#[trigger] links[i], end) == id
}

/// The relation rows whose `end` is not `id`.
pub open spec fn avoids(end: LinkEnd, id: i32) -> spec_fn(CharacterEpisode) -> bool {
    |link: CharacterEpisode| end_of(link, end) != id
}

/// The relation rows of `links` whose `end` is not `id`, in their order.
pub open spec fn links_without(links: Seq<CharacterEpisode>, end: LinkEnd, id: i32) -> Seq<
    CharacterEpisode,
> {
    links.filter(avoids(end, id))
}

/// The two references that a character holds to locations.
#[derive(Clone, Copy, Debug, PartialEq, Eq, Structural)]
pub enum Reference {
    Origin,
    Location,
}

/// The reference `which` of `character`.
pub open spec fn reference_of(character: Character, which: Reference) -> Option<i32> {
    match which {
        Reference::Origin => character.origin_id,
        Reference::Location => character.location_id,
    }
}

/// The characters whose reference `which` is the location `id`.
pub open spec fn points_at(which: Reference, id: i32) -> spec_fn(Character) -> bool {
    |character: Character| reference_of(character, which) == Some(id)
}

/// `character` with its reference `which` set to none if it was the location
/// `id`, and unchanged otherwise.
pub open spec fn cleared(character: Character, which: Reference, id: i32) -> Character {
    if reference_of(character, which) == Some(id) {
        match which {
            Reference::Origin => character.without_origin(),
            Reference::Location => character.without_location(),
        }
    } else {
        character
    }
}

/// `characters`, each with its reference `which` set to none if it was the
/// location `id`.
pub open spec fn with_reference_cleared(
    characters: Seq<Character>,
    which: Reference,
    id: i32,
) -> Seq<Character> {
    Seq::new(characters.len(), |i: int| cleared(characters[i], which, id))
}

/// How many of `characters` have the location `id` as their reference
/// `which`.
pub open spec fn pointing_at(characters: Seq<Character>, which: Reference, id: i32) -> nat {
    characters.filter(points_at(which, id)).len()
}

/// The value that an id sequence takes when it is moved behind the rows of
/// its table: one past the greatest id, or `current` for an empty table.
pub open spec fn resynced<T: Keyed>(rows: Seq<T>, current: int) -> int {
    if rows.len() == 0 {
        current
    } else {
        max_key(rows) + 1
    }
}

/// The state of the store: the rows of each table in the order the store
/// keeps them, and the id that each sequence issues next.
pub struct Tables {
    pub characters: Seq<Character>,
    pub locations: Seq<Location>,
    pub episodes: Seq<Episode>,
    pub links: Seq<CharacterEpisode>,
    pub next_character_id: int,
    pub next_location_id: int,
    pub next_episode_id: int,
}

/// Whether `next` is a value that an id sequence can have: an id, or one past
/// the greatest id.
pub open spec fn sequence_in_range(next: int) -> bool {
    i32::MIN <= next <= i32::MAX + 1
}

impl Tables {
    /// The store with no rows, whose sequences start at 1.
    pub open spec fn empty() -> Tables {
        Tables {
            characters: Seq::empty(),
            locations: Seq::empty(),
            episodes: Seq::empty(),
            links: Seq::empty(),
            next_character_id: 1,
            next_location_id: 1,
            next_episode_id: 1,
        }
    }

    /// The constraints of the store: ids are unique in each table, no relation
    /// row occurs twice, every reference names an existing row, and each
    /// sequence is in range.
    pub open spec fn consistent(self) -> bool {
        &&& distinct_keys(self.characters)
        &&& distinct_keys(self.locations)
        &&& distinct_keys(self.episodes)
        &&& self.links.no_duplicates()
        &&& characters_resolved(self.characters, self.locations)
        &&& links_resolved(self.links, self.characters, self.episodes)
        &&& sequence_in_range(self.next_character_id)
        &&& sequence_in_range(self.next_location_id)
        &&& sequence_in_range(self.next_episode_id)
    }

    /// Whether each sequence is ahead of every id in its table, so that the
    /// next id it issues is new.
    pub open spec fn sequences_ahead(self) -> bool {
        &&& ahead_of(self.characters, self.next_character_id)
        &&& ahead_of(self.locations, self.next_location_id)
        &&& ahead_of(self.episodes, self.next_episode_id)
    }

    /// The number of rows of `kind`.
    pub open spec fn count(self, kind: EntityKind) -> nat {
        match kind {
            EntityKind::Character => self.characters.len(),
            EntityKind::Location => self.locations.len(),
            EntityKind::Episode => self.episodes.len(),
        }
    }

    /// The store after a character is created from `creator`, and what the
    /// create returns. The sequence issues its next id whether or not the
    /// insert succeeds; an id that is taken, or a reference to a location that
    /// does not exist, makes it fail.
    pub open spec fn create_character(self, creator: CharacterCreator) -> (Tables, Result<
        Character,
        StoreError,
    >) {
        if self.next_character_id > i32::MAX {
            (self, Err(StoreError::IdOutOfRange))
        } else {
            let row = creator.row(self.next_character_id as i32);
            let advanced = Tables { next_character_id: self.next_character_id + 1, ..self };
            if has_key(self.characters, row.id) {
                (advanced, Err(StoreError::UniqueViolation))
            } else if !character_resolved(row, self.locations) {
                (advanced, Err(StoreError::ForeignKeyViolation))
            } else {
                (Tables { characters: self.characters.push(row), ..advanced }, Ok(row))
            }
        }
    }

    /// The store after an episode is created from `creator`, and what the
    /// create returns.
    pub open spec fn create_episode(self, creator: EpisodeCreator) -> (Tables, Result<
        Episode,
        StoreError,
    >) {
        if self.next_episode_id > i32::MAX {
            (self, Err(StoreError::IdOutOfRange))
        } else {
            let row = creator.row(self.next_episode_id as i32);
            let advanced = Tables { next_episode_id: self.next_episode_id + 1, ..self };
            if has_key(self.episodes, row.id) {
                (advanced, Err(StoreError::UniqueViolation))
            } else {
                (Tables { episodes: self.episodes.push(row), ..advanced }, Ok(row))
            }
        }
    }

    /// The store after a location is created from `creator`, and what the
    /// create returns.
    pub open spec fn create_location(self, creator: LocationCreator) -> (Tables, Result<
        Location,
        StoreError,
    >) {
        if self.next_location_id > i32::MAX {
            (self, Err(StoreError::IdOutOfRange))
        } else {
            let row = creator.row(self.next_location_id as i32);
            let advanced = Tables { next_location_id: self.next_location_id + 1, ..self };
            if has_key(self.locations, row.id) {
                (advanced, Err(StoreError::UniqueViolation))
            } else {
                (Tables { locations: self.locations.push(row), ..advanced }, Ok(row))
            }
        }
    }

    /// The store after the character with the id of `updater` is replaced, or
    /// the reason why it is not: no such character, or a reference to a
    /// location that does not exist.
    pub open spec fn save_character(self, updater: CharacterUpdater) -> Result<Tables, StoreError> {
        if !has_key(self.characters, updater.id) {
            Err(StoreError::NotFound)
        } else if !character_resolved(updater.row(), self.locations) {
            Err(StoreError::ForeignKeyViolation)
        } else {
            Ok(Tables { characters: with_replaced(self.characters, updater.row()), ..self })
        }
    }

    /// The store after the episode with the id of `updater` is replaced.
    pub open spec fn save_episode(self, updater: EpisodeUpdater) -> Result<Tables, StoreError> {
        if !has_key(self.episodes, updater.id) {
            Err(StoreError::NotFound)
        } else {
            Ok(Tables { episodes: with_replaced(self.episodes, updater.row()), ..self })
        }
    }

    /// The store after the location with the id of `updater` is replaced.
    pub open spec fn save_location(self, updater: LocationUpdater) -> Result<Tables, StoreError> {
        if !has_key(self.locations, updater.id) {
            Err(StoreError::NotFound)
        } else {
            Ok(Tables { locations: with_replaced(self.locations, updater.row()), ..self })
        }
    }

    /// The store after the relation rows `rows` are inserted, or the reason why
    /// they are not: a row that is there already or occurs twice, or a row that
    /// names a character or an episode that does not exist.
    pub open spec fn with_relations(self, rows: Seq<CharacterEpisode>) -> Result<
        Tables,
        StoreError,
    > {
        if !(self.links + rows).no_duplicates() {
            Err(StoreError::UniqueViolation)
        } else if !links_resolved(rows, self.characters, self.episodes) {
            Err(StoreError::ForeignKeyViolation)
        } else {
            Ok(Tables { links: self.links + rows, ..self })
        }
    }

    /// The store after `statement`, or the reason why the store refuses it. A
    /// refused statement changes nothing.
    pub open spec fn after(self, statement: Statement) -> Result<Tables, StoreError> {
        match statement {
            Statement::DeleteAll(Table::CharacterEpisode) => Ok(
                Tables { links: Seq::empty(), ..self },
            ),
            Statement::DeleteAll(Table::Episode) => if self.links.len() > 0 {
                Err(StoreError::ForeignKeyViolation)
            } else {
                Ok(Tables { episodes: Seq::empty(), ..self })
            },
            Statement::DeleteAll(Table::Character) => if self.links.len() > 0 {
                Err(StoreError::ForeignKeyViolation)
            } else {
                Ok(Tables { characters: Seq::empty(), ..self })
            },
            Statement::DeleteAll(Table::Location) => if any_reference(self.characters) {
                Err(StoreError::ForeignKeyViolation)
            } else {
                Ok(Tables { locations: Seq::empty(), ..self })
            },
            Statement::LoadLocations(rows) => if !distinct_keys(self.locations + rows@) {
                Err(StoreError::UniqueViolation)
            } else {
                Ok(Tables { locations: self.locations + rows@, ..self })
            },
            Statement::LoadCharacters(rows) => if !distinct_keys(self.characters + rows@) {
                Err(StoreError::UniqueViolation)
            } else if !characters_resolved(rows@, self.locations) {
                Err(StoreError::ForeignKeyViolation)
            } else {
                Ok(Tables { characters: self.characters + rows@, ..self })
            },
            Statement::LoadEpisodes(rows) => if !distinct_keys(self.episodes + rows@) {
                Err(StoreError::UniqueViolation)
            } else {
                Ok(Tables { episodes: self.episodes + rows@, ..self })
            },
            Statement::LoadRelations(rows) => self.with_relations(rows@),
            Statement::ResyncSequence(EntityKind::Character) => Ok(
                Tables {
                    next_character_id: resynced(self.characters, self.next_character_id),
                    ..self
                },
            ),
            Statement::ResyncSequence(EntityKind::Location) => Ok(
                Tables {
                    next_location_id: resynced(self.locations, self.next_location_id),
                    ..self
                },
            ),
            Statement::ResyncSequence(EntityKind::Episode) => Ok(
                Tables { next_episode_id: resynced(self.episodes, self.next_episode_id), ..self },
            ),
            Statement::DeleteRelationsOfCharacter(id) => Ok(
                Tables { links: links_without(self.links, LinkEnd::Character, id), ..self },
            ),
            Statement::DeleteRelationsOfEpisode(id) => Ok(
                Tables { links: links_without(self.links, LinkEnd::Episode, id), ..self },
            ),
            Statement::DeleteCharacter(id) => if end_in_use(self.links, LinkEnd::Character, id) {
                Err(StoreError::ForeignKeyViolation)
            } else {
                Ok(Tables { characters: without_key(self.characters, id), ..self })
            },
            Statement::DeleteEpisode(id) => if end_in_use(self.links, LinkEnd::Episode, id) {
                Err(StoreError::ForeignKeyViolation)
            } else {
                Ok(Tables { episodes: without_key(self.episodes, id), ..self })
            },
            Statement::DeleteLocation(id) => if location_in_use(self.characters, id) {
                Err(StoreError::ForeignKeyViolation)
            } else {
                Ok(Tables { locations: without_key(self.locations, id), ..self })
            },
            Statement::ClearOrigin(id) => Ok(
                Tables {
                    characters: with_reference_cleared(self.characters, Reference::Origin, id),
                    ..self
                },
            ),
            Statement::ClearLocation(id) => Ok(
                Tables {
                    characters: with_reference_cleared(self.characters, Reference::Location, id),
                    ..self
                },
            ),
        }
    }

    /// The number of rows that `statement` reports when the store accepts it:
    /// the rows deleted, inserted or changed; none for a sequence.
    pub open spec fn affected(self, statement: Statement) -> int {
        match statement {
            Statement::DeleteAll(Table::CharacterEpisode) => self.links.len() as int,
            Statement::DeleteAll(Table::Episode) => self.episodes.len() as int,
            Statement::DeleteAll(Table::Character) => self.characters.len() as int,
            Statement::DeleteAll(Table::Location) => self.locations.len() as int,
            Statement::LoadLocations(rows) => rows@.len() as int,
            Statement::LoadCharacters(rows) => rows@.len() as int,
            Statement::LoadEpisodes(rows) => rows@.len() as int,
            Statement::LoadRelations(rows) => rows@.len() as int,
            Statement::ResyncSequence(_) => 0,
            Statement::DeleteRelationsOfCharacter(id) => self.links.len() - links_without(
                self.links,
                LinkEnd::Character,
                id,
            ).len(),
            Statement::DeleteRelationsOfEpisode(id) => self.links.len() - links_without(
                self.links,
                LinkEnd::Episode,
                id,
            ).len(),
            Statement::DeleteCharacter(id) => if has_key(self.characters, id) {
                1
            } else {
                0
            },
            Statement::DeleteEpisode(id) => if has_key(self.episodes, id) {
                1
            } else {
                0
            },
            Statement::DeleteLocation(id) => if has_key(self.locations, id) {
                1
            } else {
                0
            },
            Statement::ClearOrigin(id) => pointing_at(
                self.characters,
                Reference::Origin,
                id,
            ) as int,
            Statement::ClearLocation(id) => pointing_at(
                self.characters,
                Reference::Location,
                id,
            ) as int,
        }
    }
}

/// The rows of `start` with the sequences of `now`: what a transaction leaves
/// when it is undone, since an id that a sequence has issued is not issued
/// again.
pub open spec fn rolled_back(start: Tables, now: Tables) -> Tables {
    Tables {
        characters: start.characters,
        locations: start.locations,
        episodes: start.episodes,
        links: start.links,
        ..now
    }
}

/// What is left of a transaction that began at `start`, stands at `now` and
/// has `script` still to run: the store after the last statement and the rows
/// it reported (`last` where nothing is left to run), or, at the first
/// statement that the store refuses, the rows of `start` and the reason.
pub open spec fn run_from(start: Tables, now: Tables, script: Seq<Statement>, last: int) -> (
    Tables,
    Result<int, StoreError>,
)
    decreases script.len(),
{
    if script.len() == 0 {
        (now, Ok(last))
    } else {
        match now.after(script[0]) {
            Ok(next) => run_from(start, next, script.drop_first(), now.affected(script[0])),
            Err(e) => (rolled_back(start, now), Err(e)),
        }
    }
}

/// What a transaction that runs `script` on `tables` leaves and returns: all
/// of its statements take effect, or none does.
pub open spec fn run(tables: Tables, script: Seq<Statement>) -> (Tables, Result<int, StoreError>) {
    run_from(tables, tables, script, 0)
}

/// What a lookup by id returns: the row with that id, or that there is none.
pub open spec fn found<T: Keyed>(rows: Seq<T>, id: i32) -> Result<T, StoreError> {
    if has_key(rows, id) {
        Ok(rows[index_of_key(rows, id)])
    } else {
        Err(StoreError::NotFound)
    }
}

/// The rows of `rows` from position `offset` on, at most `limit` of them.
pub open spec fn slice_of<T>(rows: Seq<T>, offset: int, limit: int) -> Seq<T> {
    let from = if offset < rows.len() {
        offset
    } else {
        rows.len() as int
    };
    let to = if offset + limit < rows.len() {
        offset + limit
    } else {
        rows.len() as int
    };
    rows.subrange(from, to)
}

/// What a read of `rows` through `fetch` returns: every row, one window, or
/// nothing; a window with a negative offset or limit is refused.
pub open spec fn fetched<T>(rows: Seq<T>, fetch: Fetch) -> Result<Seq<T>, StoreError> {
    match fetch {
        Fetch::All => Ok(rows),
        Fetch::Nothing => Ok(Seq::empty()),
        Fetch::Window { offset, limit } => if offset < 0 || limit < 0 {
            Err(StoreError::NegativeWindow)
        } else {
            Ok(slice_of(rows, offset as int, limit as int))
        },
    }
}

/// The relation rows that have `id` at their `end`.
pub open spec fn names(end: LinkEnd, id: i32) -> spec_fn(CharacterEpisode) -> bool {
    |link: CharacterEpisode| end_of(link, end) == id
}

/// The other end of a relation row.
pub open spec fn opposite(end: LinkEnd) -> LinkEnd {
    match end {
        LinkEnd::Character => LinkEnd::Episode,
        LinkEnd::Episode => LinkEnd::Character,
    }
}

/// The rows of `rows` that the relation ties to `id`: for each relation row
/// with `id` at its `end`, in the order of the relation, the row of `rows`
/// that its other end names.
pub open spec fn related<T: Keyed>(
    links: Seq<CharacterEpisode>,
    end: LinkEnd,
    id: i32,
    rows: Seq<T>,
) -> Seq<T> {
    let own = links.filter(names(end, id));
    Seq::new(own.len(), |i: int| rows[index_of_key(rows, end_of(own[i], opposite(end)))])
}

/// The characters whose reference `which` is the location `id`, in their
/// order.
pub open spec fn characters_at(characters: Seq<Character>, which: Reference, id: i32) -> Seq<
    Character,
> {
    characters.filter(points_at(which, id))
}

/// A row is among the concatenation of two tables exactly when it is among
/// one of them.
pub proof fn lemma_has_key_of_concatenation<T: Keyed>(first: Seq<T>, second: Seq<T>, id: i32)
    ensures
        has_key(first + second, id) <==> has_key(first, id) || has_key(second, id),
{
    let all = first + second;
    if has_key(first, id) {
        let i = index_of_key(first, id);
        assert(all[i] == first[i]);
    }
    if has_key(second, id) {
        let i = index_of_key(second, id);
        assert(all[first.len() + i] == second[i]);
    }
    if has_key(all, id) {
        let i = index_of_key(all, id);
        if i < first.len() {
            assert(all[i] == first[i]);
        } else {
            assert(all[i] == second[i - first.len()]);
        }
    }
}

/// Taking the row with the id `id` out of a table leaves the other rows in
/// their order: the ids stay distinct, and an id is left exactly when it was
/// there and is not `id`.
pub proof fn lemma_without_key<T: Keyed>(rows: Seq<T>, id: i32)
    requires
        distinct_keys(rows),
    ensures
        distinct_keys(without_key(rows, id)),
        !has_key(without_key(rows, id), id),
        forall|k: i32| k != id ==> (has_key(without_key(rows, id), k) <==> has_key(rows, k)),
        forall|i: int|
            0 <= i < without_key(rows, id).len() ==> rows.contains(
                #[trigger] without_key(rows, id)[i],
            ),
        without_key(rows, id).len() == rows.len() - if has_key(rows, id) {
            1int
        } else {
            0int
        },
{
    let left = without_key(rows, id);
    if has_key(rows, id) {
        let at = index_of_key(rows, id);
        rows.remove_ensures(at);
        assert forall|i: int| 0 <= i < left.len() implies rows.contains(#[trigger] left[i]) by {
            if i < at {
                assert(rows[i] == left[i]);
            } else {
                assert(rows[i + 1] == left[i]);
            }
        }
        assert forall|k: i32| k != id implies (has_key(left, k) <==> has_key(rows, k)) by {
            if has_key(rows, k) {
                let j = index_of_key(rows, k);
                if j < at {
                    assert(left[j] == rows[j]);
                } else {
                    assert(left[j - 1] == rows[j]);
                }
            }
            if has_key(left, k) {
                let j = index_of_key(left, k);
                if j < at {
                    assert(left[j] == rows[j]);
                } else {
                    assert(left[j] == rows[j + 1]);
                }
            }
        }
        if has_key(left, id) {
            let j = index_of_key(left, id);
            if j < at {
                assert(left[j] == rows[j]);
            } else {
                assert(left[j] == rows[j + 1]);
            }
        }
    } else {
        assert forall|i: int| 0 <= i < left.len() implies rows.contains(#[trigger] left[i]) by {
            assert(rows[i] == left[i]);
        }
    }
}

/// Filtering relation rows keeps them free of duplicates, keeps only rows
/// that were there, and keeps exactly those that meet the predicate.
pub proof fn lemma_filtered_links(links: Seq<CharacterEpisode>, keep: spec_fn(CharacterEpisode) -> bool)
    requires
        links.no_duplicates(),
    ensures
        links.filter(keep).no_duplicates(),
        links.filter(keep).len() <= links.len(),
        forall|link: CharacterEpisode|
            #[trigger] links.filter(keep).contains(link) <==> links.contains(link) && keep(link),
    decreases links.len(),
{
    reveal(Seq::filter);
    let kept = links.filter(keep);
    if links.len() > 0 {
        let rest = links.drop_last();
        let last = links.last();
        lemma_filtered_links(rest, keep);
        let kept_rest = rest.filter(keep);
        assert forall|link: CharacterEpisode| #[trigger]
            kept.contains(link) <==> links.contains(link) && keep(link) by {
            if kept.contains(link) {
                let i = choose|i: int| 0 <= i < kept.len() && kept[i] == link;
                if keep(last) && i == kept.len() - 1 {
                    assert(links[links.len() - 1] == link);
                } else {
                    assert(kept_rest[i] == link);
                    assert(kept_rest.contains(link));
                    let j = choose|j: int| 0 <= j < rest.len() && rest[j] == link;
                    assert(links[j] == link);
                }
            }
            if links.contains(link) && keep(link) {
                let j = choose|j: int| 0 <= j < links.len() && links[j] == link;
                if j == links.len() - 1 {
                    assert(kept[kept.len() - 1] == link);
                } else {
                    assert(rest[j] == link);
                    assert(rest.contains(link));
                    assert(kept_rest.contains(link));
                    let i = choose|i: int| 0 <= i < kept_rest.len() && kept_rest[i] == link;
                    assert(kept[i] == link);
                }
            }
        }
        if keep(last) {
            assert forall|i: int, j: int| 0 <= i < kept.len() && 0 <= j < kept.len() && i
                != j implies kept[i] != kept[j] by {
                if i == kept.len() - 1 || j == kept.len() - 1 {
                    let other = if i == kept.len() - 1 {
                        j
                    } else {
                        i
                    };
                    assert(kept_rest[other] == kept[other]);
                    assert(kept_rest.contains(kept[other]));
                    if kept[other] == last {
                        let m = choose|m: int| 0 <= m < rest.len() && rest[m] == last;
                        assert(links[m] == links[links.len() - 1]);
                    }
                } else {
                    assert(kept_rest[i] == kept[i] && kept_rest[j] == kept[j]);
                }
            }
        }
    }
}

/// Clearing a reference changes no id and no other field: the ids stay
/// distinct, every id that was there is there, resolved references stay
/// resolved, and no character is left with the cleared reference.
pub proof fn lemma_reference_cleared(
    characters: Seq<Character>,
    locations: Seq<Location>,
    which: Reference,
    id: i32,
)
    ensures
        with_reference_cleared(characters, which, id).len() == characters.len(),
        distinct_keys(characters) ==> distinct_keys(with_reference_cleared(characters, which, id)),
        forall|k: i32|
            has_key(with_reference_cleared(characters, which, id), k) <==> has_key(characters, k),
        characters_resolved(characters, locations) ==> characters_resolved(
            with_reference_cleared(characters, which, id),
            locations,
        ),
        forall|i: int|
            0 <= i < characters.len() ==> reference_of(
                #[trigger] with_reference_cleared(characters, which, id)[i],
                which,
            ) != Some(id),
{
    let after = with_reference_cleared(characters, which, id);
    assert forall|k: i32| has_key(after, k) <==> has_key(characters, k) by {
        if has_key(after, k) {
            let i = index_of_key(after, k);
            assert(characters[i].key() == k);
        }
        if has_key(characters, k) {
            let i = index_of_key(characters, k);
            assert(after[i].key() == k);
        }
    }
    if distinct_keys(characters) {
        assert forall|i: int, j: int| 0 <= i < j < after.len() implies (#[trigger] after[i]).key()
            != (#[trigger] after[j]).key() by {
            assert(characters[i].key() != characters[j].key());
        }
    }
    if characters_resolved(characters, locations) {
        assert forall|i: int| 0 <= i < after.len() implies character_resolved(
            #[trigger] after[i],
            locations,
        ) by {
            assert(character_resolved(characters[i], locations));
        }
    }
}

/// `max_key` bounds every id from above and, for at least one row, is the id
/// of a row.
pub proof fn lemma_max_key<T: Keyed>(rows: Seq<T>)
    ensures
        forall|i: int| 0 <= i < rows.len() ==> (#[trigger] rows[i]).key() <= max_key(rows),
        rows.len() > 0 ==> has_key(rows, max_key(rows) as i32),
        i32::MIN <= max_key(rows) <= i32::MAX,
    decreases rows.len(),
{
    if rows.len() > 0 {
        let rest = rows.drop_last();
        lemma_max_key(rest);
        assert forall|i: int| 0 <= i < rows.len() implies (#[trigger] rows[i]).key() <= max_key(
            rows,
        ) by {
            if i < rows.len() - 1 {
                assert(rest[i] == rows[i]);
            }
        }
        if rows.last().key() >= max_key(rest) {
            assert(rows[rows.len() - 1].key() == max_key(rows));
        } else {
            let w = choose|i: int| 0 <= i < rest.len() && (#[trigger] rest[i]).key() == max_key(rest);
            assert(rows[w] == rest[w]);
        }
    }
}


/// Every statement that the store accepts leaves its constraints in force.
pub proof fn lemma_statement_keeps_consistency(tables: Tables, statement: Statement)
    requires
        tables.consistent(),
        tables.after(statement) is Ok,
    ensures
        tables.after(statement)->Ok_0.consistent(),
{
    let next = tables.after(statement)->Ok_0;
    match statement {
        Statement::DeleteAll(Table::CharacterEpisode) => {},
        Statement::DeleteAll(Table::Episode) => {},
        Statement::DeleteAll(Table::Character) => {},
        Statement::DeleteAll(Table::Location) => {
            assert forall|i: int| 0 <= i < next.characters.len() implies character_resolved(
                #[trigger] next.characters[i],
                next.locations,
            ) by {
                assert(!refers_somewhere(tables.characters[i]));
            }
        },
        Statement::LoadLocations(rows) => {
            lemma_resolved_in_more_locations(tables.characters, tables.locations, rows@);
        },
        Statement::LoadCharacters(rows) => {
            assert forall|i: int| 0 <= i < next.characters.len() implies character_resolved(
                #[trigger] next.characters[i],
                next.locations,
            ) by {
                if i < tables.characters.len() {
                    assert(character_resolved(tables.characters[i], tables.locations));
                } else {
                    assert(character_resolved(rows@[i - tables.characters.len()], tables.locations));
                }
            }
            assert forall|i: int| 0 <= i < next.links.len() implies link_resolved(
                #[trigger] next.links[i],
                next.characters,
                next.episodes,
            ) by {
                assert(link_resolved(tables.links[i], tables.characters, tables.episodes));
                lemma_has_key_of_concatenation(tables.characters, rows@, next.links[i].character_id);
            }
        },
        Statement::LoadEpisodes(rows) => {
            assert forall|i: int| 0 <= i < next.links.len() implies link_resolved(
                #[trigger] next.links[i],
                next.characters,
                next.episodes,
            ) by {
                assert(link_resolved(tables.links[i], tables.characters, tables.episodes));
                lemma_has_key_of_concatenation(tables.episodes, rows@, next.links[i].episode_id);
            }
        },
        Statement::LoadRelations(rows) => {
            assert forall|i: int| 0 <= i < next.links.len() implies link_resolved(
                #[trigger] next.links[i],
                next.characters,
                next.episodes,
            ) by {
                if i < tables.links.len() {
                    assert(link_resolved(tables.links[i], tables.characters, tables.episodes));
                } else {
                    assert(link_resolved(
                        rows@[i - tables.links.len()],
                        tables.characters,
                        tables.episodes,
                    ));
                }
            }
        },
        Statement::ResyncSequence(kind) => {
            lemma_max_key(tables.characters);
            lemma_max_key(tables.locations);
            lemma_max_key(tables.episodes);
        },
        Statement::DeleteRelationsOfCharacter(id) => {
            lemma_links_without(tables, LinkEnd::Character, id);
        },
        Statement::DeleteRelationsOfEpisode(id) => {
            lemma_links_without(tables, LinkEnd::Episode, id);
        },
        Statement::DeleteCharacter(id) => {
            lemma_without_key(tables.characters, id);
            assert forall|i: int| 0 <= i < next.links.len() implies link_resolved(
                #[trigger] next.links[i],
                next.characters,
                next.episodes,
            ) by {
                assert(link_resolved(tables.links[i], tables.characters, tables.episodes));
                assert(end_of(tables.links[i], LinkEnd::Character) != id);
            }
        },
        Statement::DeleteEpisode(id) => {
            lemma_without_key(tables.episodes, id);
            assert forall|i: int| 0 <= i < next.links.len() implies link_resolved(
                #[trigger] next.links[i],
                next.characters,
                next.episodes,
            ) by {
                assert(link_resolved(tables.links[i], tables.characters, tables.episodes));
                assert(end_of(tables.links[i], LinkEnd::Episode) != id);
            }
        },
        Statement::DeleteLocation(id) => {
            lemma_without_key(tables.locations, id);
            assert forall|i: int| 0 <= i < next.characters.len() implies character_resolved(
                #[trigger] next.characters[i],
                next.locations,
            ) by {
                assert(character_resolved(tables.characters[i], tables.locations));
                assert(!refers_to(tables.characters[i], id));
            }
        },
        Statement::ClearOrigin(id) => {
            lemma_reference_cleared(tables.characters, tables.locations, Reference::Origin, id);
            assert forall|i: int| 0 <= i < next.links.len() implies link_resolved(
                #[trigger] next.links[i],
                next.characters,
                next.episodes,
            ) by {
                assert(link_resolved(tables.links[i], tables.characters, tables.episodes));
            }
        },
        Statement::ClearLocation(id) => {
            lemma_reference_cleared(tables.characters, tables.locations, Reference::Location, id);
            assert forall|i: int| 0 <= i < next.links.len() implies link_resolved(
                #[trigger] next.links[i],
                next.characters,
                next.episodes,
            ) by {
                assert(link_resolved(tables.links[i], tables.characters, tables.episodes));
            }
        },
    }
}

/// Characters whose references are resolved stay so when locations are added.
pub proof fn lemma_resolved_in_more_locations(
    characters: Seq<Character>,
    locations: Seq<Location>,
    added: Seq<Location>,
)
    requires
        characters_resolved(characters, locations),
    ensures
        characters_resolved(characters, locations + added),
{
    assert forall|i: int| 0 <= i < characters.len() implies character_resolved(
        #[trigger] characters[i],
        locations + added,
    ) by {
        assert(character_resolved(characters[i], locations));
        if let Some(l) = characters[i].origin_id {
            lemma_has_key_of_concatenation(locations, added, l);
        }
        if let Some(l) = characters[i].location_id {
            lemma_has_key_of_concatenation(locations, added, l);
        }
    }
}

/// Deleting the relation rows with `id` at one end leaves the constraints in
/// force.
pub proof fn lemma_links_without(tables: Tables, end: LinkEnd, id: i32)
    requires
        tables.consistent(),
    ensures
        (Tables { links: links_without(tables.links, end, id), ..tables }).consistent(),
        !end_in_use(links_without(tables.links, end, id), end, id),
        links_without(tables.links, end, id).len() <= tables.links.len(),
{
    let kept = links_without(tables.links, end, id);
    lemma_filtered_links(tables.links, avoids(end, id));
    assert forall|i: int| 0 <= i < kept.len() implies link_resolved(
        #[trigger] kept[i],
        tables.characters,
        tables.episodes,
    ) && end_of(kept[i], end) != id by {
        assert(kept.contains(kept[i]));
        assert(tables.links.contains(kept[i]));
        let j = choose|j: int| 0 <= j < tables.links.len() && tables.links[j] == kept[i];
        assert(link_resolved(tables.links[j], tables.characters, tables.episodes));
    }
}

/// A sequence that is ahead of its table stays ahead when a row is taken out.
pub proof fn lemma_ahead_without_key<T: Keyed>(rows: Seq<T>, id: i32, next: int)
    requires
        distinct_keys(rows),
        ahead_of(rows, next),
    ensures
        ahead_of(without_key(rows, id), next),
{
    lemma_without_key(rows, id);
    let left = without_key(rows, id);
    assert forall|i: int| 0 <= i < left.len() implies (#[trigger] left[i]).key() < next by {
        assert(rows.contains(left[i]));
        let j = choose|j: int| 0 <= j < rows.len() && rows[j] == left[i];
        assert(rows[j].key() < next);
    }
}

/// A sequence that is ahead of its table issues an id that no row has, and is
/// ahead again once the row with that id is inserted.
pub proof fn lemma_ahead_issues_new_id<T: Keyed>(rows: Seq<T>, row: T, next: int)
    requires
        ahead_of(rows, next),
        row.key() == next,
    ensures
        !has_key(rows, row.key()),
        ahead_of(rows.push(row), next + 1),
        ahead_of(rows, next + 1),
{
    if has_key(rows, row.key()) {
        let i = index_of_key(rows, row.key());
        assert(rows[i].key() < next);
    }
    let more = rows.push(row);
    assert forall|i: int| 0 <= i < more.len() implies (#[trigger] more[i]).key() < next + 1 by {
        if i < rows.len() {
            assert(more[i] == rows[i]);
        }
    }
}

/// A sequence that is ahead of its table stays ahead when a row is replaced
/// by one with the same id.
pub proof fn lemma_ahead_with_replaced<T: Keyed>(rows: Seq<T>, row: T, next: int)
    requires
        ahead_of(rows, next),
        has_key(rows, row.key()),
    ensures
        ahead_of(with_replaced(rows, row), next),
{
    let at = index_of_key(rows, row.key());
    let after = with_replaced(rows, row);
    assert forall|i: int| 0 <= i < after.len() implies (#[trigger] after[i]).key() < next by {
        assert(rows[i].key() < next);
        assert(rows[at].key() < next);
    }
}

/// A sequence that is ahead of the characters stays ahead when references are
/// cleared.
pub proof fn lemma_ahead_with_reference_cleared(
    characters: Seq<Character>,
    which: Reference,
    id: i32,
    next: int,
)
    requires
        ahead_of(characters, next),
    ensures
        ahead_of(with_reference_cleared(characters, which, id), next),
{
    let after = with_reference_cleared(characters, which, id);
    assert forall|i: int| 0 <= i < after.len() implies (#[trigger] after[i]).key() < next by {
        assert(characters[i].key() < next);
    }
}

/// Creating a character when the sequences are ahead never collides with a
/// character that is there, gives the new row an id above every id of the
/// table, and leaves the sequences ahead.
pub proof fn law_created_character_is_new(tables: Tables, creator: CharacterCreator)
    requires
        tables.consistent(),
        tables.sequences_ahead(),
    ensures
        tables.create_character(creator).1 != Err::<Character, StoreError>(
            StoreError::UniqueViolation,
        ),
        tables.create_character(creator).1 matches Ok(row) ==> forall|i: int|
            0 <= i < tables.characters.len() ==> (#[trigger] tables.characters[i]).id < row.id,
        tables.create_character(creator).0.sequences_ahead(),
{
    if tables.next_character_id <= i32::MAX {
        lemma_ahead_issues_new_id(
            tables.characters,
            creator.row(tables.next_character_id as i32),
            tables.next_character_id,
        );
        assert forall|i: int| 0 <= i < tables.characters.len() implies (
        #[trigger] tables.characters[i]).id < tables.next_character_id by {
            assert(tables.characters[i].key() < tables.next_character_id);
        }
    }
}

/// Creating an episode when the sequences are ahead never collides with an
/// episode that is there, gives the new row an id above every id of the
/// table, and leaves the sequences ahead.
pub proof fn law_created_episode_is_new(tables: Tables, creator: EpisodeCreator)
    requires
        tables.consistent(),
        tables.sequences_ahead(),
    ensures
        tables.create_episode(creator).1 != Err::<Episode, StoreError>(StoreError::UniqueViolation),
        tables.create_episode(creator).1 matches Ok(row) ==> forall|i: int|
            0 <= i < tables.episodes.len() ==> (#[trigger] tables.episodes[i]).id < row.id,
        tables.create_episode(creator).0.sequences_ahead(),
{
    if tables.next_episode_id <= i32::MAX {
        lemma_ahead_issues_new_id(
            tables.episodes,
            creator.row(tables.next_episode_id as i32),
            tables.next_episode_id,
        );
        assert forall|i: int| 0 <= i < tables.episodes.len() implies (
        #[trigger] tables.episodes[i]).id < tables.next_episode_id by {
            assert(tables.episodes[i].key() < tables.next_episode_id);
        }
    }
}

/// Creating a location when the sequences are ahead never collides with a
/// location that is there, gives the new row an id above every id of the
/// table, and leaves the sequences ahead.
pub proof fn law_created_location_is_new(tables: Tables, creator: LocationCreator)
    requires
        tables.consistent(),
        tables.sequences_ahead(),
    ensures
        tables.create_location(creator).1 != Err::<Location, StoreError>(
            StoreError::UniqueViolation,
        ),
        tables.create_location(creator).1 matches Ok(row) ==> forall|i: int|
            0 <= i < tables.locations.len() ==> (#[trigger] tables.locations[i]).id < row.id,
        tables.create_location(creator).0.sequences_ahead(),
{
    if tables.next_location_id <= i32::MAX {
        lemma_ahead_issues_new_id(
            tables.locations,
            creator.row(tables.next_location_id as i32),
            tables.next_location_id,
        );
        assert forall|i: int| 0 <= i < tables.locations.len() implies (
        #[trigger] tables.locations[i]).id < tables.next_location_id by {
            assert(tables.locations[i].key() < tables.next_location_id);
        }
    }
}

} // verus!
