//! An entity store that keeps its tables in memory and enforces the
//! constraints of the model statement by statement.

use vstd::prelude::*;
use crate::db::EntityKind;
use crate::graphql::character_model::{Character, CharacterCreator, CharacterUpdater};
use crate::graphql::episode_model::{CharacterEpisode, Episode, EpisodeCreator, EpisodeUpdater};
use crate::graphql::location_model::{Location, LocationCreator, LocationUpdater};
use crate::graphql::filter::{admitted, FilterCharacterExpr};
use crate::pager::Fetch;
use crate::store::{
    any_reference, avoids, character_resolved, characters_at, characters_resolved, cleared,
    distinct_keys, end_in_use, end_of, fetched, found, has_key, index_of_key, lemma_filtered_links,
    lemma_resolved_in_more_locations, lemma_statement_keeps_consistency, link_resolved,
    links_resolved, links_without, location_in_use, max_key, names, opposite, pointing_at,
    points_at, reference_of, reference_resolved, refers_somewhere, refers_to, related, rolled_back,
    run, run_from, with_reference_cleared, with_replaced, without_key, Keyed, LinkEnd, Reference,
    Statement, StoreError, Table, Tables,
};

verus! {

/// The position of the row with the id `id`: the first one, if there are
/// several.
pub fn find_key<T: Keyed>(rows: &Vec<T>, id: i32) -> (r: Option<usize>)
    ensures
        r is Some <==> has_key(rows@, id),
        r matches Some(i) ==> i < rows.len() && rows@[i as int].key() == id && forall|j: int|
            0 <= j < i ==> (#[trigger] rows@[j]).key() != id,
{
    let mut i: usize = 0;
    while i < rows.len()
        invariant
            i <= rows.len(),
            forall|j: int| 0 <= j < i ==> (#[trigger] rows@[j]).key() != id,
        decreases rows.len() - i,
    {
        if rows[i].key_of() == id {
            return Some(i);
        }
        i = i + 1;
    }
    None
}

/// The greatest id among `rows`.
pub fn greatest_key<T: Keyed>(rows: &Vec<T>) -> (r: i32)
    ensures
        r == max_key(rows@),
{
    let mut greatest: i32 = i32::MIN;
    let mut i: usize = 0;
    assert(rows@.take(0) =~= Seq::<T>::empty());
    while i < rows.len()
        invariant
            i <= rows.len(),
            greatest == max_key(rows@.take(i as int)),
        decreases rows.len() - i,
    {
        let k = rows[i].key_of();
        proof {
            let next = rows@.take(i + 1);
            assert(next.drop_last() =~= rows@.take(i as int));
            assert(next.last() == rows@[i as int]);
        }
        if k > greatest {
            greatest = k;
        }
        i = i + 1;
    }
    assert(rows@.take(i as int) =~= rows@);
    greatest
}

/// Whether the ids of `existing` and `batch` together are distinct, given
/// that those of `existing` are.
pub fn keys_stay_distinct<T: Keyed>(existing: &Vec<T>, batch: &Vec<T>) -> (r: bool)
    requires
        distinct_keys(existing@),
    ensures
        r == distinct_keys(existing@ + batch@),
{
    let ghost all = existing@ + batch@;
    let mut i: usize = 0;
    while i < batch.len()
        invariant
            i <= batch.len(),
            all == existing@ + batch@,
            distinct_keys(existing@ + batch@.take(i as int)),
        decreases batch.len() - i,
    {
        let k = batch[i].key_of();
        let ghost here = existing@.len() + i;
        assert(all[here] == batch@[i as int]);
        if find_key(existing, k).is_some() {
            proof {
                let w = choose|j: int| 0 <= j < existing@.len() && (#[trigger] existing@[j]).key() == k;
                assert(all[w] == existing@[w]);
                assert(all[w].key() == all[here].key());
            }
            return false;
        }
        let mut j: usize = 0;
        while j < i
            invariant
                j <= i,
                i < batch.len(),
                all == existing@ + batch@,
                here == existing@.len() + i,
                k == batch@[i as int].key(),
                forall|m: int| 0 <= m < j ==> (#[trigger] batch@[m]).key() != k,
            decreases i - j,
        {
            if batch[j].key_of() == k {
                proof {
                    let there = existing@.len() + j;
                    assert(all[there] == batch@[j as int]);
                    assert(all[there].key() == all[here].key());
                }
                return false;
            }
            j = j + 1;
        }
        proof {
            let before = existing@ + batch@.take(i as int);
            let now = existing@ + batch@.take(i + 1);
            assert(now =~= before.push(batch@[i as int]));
            assert forall|a: int, b: int| 0 <= a < b < now.len() implies (#[trigger] now[a]).key() != (
            #[trigger] now[b]).key() by {
                if b < before.len() {
                    assert(now[a] == before[a] && now[b] == before[b]);
                } else {
                    if a < existing@.len() {
                        assert(now[a] == existing@[a]);
                    } else {
                        assert(now[a] == batch@[a - existing@.len()]);
                    }
                }
            }
        }
        i = i + 1;
    }
    assert(batch@.take(i as int) =~= batch@);
    true
}

/// Takes the row with the id `id` out of `rows` and says how many rows that
/// were: one or none.
pub fn remove_key<T: Keyed>(rows: &mut Vec<T>, id: i32) -> (r: usize)
    requires
        distinct_keys(old(rows)@),
    ensures
        final(rows)@ == without_key(old(rows)@, id),
        r == if has_key(old(rows)@, id) {
            1int
        } else {
            0int
        },
{
    match find_key(rows, id) {
        Some(at) => {
            proof {
                let chosen = index_of_key(rows@, id);
                if chosen < at {
                    assert(rows@[chosen].key() != rows@[at as int].key());
                } else if at < chosen {
                    assert(rows@[at as int].key() != rows@[chosen].key());
                }
            }
            let _ = rows.remove(at);
            1
        },
        None => 0,
    }
}

/// Reads the id at one end of a relation row.
pub fn link_end(link: &CharacterEpisode, end: LinkEnd) -> (r: i32)
    ensures
        r == end_of(*link, end),
{
    match end {
        LinkEnd::Character => link.character_id,
        LinkEnd::Episode => link.episode_id,
    }
}

/// Whether some relation row has `id` at its `end`.
pub fn link_end_in_use(links: &Vec<CharacterEpisode>, end: LinkEnd, id: i32) -> (r: bool)
    ensures
        r == end_in_use(links@, end, id),
{
    let mut i: usize = 0;
    while i < links.len()
        invariant
            i <= links.len(),
            forall|j: int| 0 <= j < i ==> end_of(#[trigger] links@[j], end) != id,
        decreases links.len() - i,
    {
        if link_end(&links[i], end) == id {
            return true;
        }
        i = i + 1;
    }
    false
}

/// The relation rows whose `end` is not `id`, in their order.
pub fn links_kept(links: &Vec<CharacterEpisode>, end: LinkEnd, id: i32) -> (r: Vec<
    CharacterEpisode,
>)
    ensures
        r@ == links_without(links@, end, id),
{
    let mut kept: Vec<CharacterEpisode> = Vec::new();
    let mut i: usize = 0;
    proof {
        reveal(Seq::filter);
        assert(links@.take(0) =~= Seq::<CharacterEpisode>::empty());
    }
    while i < links.len()
        invariant
            i <= links.len(),
            kept@ == links_without(links@.take(i as int), end, id),
        decreases links.len() - i,
    {
        proof {
            links@.lemma_take_succ_push(i as int);
            links@.take(i as int).lemma_filter_push(links@[i as int], avoids(end, id));
        }
        if link_end(&links[i], end) != id {
            kept.push(links[i]);
        }
        i = i + 1;
    }
    assert(links@.take(i as int) =~= links@);
    kept
}

/// Reads one of the two references of a character.
pub fn reference(character: &Character, which: Reference) -> (r: Option<i32>)
    ensures
        r == reference_of(*character, which),
{
    match which {
        Reference::Origin => character.origin_id,
        Reference::Location => character.location_id,
    }
}

/// Whether some character refers to a location.
pub fn any_character_refers(characters: &Vec<Character>) -> (r: bool)
    ensures
        r == any_reference(characters@),
{
    let mut i: usize = 0;
    while i < characters.len()
        invariant
            i <= characters.len(),
            forall|j: int| 0 <= j < i ==> !refers_somewhere(#[trigger] characters@[j]),
        decreases characters.len() - i,
    {
        if characters[i].origin_id.is_some() || characters[i].location_id.is_some() {
            return true;
        }
        i = i + 1;
    }
    false
}

/// Whether some character refers to the location `id`.
pub fn location_referred_to(characters: &Vec<Character>, id: i32) -> (r: bool)
    ensures
        r == location_in_use(characters@, id),
{
    let mut i: usize = 0;
    while i < characters.len()
        invariant
            i <= characters.len(),
            forall|j: int| 0 <= j < i ==> !refers_to(#[trigger] characters@[j], id),
        decreases characters.len() - i,
    {
        if characters[i].origin_id == Some(id) || characters[i].location_id == Some(id) {
            return true;
        }
        i = i + 1;
    }
    false
}

/// Sets the reference `which` to none on every character where it is the
/// location `id`, and says on how many that was.
pub fn clear_reference(characters: &mut Vec<Character>, which: Reference, id: i32) -> (r: usize)
    ensures
        final(characters)@ == with_reference_cleared(old(characters)@, which, id),
        r == pointing_at(old(characters)@, which, id),
{
    let ghost before = characters@;
    let mut changed: usize = 0;
    let mut i: usize = 0;
    proof {
        reveal(Seq::filter);
        assert(before.take(0) =~= Seq::<Character>::empty());
    }
    while i < characters.len()
        invariant
            i <= characters.len(),
            characters@.len() == before.len(),
            changed == pointing_at(before.take(i as int), which, id),
            changed <= i,
            forall|j: int| 0 <= j < i ==> #[trigger] characters@[j] == cleared(before[j], which, id),
            forall|j: int| i <= j < before.len() ==> #[trigger] characters@[j] == before[j],
        decreases characters.len() - i,
    {
        proof {
            before.lemma_take_succ_push(i as int);
            before.take(i as int).lemma_filter_push(before[i as int], points_at(which, id));
        }
        if reference(&characters[i], which) == Some(id) {
            match which {
                Reference::Origin => {
                    characters[i].origin_id = None;
                },
                Reference::Location => {
                    characters[i].location_id = None;
                },
            }
            changed = changed + 1;
        }
        i = i + 1;
    }
    assert(before.take(i as int) =~= before);
    assert(characters@ =~= with_reference_cleared(before, which, id));
    changed
}

/// Whether a reference is absent or names one of `locations`.
pub fn is_reference_resolved(reference: &Option<i32>, locations: &Vec<Location>) -> (r: bool)
    ensures
        r == reference_resolved(*reference, locations@),
{
    match reference {
        Some(id) => find_key(locations, *id).is_some(),
        None => true,
    }
}

/// Whether both references of every character of `rows` are absent or name
/// one of `locations`.
pub fn are_characters_resolved(rows: &Vec<Character>, locations: &Vec<Location>) -> (r: bool)
    ensures
        r == characters_resolved(rows@, locations@),
{
    let mut i: usize = 0;
    while i < rows.len()
        invariant
            i <= rows.len(),
            forall|j: int| 0 <= j < i ==> character_resolved(#[trigger] rows@[j], locations@),
        decreases rows.len() - i,
    {
        if !is_reference_resolved(&rows[i].origin_id, locations) || !is_reference_resolved(
            &rows[i].location_id,
            locations,
        ) {
            assert(!character_resolved(rows@[i as int], locations@));
            return false;
        }
        i = i + 1;
    }
    true
}

/// Whether every relation row of `rows` names one of `characters` and one of
/// `episodes`.
pub fn are_links_resolved(
    rows: &Vec<CharacterEpisode>,
    characters: &Vec<Character>,
    episodes: &Vec<Episode>,
) -> (r: bool)
    ensures
        r == links_resolved(rows@, characters@, episodes@),
{
    let mut i: usize = 0;
    while i < rows.len()
        invariant
            i <= rows.len(),
            forall|j: int| 0 <= j < i ==> link_resolved(#[trigger] rows@[j], characters@, episodes@),
        decreases rows.len() - i,
    {
        if find_key(characters, rows[i].character_id).is_none() || find_key(
            episodes,
            rows[i].episode_id,
        ).is_none() {
            assert(!link_resolved(rows@[i as int], characters@, episodes@));
            return false;
        }
        i = i + 1;
    }
    true
}

/// Whether `link` is among the first `end` rows of `rows`.
pub fn link_among(rows: &Vec<CharacterEpisode>, end: usize, link: CharacterEpisode) -> (r: bool)
    requires
        end <= rows.len(),
    ensures
        r == rows@.take(end as int).contains(link),
{
    let mut i: usize = 0;
    while i < end
        invariant
            i <= end <= rows.len(),
            forall|j: int| 0 <= j < i ==> rows@[j] != link,
        decreases end - i,
    {
        if rows[i] == link {
            assert(rows@.take(end as int)[i as int] == link);
            return true;
        }
        i = i + 1;
    }
    false
}

/// Whether `existing` and `batch` together hold no relation row twice, given
/// that `existing` holds none twice.
pub fn links_stay_distinct(existing: &Vec<CharacterEpisode>, batch: &Vec<CharacterEpisode>) -> (r:
    bool)
    requires
        existing@.no_duplicates(),
    ensures
        r == (existing@ + batch@).no_duplicates(),
{
    let ghost all = existing@ + batch@;
    let mut i: usize = 0;
    assert(existing@ + batch@.take(0) =~= existing@);
    while i < batch.len()
        invariant
            i <= batch.len(),
            all == existing@ + batch@,
            (existing@ + batch@.take(i as int)).no_duplicates(),
        decreases batch.len() - i,
    {
        let link = batch[i];
        let ghost here = existing@.len() + i;
        assert(all[here] == link);
        assert(existing@.take(existing@.len() as int) =~= existing@);
        if link_among(existing, existing.len(), link) {
            proof {
                let w = choose|j: int| 0 <= j < existing@.len() && existing@[j] == link;
                assert(all[w] == all[here]);
            }
            return false;
        }
        if link_among(batch, i, link) {
            proof {
                let part = batch@.take(i as int);
                let w = choose|j: int| 0 <= j < part.len() && part[j] == link;
                assert(all[existing@.len() + w] == all[here]);
            }
            return false;
        }
        proof {
            let before = existing@ + batch@.take(i as int);
            let now = existing@ + batch@.take(i + 1);
            assert(now =~= before.push(link));
            assert forall|a: int, b: int| 0 <= a < now.len() && 0 <= b < now.len() && a
                != b implies now[a] != now[b] by {
                if a < before.len() && b < before.len() {
                    assert(now[a] == before[a] && now[b] == before[b]);
                } else {
                    let other = if a < before.len() {
                        a
                    } else {
                        b
                    };
                    if other < existing@.len() {
                        assert(existing@.contains(existing@[other]));
                    } else {
                        assert(batch@.take(i as int)[other - existing@.len()] == now[other]);
                        assert(batch@.take(i as int).contains(now[other]));
                    }
                }
            }
        }
        i = i + 1;
    }
    assert(batch@.take(i as int) =~= batch@);
    true
}

/// A copy of `rows`, row for row.
pub fn copy_rows<T: Keyed>(rows: &Vec<T>) -> (r: Vec<T>)
    ensures
        r@ == rows@,
{
    let mut copy: Vec<T> = Vec::new();
    let mut i: usize = 0;
    while i < rows.len()
        invariant
            i <= rows.len(),
            copy@ == rows@.take(i as int),
        decreases rows.len() - i,
    {
        copy.push(rows[i].copy_of());
        assert(rows@.take(i + 1) =~= rows@.take(i as int).push(rows@[i as int]));
        i = i + 1;
    }
    assert(rows@.take(i as int) =~= rows@);
    copy
}

/// Reads `rows` through `fetch`: every row, one window of them, or nothing.
pub fn fetch_rows<T: Keyed>(rows: &Vec<T>, fetch: Fetch) -> (r: Result<Vec<T>, StoreError>)
    ensures
        match fetched(rows@, fetch) {
            Ok(want) => r matches Ok(got) && got@ == want,
            Err(e) => r == Err::<Vec<T>, StoreError>(e),
        },
{
    match fetch {
        Fetch::All => Ok(copy_rows(rows)),
        Fetch::Nothing => Ok(Vec::new()),
        Fetch::Window { offset, limit } => {
            if offset < 0 || limit < 0 {
                return Err(StoreError::NegativeWindow);
            }
            let len = rows.len();
            let from: usize = if (offset as u64) < (len as u64) {
                offset as usize
            } else {
                len
            };
            let to: usize = if (limit as u64) < (len as u64) - (from as u64) && (offset as u64) < (
            len as u64) {
                from + (limit as usize)
            } else {
                len
            };
            let mut window: Vec<T> = Vec::new();
            let mut i: usize = from;
            while i < to
                invariant
                    from <= i <= to <= rows.len(),
                    window@ == rows@.subrange(from as int, i as int),
                decreases to - i,
            {
                window.push(rows[i].copy_of());
                assert(rows@.subrange(from as int, i + 1) =~= rows@.subrange(
                    from as int,
                    i as int,
                ).push(rows@[i as int]));
                i = i + 1;
            }
            Ok(window)
        },
    }
}

/// The four tables as they stood at one moment.
#[derive(Debug)]
pub struct Snapshot {
    characters: Vec<Character>,
    locations: Vec<Location>,
    episodes: Vec<Episode>,
    links: Vec<CharacterEpisode>,
}

/// An entity store in memory.
#[derive(Debug)]
pub struct Store {
    characters: Vec<Character>,
    locations: Vec<Location>,
    episodes: Vec<Episode>,
    links: Vec<CharacterEpisode>,
    next_character_id: i64,
    next_location_id: i64,
    next_episode_id: i64,
}

impl View for Store {
    type V = Tables;

    closed spec fn view(&self) -> Tables {
        Tables {
            characters: self.characters@,
            locations: self.locations@,
            episodes: self.episodes@,
            links: self.links@,
            next_character_id: self.next_character_id as int,
            next_location_id: self.next_location_id as int,
            next_episode_id: self.next_episode_id as int,
        }
    }
}

impl Snapshot {
    /// The rows that the snapshot holds, with the sequences of `now`.
    pub closed spec fn rows_with_sequences_of(self, now: Tables) -> Tables {
        Tables {
            characters: self.characters@,
            locations: self.locations@,
            episodes: self.episodes@,
            links: self.links@,
            ..now
        }
    }
}

impl Store {
    /// A store with no rows, whose sequences start at 1.
    pub fn new() -> (r: Store)
        ensures
            r@ == Tables::empty(),
            r@.consistent(),
    {
        Store {
            characters: Vec::new(),
            locations: Vec::new(),
            episodes: Vec::new(),
            links: Vec::new(),
            next_character_id: 1,
            next_location_id: 1,
            next_episode_id: 1,
        }
    }

    /// Runs one statement. The store either accepts it, changes as the model
    /// says and reports the rows affected, or refuses it and changes nothing.
    pub fn execute(&mut self, statement: Statement) -> (r: Result<usize, StoreError>)
        requires
            old(self)@.consistent(),
        ensures
            final(self)@.consistent(),
            match old(self)@.after(statement) {
                Ok(next) => {
                    &&& final(self)@ == next
                    &&& r matches Ok(n)
                    &&& n == old(self)@.affected(statement)
                },
                Err(e) => final(self)@ == old(self)@ && r == Err::<usize, StoreError>(e),
            },
    {
        proof {
            if old(self)@.after(statement) is Ok {
                lemma_statement_keeps_consistency(old(self)@, statement);
            }
        }
        match statement {
            Statement::DeleteAll(Table::CharacterEpisode) => {
                let n = self.links.len();
                self.links.clear();
                Ok(n)
            },
            Statement::DeleteAll(Table::Episode) => {
                if self.links.len() > 0 {
                    return Err(StoreError::ForeignKeyViolation);
                }
                let n = self.episodes.len();
                self.episodes.clear();
                Ok(n)
            },
            Statement::DeleteAll(Table::Character) => {
                if self.links.len() > 0 {
                    return Err(StoreError::ForeignKeyViolation);
                }
                let n = self.characters.len();
                self.characters.clear();
                Ok(n)
            },
            Statement::DeleteAll(Table::Location) => {
                if any_character_refers(&self.characters) {
                    return Err(StoreError::ForeignKeyViolation);
                }
                let n = self.locations.len();
                self.locations.clear();
                Ok(n)
            },
            Statement::LoadLocations(mut rows) => {
                if !keys_stay_distinct(&self.locations, &rows) {
                    return Err(StoreError::UniqueViolation);
                }
                let n = rows.len();
                self.locations.append(&mut rows);
                Ok(n)
            },
            Statement::LoadCharacters(mut rows) => {
                if !keys_stay_distinct(&self.characters, &rows) {
                    return Err(StoreError::UniqueViolation);
                }
                if !are_characters_resolved(&rows, &self.locations) {
                    return Err(StoreError::ForeignKeyViolation);
                }
                let n = rows.len();
                self.characters.append(&mut rows);
                Ok(n)
            },
            Statement::LoadEpisodes(mut rows) => {
                if !keys_stay_distinct(&self.episodes, &rows) {
                    return Err(StoreError::UniqueViolation);
                }
                let n = rows.len();
                self.episodes.append(&mut rows);
                Ok(n)
            },
            Statement::LoadRelations(mut rows) => {
                if !links_stay_distinct(&self.links, &rows) {
                    return Err(StoreError::UniqueViolation);
                }
                if !are_links_resolved(&rows, &self.characters, &self.episodes) {
                    return Err(StoreError::ForeignKeyViolation);
                }
                let n = rows.len();
                self.links.append(&mut rows);
                Ok(n)
            },
            Statement::ResyncSequence(EntityKind::Character) => {
                if self.characters.len() > 0 {
                    self.next_character_id = greatest_key(&self.characters) as i64 + 1;
                }
                Ok(0)
            },
            Statement::ResyncSequence(EntityKind::Location) => {
                if self.locations.len() > 0 {
                    self.next_location_id = greatest_key(&self.locations) as i64 + 1;
                }
                Ok(0)
            },
            Statement::ResyncSequence(EntityKind::Episode) => {
                if self.episodes.len() > 0 {
                    self.next_episode_id = greatest_key(&self.episodes) as i64 + 1;
                }
                Ok(0)
            },
            Statement::DeleteRelationsOfCharacter(id) => {
                let before = self.links.len();
                proof {
                    lemma_filtered_links(self.links@, avoids(LinkEnd::Character, id));
                }
                self.links = links_kept(&self.links, LinkEnd::Character, id);
                Ok(before - self.links.len())
            },
            Statement::DeleteRelationsOfEpisode(id) => {
                let before = self.links.len();
                proof {
                    lemma_filtered_links(self.links@, avoids(LinkEnd::Episode, id));
                }
                self.links = links_kept(&self.links, LinkEnd::Episode, id);
                Ok(before - self.links.len())
            },
            Statement::DeleteCharacter(id) => {
                if link_end_in_use(&self.links, LinkEnd::Character, id) {
                    return Err(StoreError::ForeignKeyViolation);
                }
                Ok(remove_key(&mut self.characters, id))
            },
            Statement::DeleteEpisode(id) => {
                if link_end_in_use(&self.links, LinkEnd::Episode, id) {
                    return Err(StoreError::ForeignKeyViolation);
                }
                Ok(remove_key(&mut self.episodes, id))
            },
            Statement::DeleteLocation(id) => {
                if location_referred_to(&self.characters, id) {
                    return Err(StoreError::ForeignKeyViolation);
                }
                Ok(remove_key(&mut self.locations, id))
            },
            Statement::ClearOrigin(id) => Ok(
                clear_reference(&mut self.characters, Reference::Origin, id),
            ),
            Statement::ClearLocation(id) => Ok(
                clear_reference(&mut self.characters, Reference::Location, id),
            ),
        }
    }

    /// Creates a character: the sequence issues its next id, and the row is
    /// inserted unless that id is taken or a reference names no location.
    pub fn create_character(&mut self, creator: CharacterCreator) -> (r: Result<
        Character,
        StoreError,
    >)
        requires
            old(self)@.consistent(),
        ensures
            final(self)@.consistent(),
            final(self)@ == old(self)@.create_character(creator).0,
            r == old(self)@.create_character(creator).1,
    {
        if self.next_character_id > i32::MAX as i64 {
            return Err(StoreError::IdOutOfRange);
        }
        let id = self.next_character_id as i32;
        self.next_character_id = self.next_character_id + 1;
        if find_key(&self.characters, id).is_some() {
            return Err(StoreError::UniqueViolation);
        }
        if !is_reference_resolved(&creator.origin_id, &self.locations) || !is_reference_resolved(
            &creator.location_id,
            &self.locations,
        ) {
            return Err(StoreError::ForeignKeyViolation);
        }
        let row = creator.into_row(id);
        let copy = row.duplicate();
        proof {
            lemma_pushed_row_is_consistent(old(self)@.characters, row);
            let next = old(self)@.create_character(creator).0;
            assert forall|i: int| 0 <= i < next.characters.len() implies character_resolved(
                #[trigger] next.characters[i],
                next.locations,
            ) by {
                if i < old(self)@.characters.len() {
                    assert(character_resolved(old(self)@.characters[i], old(self)@.locations));
                }
            }
            assert forall|i: int| 0 <= i < next.links.len() implies link_resolved(
                #[trigger] next.links[i],
                next.characters,
                next.episodes,
            ) by {
                assert(link_resolved(
                    old(self)@.links[i],
                    old(self)@.characters,
                    old(self)@.episodes,
                ));
            }
        }
        self.characters.push(row);
        Ok(copy)
    }

    /// Creates an episode: the sequence issues its next id, and the row is
    /// inserted unless that id is taken.
    pub fn create_episode(&mut self, creator: EpisodeCreator) -> (r: Result<Episode, StoreError>)
        requires
            old(self)@.consistent(),
        ensures
            final(self)@.consistent(),
            final(self)@ == old(self)@.create_episode(creator).0,
            r == old(self)@.create_episode(creator).1,
    {
        if self.next_episode_id > i32::MAX as i64 {
            return Err(StoreError::IdOutOfRange);
        }
        let id = self.next_episode_id as i32;
        self.next_episode_id = self.next_episode_id + 1;
        if find_key(&self.episodes, id).is_some() {
            return Err(StoreError::UniqueViolation);
        }
        let row = creator.into_row(id);
        let copy = row.duplicate();
        proof {
            lemma_pushed_row_is_consistent(old(self)@.episodes, row);
            let next = old(self)@.create_episode(creator).0;
            assert forall|i: int| 0 <= i < next.links.len() implies link_resolved(
                #[trigger] next.links[i],
                next.characters,
                next.episodes,
            ) by {
                assert(link_resolved(
                    old(self)@.links[i],
                    old(self)@.characters,
                    old(self)@.episodes,
                ));
            }
        }
        self.episodes.push(row);
        Ok(copy)
    }

    /// Creates a location: the sequence issues its next id, and the row is
    /// inserted unless that id is taken.
    pub fn create_location(&mut self, creator: LocationCreator) -> (r: Result<Location, StoreError>)
        requires
            old(self)@.consistent(),
        ensures
            final(self)@.consistent(),
            final(self)@ == old(self)@.create_location(creator).0,
            r == old(self)@.create_location(creator).1,
    {
        if self.next_location_id > i32::MAX as i64 {
            return Err(StoreError::IdOutOfRange);
        }
        let id = self.next_location_id as i32;
        self.next_location_id = self.next_location_id + 1;
        if find_key(&self.locations, id).is_some() {
            return Err(StoreError::UniqueViolation);
        }
        let row = creator.into_row(id);
        let copy = row.duplicate();
        proof {
            lemma_pushed_row_is_consistent(old(self)@.locations, row);
            lemma_resolved_in_more_locations(
                old(self)@.characters,
                old(self)@.locations,
                seq![row],
            );
            assert(old(self)@.locations + seq![row] =~= old(self)@.locations.push(row));
        }
        self.locations.push(row);
        Ok(copy)
    }

    /// Replaces the character with the id of `updater` and returns the new
    /// row.
    pub fn save_character(&mut self, updater: CharacterUpdater) -> (r: Result<
        Character,
        StoreError,
    >)
        requires
            old(self)@.consistent(),
        ensures
            final(self)@.consistent(),
            match old(self)@.save_character(updater) {
                Ok(next) => final(self)@ == next && r == Ok::<Character, StoreError>(updater.row()),
                Err(e) => final(self)@ == old(self)@ && r == Err::<Character, StoreError>(e),
            },
    {
        match find_key(&self.characters, updater.id) {
            None => Err(StoreError::NotFound),
            Some(at) => {
                if !is_reference_resolved(&updater.origin_id, &self.locations)
                    || !is_reference_resolved(&updater.location_id, &self.locations) {
                    return Err(StoreError::ForeignKeyViolation);
                }
                let row = updater.into_row();
                let copy = row.duplicate();
                proof {
                    lemma_replaced_row_is_consistent(self.characters@, row, at as int);
                    let next = old(self)@.save_character(updater)->Ok_0;
                    assert forall|i: int| 0 <= i < next.characters.len() implies character_resolved(
                        #[trigger] next.characters[i],
                        next.locations,
                    ) by {
                        if i != at {
                            assert(character_resolved(
                                old(self)@.characters[i],
                                old(self)@.locations,
                            ));
                        }
                    }
                    assert forall|i: int| 0 <= i < next.links.len() implies link_resolved(
                        #[trigger] next.links[i],
                        next.characters,
                        next.episodes,
                    ) by {
                        assert(link_resolved(
                            old(self)@.links[i],
                            old(self)@.characters,
                            old(self)@.episodes,
                        ));
                    }
                }
                self.characters[at] = row;
                Ok(copy)
            },
        }
    }

    /// Replaces the episode with the id of `updater` and returns the new row.
    pub fn save_episode(&mut self, updater: EpisodeUpdater) -> (r: Result<Episode, StoreError>)
        requires
            old(self)@.consistent(),
        ensures
            final(self)@.consistent(),
            match old(self)@.save_episode(updater) {
                Ok(next) => final(self)@ == next && r == Ok::<Episode, StoreError>(updater.row()),
                Err(e) => final(self)@ == old(self)@ && r == Err::<Episode, StoreError>(e),
            },
    {
        match find_key(&self.episodes, updater.id) {
            None => Err(StoreError::NotFound),
            Some(at) => {
                let row = updater.into_row();
                let copy = row.duplicate();
                proof {
                    lemma_replaced_row_is_consistent(self.episodes@, row, at as int);
                    let next = old(self)@.save_episode(updater)->Ok_0;
                    assert forall|i: int| 0 <= i < next.links.len() implies link_resolved(
                        #[trigger] next.links[i],
                        next.characters,
                        next.episodes,
                    ) by {
                        assert(link_resolved(
                            old(self)@.links[i],
                            old(self)@.characters,
                            old(self)@.episodes,
                        ));
                    }
                }
                self.episodes[at] = row;
                Ok(copy)
            },
        }
    }

    /// Replaces the location with the id of `updater` and returns the new row.
    pub fn save_location(&mut self, updater: LocationUpdater) -> (r: Result<Location, StoreError>)
        requires
            old(self)@.consistent(),
        ensures
            final(self)@.consistent(),
            match old(self)@.save_location(updater) {
                Ok(next) => final(self)@ == next && r == Ok::<Location, StoreError>(updater.row()),
                Err(e) => final(self)@ == old(self)@ && r == Err::<Location, StoreError>(e),
            },
    {
        match find_key(&self.locations, updater.id) {
            None => Err(StoreError::NotFound),
            Some(at) => {
                let row = updater.into_row();
                let copy = row.duplicate();
                proof {
                    lemma_replaced_row_is_consistent(self.locations@, row, at as int);
                    let next = old(self)@.save_location(updater)->Ok_0;
                    assert forall|i: int| 0 <= i < next.characters.len() implies character_resolved(
                        #[trigger] next.characters[i],
                        next.locations,
                    ) by {
                        assert(character_resolved(old(self)@.characters[i], old(self)@.locations));
                    }
                }
                self.locations[at] = row;
                Ok(copy)
            },
        }
    }

    /// The number of rows of `kind`.
    pub fn count(&self, kind: EntityKind) -> (r: usize)
        ensures
            r == self@.count(kind),
    {
        match kind {
            EntityKind::Character => self.characters.len(),
            EntityKind::Location => self.locations.len(),
            EntityKind::Episode => self.episodes.len(),
        }
    }

    /// The character with the id `id`.
    pub fn find_character(&self, id: i32) -> (r: Result<Character, StoreError>)
        requires
            self@.consistent(),
        ensures
            r == found(self@.characters, id),
    {
        find_row(&self.characters, id)
    }

    /// The episode with the id `id`.
    pub fn find_episode(&self, id: i32) -> (r: Result<Episode, StoreError>)
        requires
            self@.consistent(),
        ensures
            r == found(self@.episodes, id),
    {
        find_row(&self.episodes, id)
    }

    /// The location with the id `id`.
    pub fn find_location(&self, id: i32) -> (r: Result<Location, StoreError>)
        requires
            self@.consistent(),
        ensures
            r == found(self@.locations, id),
    {
        find_row(&self.locations, id)
    }

    /// The character table, in the order in which the store keeps it.
    pub fn characters(&self) -> (r: &Vec<Character>)
        ensures
            r@ == self@.characters,
    {
        &self.characters
    }

    /// The episode table, in the order in which the store keeps it.
    pub fn episodes(&self) -> (r: &Vec<Episode>)
        ensures
            r@ == self@.episodes,
    {
        &self.episodes
    }

    /// The location table, in the order in which the store keeps it.
    pub fn locations(&self) -> (r: &Vec<Location>)
        ensures
            r@ == self@.locations,
    {
        &self.locations
    }

    /// The characters of which `predicate` holds, in the order of the table:
    /// at most `limit` of them, skipping the first `offset`.
    pub fn characters_where(
        &self,
        predicate: &FilterCharacterExpr,
        limit: i64,
        offset: i64,
    ) -> (r: Result<Vec<Character>, StoreError>)
        ensures
            match fetched(
                self@.characters.filter(admitted(*predicate)),
                Fetch::Window { offset, limit },
            ) {
                Ok(want) => r matches Ok(got) && got@ == want,
                Err(e) => r == Err::<Vec<Character>, StoreError>(e),
            },
    {
        let mut rows: Vec<Character> = Vec::new();
        let mut i: usize = 0;
        proof {
            reveal(Seq::filter);
            assert(self.characters@.take(0) =~= Seq::<Character>::empty());
        }
        while i < self.characters.len()
            invariant
                i <= self.characters.len(),
                rows@ == self.characters@.take(i as int).filter(admitted(*predicate)),
            decreases self.characters.len() - i,
        {
            proof {
                self.characters@.lemma_take_succ_push(i as int);
                self.characters@.take(i as int).lemma_filter_push(
                    self.characters@[i as int],
                    admitted(*predicate),
                );
            }
            if predicate.accepts(&self.characters[i]) {
                rows.push(self.characters[i].duplicate());
            }
            i = i + 1;
        }
        assert(self.characters@.take(i as int) =~= self.characters@);
        fetch_rows(&rows, Fetch::Window { offset, limit })
    }

    /// Runs `script` as one transaction: every statement takes effect, or, if
    /// the store refuses one, none does. Returns the rows that the last
    /// statement reported.
    pub fn run_all(&mut self, script: Vec<Statement>) -> (r: Result<usize, StoreError>)
        requires
            old(self)@.consistent(),
        ensures
            final(self)@.consistent(),
            final(self)@ == run(old(self)@, script@).0,
            match run(old(self)@, script@).1 {
                Ok(n) => r matches Ok(m) && m == n,
                Err(e) => r == Err::<usize, StoreError>(e),
            },
    {
        let snapshot = self.snapshot();
        let ghost start = self@;
        let ghost whole = script@;
        let mut rest = script;
        let mut last: usize = 0;
        while rest.len() > 0
            invariant
                self@.consistent(),
                start.consistent(),
                start == old(self)@,
                whole == script@,
                forall|now: Tables| #[trigger]
                    snapshot.rows_with_sequences_of(now) == rolled_back(start, now),
                run(start, whole) == run_from(start, self@, rest@, last as int),
            decreases rest.len(),
        {
            let ghost before = self@;
            let ghost remaining = rest@;
            let statement = rest.remove(0);
            assert(rest@ =~= remaining.drop_first());
            assert(remaining[0] == statement);
            match self.execute(statement) {
                Ok(n) => {
                    last = n;
                },
                Err(e) => {
                    self.restore(snapshot);
                    return Err(e);
                },
            }
        }
        Ok(last)
    }

    /// The episodes in which the character `id` appears, in the order of the
    /// relation.
    pub fn episodes_of(&self, id: i32) -> (r: Vec<Episode>)
        requires
            self@.consistent(),
        ensures
            r@ == related(self@.links, LinkEnd::Character, id, self@.episodes),
    {
        related_rows(&self.links, LinkEnd::Character, id, &self.episodes)
    }

    /// The characters that appear in the episode `id`, in the order of the
    /// relation.
    pub fn characters_of(&self, id: i32) -> (r: Vec<Character>)
        requires
            self@.consistent(),
        ensures
            r@ == related(self@.links, LinkEnd::Episode, id, self@.characters),
    {
        related_rows(&self.links, LinkEnd::Episode, id, &self.characters)
    }

    /// The characters whose reference `which` is the location `id`.
    pub fn characters_at(&self, which: Reference, id: i32) -> (r: Vec<Character>)
        ensures
            r@ == characters_at(self@.characters, which, id),
    {
        let mut rows: Vec<Character> = Vec::new();
        let mut i: usize = 0;
        proof {
            reveal(Seq::filter);
            assert(self.characters@.take(0) =~= Seq::<Character>::empty());
        }
        while i < self.characters.len()
            invariant
                i <= self.characters.len(),
                rows@ == characters_at(self.characters@.take(i as int), which, id),
            decreases self.characters.len() - i,
        {
            proof {
                self.characters@.lemma_take_succ_push(i as int);
                self.characters@.take(i as int).lemma_filter_push(
                    self.characters@[i as int],
                    points_at(which, id),
                );
            }
            if reference(&self.characters[i], which) == Some(id) {
                rows.push(self.characters[i].duplicate());
            }
            i = i + 1;
        }
        assert(self.characters@.take(i as int) =~= self.characters@);
        rows
    }

    /// The four tables as they stand now, to go back to.
    pub fn snapshot(&self) -> (r: Snapshot)
        ensures
            forall|now: Tables| #[trigger] r.rows_with_sequences_of(now) == rolled_back(self@, now),
    {
        let mut links: Vec<CharacterEpisode> = Vec::new();
        let mut i: usize = 0;
        while i < self.links.len()
            invariant
                i <= self.links.len(),
                links@ == self.links@.take(i as int),
            decreases self.links.len() - i,
        {
            links.push(self.links[i]);
            assert(self.links@.take(i + 1) =~= self.links@.take(i as int).push(
                self.links@[i as int],
            ));
            i = i + 1;
        }
        assert(self.links@.take(i as int) =~= self.links@);
        Snapshot {
            characters: copy_rows(&self.characters),
            locations: copy_rows(&self.locations),
            episodes: copy_rows(&self.episodes),
            links,
        }
    }

    /// Puts the rows of `snapshot` back. The sequences stay where they are: an
    /// id that was issued is not issued again.
    pub fn restore(&mut self, snapshot: Snapshot)
        requires
            snapshot.rows_with_sequences_of(old(self)@).consistent(),
        ensures
            final(self)@ == snapshot.rows_with_sequences_of(old(self)@),
            final(self)@.consistent(),
    {
        self.characters = snapshot.characters;
        self.locations = snapshot.locations;
        self.episodes = snapshot.episodes;
        self.links = snapshot.links;
    }
}

/// The row with the id `id`.
pub fn find_row<T: Keyed>(rows: &Vec<T>, id: i32) -> (r: Result<T, StoreError>)
    requires
        distinct_keys(rows@),
    ensures
        r == found(rows@, id),
{
    match find_key(rows, id) {
        Some(at) => {
            proof {
                let chosen = index_of_key(rows@, id);
                if chosen < at {
                    assert(rows@[chosen].key() != rows@[at as int].key());
                } else if at < chosen {
                    assert(rows@[at as int].key() != rows@[chosen].key());
                }
            }
            Ok(rows[at].copy_of())
        },
        None => Err(StoreError::NotFound),
    }
}

/// A row with a new id can be appended to a table: the ids stay distinct, and
/// every id that was there is still there.
pub proof fn lemma_pushed_row_is_consistent<T: Keyed>(rows: Seq<T>, row: T)
    requires
        distinct_keys(rows),
        !has_key(rows, row.key()),
    ensures
        distinct_keys(rows.push(row)),
        forall|k: i32| has_key(rows, k) ==> has_key(rows.push(row), k),
        has_key(rows.push(row), row.key()),
{
    let more = rows.push(row);
    assert forall|k: i32| has_key(rows, k) implies has_key(more, k) by {
        let i = index_of_key(rows, k);
        assert(more[i] == rows[i]);
    }
    assert(more[rows.len() as int] == row);
    assert forall|i: int, j: int| 0 <= i < j < more.len() implies (#[trigger] more[i]).key() != (
    #[trigger] more[j]).key() by {
        assert(more[i] == rows[i]);
        if j < rows.len() {
            assert(more[j] == rows[j]);
        }
    }
}

/// A row can take the place of the row with its id: the ids stay as they
/// are, and the place is the one that the model names.
pub proof fn lemma_replaced_row_is_consistent<T: Keyed>(rows: Seq<T>, row: T, at: int)
    requires
        distinct_keys(rows),
        0 <= at < rows.len(),
        rows[at].key() == row.key(),
    ensures
        index_of_key(rows, row.key()) == at,
        with_replaced(rows, row) == rows.update(at, row),
        distinct_keys(rows.update(at, row)),
        forall|k: i32| has_key(rows, k) <==> has_key(rows.update(at, row), k),
{
    let chosen = index_of_key(rows, row.key());
    if chosen < at {
        assert(rows[chosen].key() != rows[at].key());
    } else if at < chosen {
        assert(rows[at].key() != rows[chosen].key());
    }
    let next = rows.update(at, row);
    assert forall|k: i32| has_key(rows, k) <==> has_key(next, k) by {
        if has_key(rows, k) {
            let i = index_of_key(rows, k);
            assert(next[i].key() == k);
        }
        if has_key(next, k) {
            let i = index_of_key(next, k);
            assert(rows[i].key() == k);
        }
    }
    assert forall|i: int, j: int| 0 <= i < j < next.len() implies (#[trigger] next[i]).key() != (
    #[trigger] next[j]).key() by {
        assert(rows[i].key() != rows[j].key());
    }
}

/// The rows of `rows` that the relation ties to `id`: for each relation row
/// with `id` at its `end`, in the order of the relation, the row that its
/// other end names.
pub fn related_rows<T: Keyed>(
    links: &Vec<CharacterEpisode>,
    end: LinkEnd,
    id: i32,
    rows: &Vec<T>,
) -> (r: Vec<T>)
    requires
        distinct_keys(rows@),
        forall|i: int|
            0 <= i < links@.len() ==> has_key(rows@, end_of(#[trigger] links@[i], opposite(end))),
    ensures
        r@ == related(links@, end, id, rows@),
{
    let other = match end {
        LinkEnd::Character => LinkEnd::Episode,
        LinkEnd::Episode => LinkEnd::Character,
    };
    let mut out: Vec<T> = Vec::new();
    let mut i: usize = 0;
    proof {
        reveal(Seq::filter);
        assert(links@.take(0) =~= Seq::<CharacterEpisode>::empty());
    }
    while i < links.len()
        invariant
            i <= links.len(),
            other == opposite(end),
            distinct_keys(rows@),
            forall|j: int|
                0 <= j < links@.len() ==> has_key(
                    rows@,
                    end_of(#[trigger] links@[j], opposite(end)),
                ),
            out@ == related(links@.take(i as int), end, id, rows@),
        decreases links.len() - i,
    {
        proof {
            links@.lemma_take_succ_push(i as int);
            links@.take(i as int).lemma_filter_push(links@[i as int], names(end, id));
        }
        if link_end(&links[i], end) == id {
            let ghost wanted = end_of(links@[i as int], other);
            match find_row(rows, link_end(&links[i], other)) {
                Ok(row) => {
                    out.push(row);
                },
                Err(_) => {
                    assert(has_key(rows@, wanted));
                },
            }
            assert(out@ =~= related(links@.take(i + 1), end, id, rows@));
        }
        i = i + 1;
    }
    assert(links@.take(i as int) =~= links@);
    out
}

} // verus!
