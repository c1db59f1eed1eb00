//! The query and mutation surface: what a list, a lookup and a write decide,
//! over rows of characters, episodes and locations.

pub mod character_model;
pub mod context;
pub mod episode_model;
pub mod filter;
pub mod location_model;

use vstd::prelude::*;
use crate::db::{
    cache_matches, counts_of, get_all_counts, reset_db, seed_countable, EntityKind, SeedData,
};
use crate::graphql::character_model::{CaracterMutation, Character};
use crate::graphql::context::Ctx;
use crate::graphql::episode_model::{Episode, EpisodeMutation};
use crate::graphql::filter::{compiled, filter_characters, CharacterFilter, FilterCharacterExpr};
use crate::graphql::location_model::{Location, LocationMutation};
use crate::memory::{fetch_rows, Store};
use crate::pager::{
    effective_page, fetch_for, has_next_page, page_count, ALL_ROWS, Fetch, ITEMS_PER_PAGE, Pager,
};
use crate::store::{fetched, found, Keyed, StoreError};

verus! {

/// What a list response says about the list as a whole.
#[derive(Clone, Copy, Debug, PartialEq, Eq, Structural)]
pub struct InfoListResult {
    /// The index of the next page, if rows remain behind this one.
    pub next_page: Option<i32>,
    /// The number of pages that the rows fill.
    pub num_pages: i32,
    /// The number of rows, as the count cache has it.
    pub item_count: i32,
}

/// One page of a list: the metadata and the rows.
#[derive(Debug)]
pub struct ListResult<Model> {
    pub info: InfoListResult,
    pub results: Vec<Model>,
}

impl<Model> ListResult<Model> {
    pub fn info(&self) -> (r: &InfoListResult)
        ensures
            *r == self.info,
    {
        &self.info
    }

    pub fn results(&self) -> (r: &Vec<Model>)
        ensures
            *r == self.results,
    {
        &self.results
    }
}

/// The metadata of the page served for `page_input`, for pages of `limit`
/// rows out of `item_count`.
pub open spec fn info_for(limit: int, page_input: int, item_count: int) -> InfoListResult {
    InfoListResult {
        next_page: if has_next_page(limit, page_input, item_count) {
            Some((effective_page(page_input) + 1) as i32)
        } else {
            None
        },
        num_pages: page_count(limit, item_count) as i32,
        item_count: item_count as i32,
    }
}

/// What serving `page_input` takes when the cache counts `item_count` rows:
/// the metadata of the page and the read that fetches its rows, for pages of
/// the size that `pager` has.
pub fn page_plan(pager: &Pager, page_input: i32, item_count: i32) -> (r: (InfoListResult, Fetch))
    ensures
        r.0 == info_for(pager.limit_of(), page_input as int, item_count as int),
        r.1 == fetch_for(pager.limit_of(), page_input as int, item_count as int),
        page_input == ALL_ROWS ==> r.1 == Fetch::All,
        r.1 matches Fetch::Window { offset, limit } ==> 0 <= offset && 0 < limit,
{
    let info = InfoListResult {
        next_page: pager.next_page(page_input, item_count),
        num_pages: pager.num_pages(item_count),
        item_count,
    };
    (info, pager.fetch(page_input, item_count))
}

/// Serves one page of `table`. The metadata and the decision what to read
/// follow from `page_input` and `item_count` alone: every row for the page
/// index [`ALL_ROWS`], nothing where the page lies behind `item_count` rows,
/// else the window of the page. The rows come from the table as it is.
pub fn load_many<Model: Keyed>(
    pager: &Pager,
    table: &Vec<Model>,
    page_input: i32,
    item_count: i32,
) -> (r: Result<ListResult<Model>, StoreError>)
    ensures
        r matches Ok(list) && list.info == info_for(
            pager.limit_of(),
            page_input as int,
            item_count as int,
        ) && Ok::<Seq<Model>, StoreError>(list.results@) == fetched(
            table@,
            fetch_for(pager.limit_of(), page_input as int, item_count as int),
        ),
        page_input == ALL_ROWS ==> (r matches Ok(list) && list.results@ == table@),
{
    let (info, fetch) = page_plan(pager, page_input, item_count);
    match fetch_rows(table, fetch) {
        Ok(results) => Ok(ListResult { info, results }),
        Err(e) => Err(e),
    }
}

/// The text that a filter searches for: none where the search text is absent
/// or empty.
pub open spec fn searched(filter: CharacterFilter) -> Option<String> {
    match filter.search_text {
        Some(text) => if text@.len() == 0 {
            None
        } else {
            Some(text)
        },
        None => None,
    }
}

/// A filtered list query: the predicate, the text to search for where a
/// search is asked for, and the window that the caller chose.
#[derive(Debug)]
pub struct CharacterQuery<'a> {
    pub predicate: FilterCharacterExpr<'a>,
    /// The text that rows are matched against and ranked by, best first. It
    /// is a value of the query and no part of its wording: whatever
    /// characters it holds, it stands for itself.
    pub search_text: Option<String>,
    pub limit: i64,
    pub offset: i64,
}

/// The reads.
pub struct Query;

impl Query {
    /// One page of characters, with the cached count as the number of rows.
    pub fn characters(page: i32, store: &Store, context: &Ctx) -> (r: Result<
        ListResult<Character>,
        StoreError,
    >)
        ensures
            r matches Ok(list) && list.info == info_for(
                ITEMS_PER_PAGE as int,
                page as int,
                context@.of(EntityKind::Character),
            ) && Ok::<Seq<Character>, StoreError>(list.results@) == fetched(
                store@.characters,
                fetch_for(ITEMS_PER_PAGE as int, page as int, context@.of(EntityKind::Character)),
            ),
            page == ALL_ROWS ==> (r matches Ok(list) && list.results@ == store@.characters),
    {
        load_many(&Pager::reference(), store.characters(), page, context.read(EntityKind::Character))
    }

    /// The query for a filtered list of characters: the compiled predicate,
    /// the window as the caller gave it, and, where the filter carries a
    /// search text that is not empty, that text, unchanged, to match and rank
    /// by.
    pub fn characters_filtered<'a>(limit: i32, offset: i32, filter: &'a CharacterFilter) -> (r:
        CharacterQuery<'a>)
        ensures
            r.predicate == compiled(filter),
            r.limit == limit,
            r.offset == offset,
            r.search_text == searched(*filter),
    {
        let predicate = filter_characters(filter);
        let search_text = match &filter.search_text {
            Some(text) => {
                if text.as_str().is_empty() {
                    None
                } else {
                    Some(text.clone())
                }
            },
            None => None,
        };
        CharacterQuery { predicate, search_text, limit: limit as i64, offset: offset as i64 }
    }

    /// The character with the id `id`.
    pub fn character(id: i32, store: &Store) -> (r: Result<Character, StoreError>)
        requires
            store@.consistent(),
        ensures
            r == found(store@.characters, id),
    {
        store.find_character(id)
    }

    /// One page of episodes, with the cached count as the number of rows.
    pub fn episodes(page: i32, store: &Store, context: &Ctx) -> (r: Result<
        ListResult<Episode>,
        StoreError,
    >)
        ensures
            r matches Ok(list) && list.info == info_for(
                ITEMS_PER_PAGE as int,
                page as int,
                context@.of(EntityKind::Episode),
            ) && Ok::<Seq<Episode>, StoreError>(list.results@) == fetched(
                store@.episodes,
                fetch_for(ITEMS_PER_PAGE as int, page as int, context@.of(EntityKind::Episode)),
            ),
            page == ALL_ROWS ==> (r matches Ok(list) && list.results@ == store@.episodes),
    {
        load_many(&Pager::reference(), store.episodes(), page, context.read(EntityKind::Episode))
    }

    /// The episode with the id `id`.
    pub fn episode(id: i32, store: &Store) -> (r: Result<Episode, StoreError>)
        requires
            store@.consistent(),
        ensures
            r == found(store@.episodes, id),
    {
        store.find_episode(id)
    }

    /// One page of locations, with the cached count as the number of rows.
    pub fn locations(page: i32, store: &Store, context: &Ctx) -> (r: Result<
        ListResult<Location>,
        StoreError,
    >)
        ensures
            r matches Ok(list) && list.info == info_for(
                ITEMS_PER_PAGE as int,
                page as int,
                context@.of(EntityKind::Location),
            ) && Ok::<Seq<Location>, StoreError>(list.results@) == fetched(
                store@.locations,
                fetch_for(ITEMS_PER_PAGE as int, page as int, context@.of(EntityKind::Location)),
            ),
            page == ALL_ROWS ==> (r matches Ok(list) && list.results@ == store@.locations),
    {
        load_many(&Pager::reference(), store.locations(), page, context.read(EntityKind::Location))
    }

    /// The location with the id `id`.
    pub fn location(id: i32, store: &Store) -> (r: Result<Location, StoreError>)
        requires
            store@.consistent(),
        ensures
            r == found(store@.locations, id),
    {
        store.find_location(id)
    }
}

/// A search for the empty text is no search: it yields the query that the
/// same filter yields without a search text, with no clause to match or rank
/// by.
pub proof fn law_empty_search_is_no_search(with_empty: CharacterFilter, without: CharacterFilter)
    requires
        with_empty.search_text matches Some(text) && text@.len() == 0,
        without.search_text is None,
        with_empty.status == without.status,
        with_empty.species == without.species,
        with_empty.gender == without.gender,
        with_empty.origin_id == without.origin_id,
        with_empty.location_id == without.location_id,
    ensures
        searched(with_empty) is None,
        searched(without) is None,
        compiled(&with_empty) == compiled(&without),
{
}

/// The writes.
pub struct Mutation;

impl Mutation {
    /// Reseeds the store from `seed` and, if that goes through, overwrites
    /// the count cache with the row counts of the store as it is then. If the
    /// seed is refused, store and cache stay as they were.
    pub fn reset_db(store: &mut Store, context: &mut Ctx, seed: SeedData) -> (r: Result<
        bool,
        StoreError,
    >)
        requires
            old(store)@.consistent(),
        ensures
            final(store)@.consistent(),
            match seed.fault() {
                None => {
                    &&& r == Ok::<bool, StoreError>(true)
                    &&& final(store)@ == seed.seeded(old(store)@)
                    &&& final(context)@ == counts_of(final(store)@)
                    &&& seed_countable(seed) ==> {
                        &&& cache_matches(final(context)@, final(store)@)
                        &&& final(context)@.of(EntityKind::Character) == seed.characters@.len()
                        &&& final(context)@.of(EntityKind::Location) == seed.locations@.len()
                        &&& final(context)@.of(EntityKind::Episode) == seed.episodes@.len()
                    }
                },
                Some(e) => {
                    &&& r == Err::<bool, StoreError>(e)
                    &&& final(store)@ == old(store)@
                    &&& final(context)@ == old(context)@
                },
            },
    {
        match reset_db(store, seed) {
            Ok(_) => {},
            Err(e) => {
                return Err(e);
            },
        }
        let counts = get_all_counts(store);
        context.reset_all(counts);
        Ok(true)
    }

    /// The writes on characters.
    pub fn character_mutation() -> (r: CaracterMutation)
        ensures
            r == CaracterMutation,
    {
        CaracterMutation
    }

    /// The writes on episodes.
    pub fn episode_mutation() -> (r: EpisodeMutation)
        ensures
            r == EpisodeMutation,
    {
        EpisodeMutation
    }

    /// The writes on locations.
    pub fn location_mutation() -> (r: LocationMutation)
        ensures
            r == LocationMutation,
    {
        LocationMutation
    }
}

} // verus!
