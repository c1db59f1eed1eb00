//! The filter compiler: from a sparse set of criteria to one predicate over
//! character rows.

use vstd::prelude::*;
use crate::graphql::character_model::Character;

verus! {

/// Optional criteria on characters. A field that is `None` imposes nothing; a
/// field that is present admits the rows whose column holds one of the listed
/// values.
#[derive(Debug)]
pub struct CharacterFilter {
    pub search_text: Option<String>,
    pub status: Option<Vec<String>>,
    pub species: Option<Vec<String>>,
    pub gender: Option<Vec<String>>,
    pub origin_id: Option<Vec<i32>>,
    pub location_id: Option<Vec<i32>>,
}

/// Whether `text` is one of `values`.
pub open spec fn text_among(values: Seq<String>, text: String) -> bool {
    exists|i: int| 0 <= i < values.len() && (#[trigger] values[i])@ == text@
}

/// Whether the reference `id` is present and one of `values`. An absent
/// reference is among no values.
pub open spec fn id_among(values: Seq<i32>, id: Option<i32>) -> bool {
    id matches Some(v) && values.contains(v)
}

/// A predicate over character rows.
#[derive(Debug)]
pub enum FilterCharacterExpr<'a> {
    /// Holds of every row.
    AlwaysTrue,
    StatusIn(&'a Vec<String>),
    SpeciesIn(&'a Vec<String>),
    GenderIn(&'a Vec<String>),
    OriginIn(&'a Vec<i32>),
    LocationIn(&'a Vec<i32>),
    /// Holds where both sides hold.
    And(Box<FilterCharacterExpr<'a>>, Box<FilterCharacterExpr<'a>>),
}

impl<'a> FilterCharacterExpr<'a> {
    /// Whether the predicate holds of `row`.
    pub open spec fn holds(self, row: Character) -> bool
        decreases self,
    {
        match self {
            FilterCharacterExpr::AlwaysTrue => true,
            FilterCharacterExpr::StatusIn(values) => text_among(values@, row.status),
            FilterCharacterExpr::SpeciesIn(values) => text_among(values@, row.species),
            FilterCharacterExpr::GenderIn(values) => text_among(values@, row.gender),
            FilterCharacterExpr::OriginIn(values) => id_among(values@, row.origin_id),
            FilterCharacterExpr::LocationIn(values) => id_among(values@, row.location_id),
            FilterCharacterExpr::And(left, right) => left.holds(row) && right.holds(row),
        }
    }

    /// Evaluates the predicate on one row.
    pub fn accepts(&self, row: &Character) -> (r: bool)
        ensures
            r == self.holds(*row),
        decreases self,
    {
        match self {
            FilterCharacterExpr::AlwaysTrue => true,
            FilterCharacterExpr::StatusIn(values) => contains_text(values, &row.status),
            FilterCharacterExpr::SpeciesIn(values) => contains_text(values, &row.species),
            FilterCharacterExpr::GenderIn(values) => contains_text(values, &row.gender),
            FilterCharacterExpr::OriginIn(values) => contains_id(values, &row.origin_id),
            FilterCharacterExpr::LocationIn(values) => contains_id(values, &row.location_id),
            FilterCharacterExpr::And(left, right) => left.accepts(row) && right.accepts(row),
        }
    }
}

/// The rows of which `predicate` holds.
pub open spec fn admitted<'a>(predicate: FilterCharacterExpr<'a>) -> spec_fn(Character) -> bool {
    |row: Character| predicate.holds(row)
}

/// Whether `text` is one of `values`.
pub fn contains_text(values: &Vec<String>, text: &String) -> (r: bool)
    ensures
        r == text_among(values@, *text),
{
    let mut i: usize = 0;
    while i < values.len()
        invariant
            i <= values.len(),
            forall|j: int| 0 <= j < i ==> (#[trigger] values@[j])@ != text@,
        decreases values.len() - i,
    {
        if values[i] == *text {
            return true;
        }
        i = i + 1;
    }
    false
}

/// Whether the reference `id` is present and one of `values`.
pub fn contains_id(values: &Vec<i32>, id: &Option<i32>) -> (r: bool)
    ensures
        r == id_among(values@, *id),
{
    match id {
        None => false,
        Some(v) => {
            let mut i: usize = 0;
            while i < values.len()
                invariant
                    i <= values.len(),
                    *id == Some(*v),
                    forall|j: int| 0 <= j < i ==> values@[j] != *v,
                decreases values.len() - i,
            {
                if values[i] == *v {
                    assert(values@[i as int] == *v);
                    return true;
                }
                i = i + 1;
            }
            false
        },
    }
}

/// The predicate that `filter` compiles to: the always-true predicate,
/// restricted in turn by each criterion that is present, in the order status,
/// species, gender, origin, current location.
pub open spec fn compiled<'a>(filter: &'a CharacterFilter) -> FilterCharacterExpr<'a> {
    let with_status = match filter.status {
        Some(v) => FilterCharacterExpr::And(
            Box::new(FilterCharacterExpr::AlwaysTrue),
            Box::new(FilterCharacterExpr::StatusIn(&v)),
        ),
        None => FilterCharacterExpr::AlwaysTrue,
    };
    let with_species = match filter.species {
        Some(v) => FilterCharacterExpr::And(
            Box::new(with_status),
            Box::new(FilterCharacterExpr::SpeciesIn(&v)),
        ),
        None => with_status,
    };
    let with_gender = match filter.gender {
        Some(v) => FilterCharacterExpr::And(
            Box::new(with_species),
            Box::new(FilterCharacterExpr::GenderIn(&v)),
        ),
        None => with_species,
    };
    let with_origin = match filter.origin_id {
        Some(v) => FilterCharacterExpr::And(
            Box::new(with_gender),
            Box::new(FilterCharacterExpr::OriginIn(&v)),
        ),
        None => with_gender,
    };
    match filter.location_id {
        Some(v) => FilterCharacterExpr::And(
            Box::new(with_origin),
            Box::new(FilterCharacterExpr::LocationIn(&v)),
        ),
        None => with_origin,
    }
}

/// Whether `row` meets every criterion that is present in `filter`.
pub open spec fn satisfies(filter: CharacterFilter, row: Character) -> bool {
    &&& filter.status matches Some(v) ==> text_among(v@, row.status)
    &&& filter.species matches Some(v) ==> text_among(v@, row.species)
    &&& filter.gender matches Some(v) ==> text_among(v@, row.gender)
    &&& filter.origin_id matches Some(v) ==> id_among(v@, row.origin_id)
    &&& filter.location_id matches Some(v) ==> id_among(v@, row.location_id)
}

/// Whether `filter` names no criterion at all.
pub open spec fn unconstrained(filter: CharacterFilter) -> bool {
    &&& filter.status is None
    &&& filter.species is None
    &&& filter.gender is None
    &&& filter.origin_id is None
    &&& filter.location_id is None
}

/// Compiles the criteria of `filter` into one predicate: the conjunction of
/// the criteria that are present, and the always-true predicate where none is.
pub fn filter_characters<'a>(filter: &'a CharacterFilter) -> (r: FilterCharacterExpr<'a>)
    ensures
        r == compiled(filter),
        forall|row: Character| #[trigger] r.holds(row) == satisfies(*filter, row),
        unconstrained(*filter) ==> r == FilterCharacterExpr::AlwaysTrue,
{
    let mut query = FilterCharacterExpr::AlwaysTrue;
    if let Some(status) = &filter.status {
        query = FilterCharacterExpr::And(
            Box::new(query),
            Box::new(FilterCharacterExpr::StatusIn(status)),
        );
    }
    if let Some(species) = &filter.species {
        query = FilterCharacterExpr::And(
            Box::new(query),
            Box::new(FilterCharacterExpr::SpeciesIn(species)),
        );
    }
    if let Some(gender) = &filter.gender {
        query = FilterCharacterExpr::And(
            Box::new(query),
            Box::new(FilterCharacterExpr::GenderIn(gender)),
        );
    }
    if let Some(origin_id) = &filter.origin_id {
        query = FilterCharacterExpr::And(
            Box::new(query),
            Box::new(FilterCharacterExpr::OriginIn(origin_id)),
        );
    }
    if let Some(location_id) = &filter.location_id {
        query = FilterCharacterExpr::And(
            Box::new(query),
            Box::new(FilterCharacterExpr::LocationIn(location_id)),
        );
    }
    proof {
        law_compiled_is_conjunction(filter);
    }
    query
}

/// The compiled predicate holds of exactly the rows that meet every present
/// criterion; with no criterion present it holds of every row.
pub proof fn law_compiled_is_conjunction(filter: &CharacterFilter)
    ensures
        forall|row: Character| #[trigger] compiled(filter).holds(row) == satisfies(*filter, row),
        unconstrained(*filter) ==> forall|row: Character| #[trigger] compiled(filter).holds(row),
        unconstrained(*filter) ==> compiled(filter) == FilterCharacterExpr::AlwaysTrue,
{
    reveal_with_fuel(FilterCharacterExpr::holds, 8);
}

} // verus!
