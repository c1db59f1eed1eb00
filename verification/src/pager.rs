//! Page arithmetic: from a page index and a row count to an offset window,
//! the number of pages and whether a further page exists.

use vstd::prelude::*;

verus! {

/// Page size of the reference deployment.
pub const ITEMS_PER_PAGE: i32 = 30;

/// Page index that asks for every row, unpaged.
pub const ALL_ROWS: i32 = -1;

/// The page that is actually served: indices below 1 are clamped up to 1.
pub open spec fn effective_page(page_index: int) -> int {
    if page_index < 1 {
        1
    } else {
        page_index
    }
}

/// Number of rows that precede the served page.
pub open spec fn page_offset(limit: int, page_index: int) -> int {
    limit * (effective_page(page_index) - 1)
}

/// `total_count / limit`, rounded up.
pub open spec fn page_count(limit: int, total_count: int) -> int {
    if total_count % limit == 0 {
        total_count / limit
    } else {
        total_count / limit + 1
    }
}

/// Whether rows remain behind the window of the served page.
pub open spec fn has_next_page(limit: int, page_index: int, total_count: int) -> bool {
    total_count > page_offset(limit, page_index) + limit
}

/// What has to be read from the store to serve a page.
#[derive(Clone, Copy, Debug, PartialEq, Eq, Structural)]
pub enum Fetch {
    /// Every row, without offset or limit.
    All,
    /// At most `limit` rows, skipping the first `offset`.
    Window { offset: i64, limit: i64 },
    /// No read at all: the page lies behind the last row.
    Nothing,
}

/// The read that serves `page_index` when the table holds `total_count` rows.
pub open spec fn fetch_for(limit: int, page_index: int, total_count: int) -> Fetch {
    if page_index == ALL_ROWS {
        Fetch::All
    } else if total_count > page_offset(limit, page_index) {
        Fetch::Window { offset: page_offset(limit, page_index) as i64, limit: limit as i64 }
    } else {
        Fetch::Nothing
    }
}

/// Metadata of one page.
#[derive(Clone, Copy, Debug, PartialEq, Eq, Structural)]
pub struct PageBounds {
    pub offset: i64,
    pub limit: i32,
    pub has_next: bool,
    pub num_pages: i32,
}

/// A pager with a fixed, positive page size.
#[derive(Clone, Copy, Debug)]
pub struct Pager {
    limit: i32,
}

impl Pager {
    #[verifier::type_invariant]
    spec fn positive_limit(self) -> bool {
        self.limit > 0
    }

    /// The page size, as a mathematical integer.
    pub closed spec fn limit_of(self) -> int {
        self.limit as int
    }

    /// A pager with page size `limit`, if that is positive.
    pub fn new(limit: i32) -> (r: Option<Pager>)
        ensures
            limit > 0 <==> r is Some,
            r matches Some(p) ==> p.limit_of() == limit,
    {
        if limit > 0 {
            Some(Pager { limit })
        } else {
            None
        }
    }

    /// The pager of the reference deployment.
    pub fn reference() -> (r: Pager)
        ensures
            r.limit_of() == ITEMS_PER_PAGE,
    {
        Pager { limit: ITEMS_PER_PAGE }
    }

    /// The page size.
    pub fn limit(&self) -> (r: i32)
        ensures
            r == self.limit_of(),
            r > 0,
    {
        proof {
            use_type_invariant(self);
        }
        self.limit
    }

    /// Offset of the page that is served for `page_index`.
    pub fn offset(&self, page_index: i32) -> (r: i64)
        ensures
            r == page_offset(self.limit_of(), page_index as int),
            0 <= r,
            r + self.limit_of() <= i64::MAX,
    {
        proof {
            use_type_invariant(self);
        }
        let page: i64 = if page_index < 1 {
            1
        } else {
            page_index as i64
        };
        let limit: i64 = self.limit as i64;
        assert(0 <= limit * (page - 1) <= 0x7fff_ffff * 0x7fff_ffff) by (nonlinear_arith)
            requires
                0 < limit <= 0x7fff_ffff,
                1 <= page <= 0x7fff_ffff,
        ;
        limit * (page - 1)
    }

    /// Number of pages that `total_count` rows fill.
    pub fn num_pages(&self, total_count: i32) -> (r: i32)
        ensures
            r == page_count(self.limit_of(), total_count as int),
    {
        proof {
            use_type_invariant(self);
            law_page_count_is_ceiling(self.limit as int, total_count as int);
        }
        let limit: i64 = self.limit as i64;
        let total: i64 = total_count as i64;
        let ghost want = page_count(limit as int, total as int);
        if total >= 0 {
            let whole: i64 = total / limit;
            let r: i64 = if total % limit == 0 {
                whole
            } else {
                whole + 1
            };
            assert(0 <= whole && (whole >= 1 ==> total >= limit)) by (nonlinear_arith)
                requires
                    limit > 0,
                    total >= 0,
                    whole == total / limit,
            ;
            assert(total % limit != 0 ==> total >= 1);
            r as i32
        } else {
            let back: i64 = -total;
            let whole: i64 = back / limit;
            assert(want == -whole && 0 <= whole <= back) by (nonlinear_arith)
                requires
                    limit > 0,
                    back > 0,
                    total == -back,
                    whole == back / limit,
                    want == page_count(limit as int, total as int),
            ;
            (-whole) as i32
        }
    }

    /// Whether the page served for `page_index` is followed by another one.
    pub fn has_next(&self, page_index: i32, total_count: i32) -> (r: bool)
        ensures
            r == has_next_page(self.limit_of(), page_index as int, total_count as int),
    {
        let offset = self.offset(page_index);
        (total_count as i64) > offset + (self.limit() as i64)
    }

    /// Offset, page size, number of pages and whether a page follows, for the
    /// page served for `page_index` out of `total_count` rows.
    pub fn paginate(&self, page_index: i32, total_count: i32) -> (r: PageBounds)
        ensures
            r.offset == page_offset(self.limit_of(), page_index as int),
            r.limit == self.limit_of(),
            r.has_next == has_next_page(self.limit_of(), page_index as int, total_count as int),
            r.num_pages == page_count(self.limit_of(), total_count as int),
    {
        PageBounds {
            offset: self.offset(page_index),
            limit: self.limit(),
            has_next: self.has_next(page_index, total_count),
            num_pages: self.num_pages(total_count),
        }
    }

    /// Index of the page after the one served for `page_index`, if rows remain
    /// behind it.
    pub fn next_page(&self, page_index: i32, total_count: i32) -> (r: Option<i32>)
        ensures
            r == if has_next_page(self.limit_of(), page_index as int, total_count as int) {
                Some((effective_page(page_index as int) + 1) as i32)
            } else {
                None
            },
            r matches Some(n) ==> n == effective_page(page_index as int) + 1,
    {
        if self.has_next(page_index, total_count) {
            let page: i32 = if page_index < 1 {
                1
            } else {
                page_index
            };
            proof {
                use_type_invariant(self);
                let limit = self.limit as int;
                assert(limit * (page - 1) + limit >= page) by (nonlinear_arith)
                    requires
                        limit >= 1,
                        page >= 1,
                ;
            }
            Some(page + 1)
        } else {
            None
        }
    }

    /// The read that serves `page_index`: every row for [`ALL_ROWS`], nothing
    /// when the page starts at or behind the last row, else one window.
    pub fn fetch(&self, page_index: i32, total_count: i32) -> (r: Fetch)
        ensures
            r == fetch_for(self.limit_of(), page_index as int, total_count as int),
            page_index == ALL_ROWS ==> r == Fetch::All,
            r matches Fetch::Window { offset, limit } ==> 0 <= offset == page_offset(
                self.limit_of(),
                page_index as int,
            ) && 0 < limit == self.limit_of(),
    {
        if page_index == ALL_ROWS {
            Fetch::All
        } else {
            let offset = self.offset(page_index);
            if (total_count as i64) > offset {
                Fetch::Window { offset, limit: self.limit() as i64 }
            } else {
                Fetch::Nothing
            }
        }
    }
}

/// `page_count` is the ceiling of the quotient: the least number of pages of
/// `limit` rows that hold `total_count` rows.
pub proof fn law_page_count_is_ceiling(limit: int, total_count: int)
    requires
        limit > 0,
    ensures
        page_count(limit, total_count) * limit >= total_count,
        (page_count(limit, total_count) - 1) * limit < total_count,
        page_count(limit, total_count) == 0 <==> -limit < total_count <= 0,
        total_count >= 0 ==> (page_count(limit, total_count) == 0 <==> total_count == 0),
        total_count >= 0 ==> 0 <= page_count(limit, total_count) <= total_count,
{
    let q = total_count / limit;
    let m = total_count % limit;
    assert(total_count == q * limit + m && 0 <= m < limit) by (nonlinear_arith)
        requires
            limit > 0,
            q == total_count / limit,
            m == total_count % limit,
    ;
    assert((q + 1) * limit == q * limit + limit) by (nonlinear_arith);
    assert((q - 1) * limit == q * limit - limit) by (nonlinear_arith);
    assert(q == 0 ==> q * limit == 0) by (nonlinear_arith);
    assert(q >= 1 ==> q * limit >= limit) by (nonlinear_arith)
        requires
            limit > 0,
    ;
    assert(q == -1 ==> q * limit == -limit) by (nonlinear_arith);
    assert(q <= -2 ==> q * limit <= -2 * limit) by (nonlinear_arith)
        requires
            limit > 0,
    ;
    assert(q >= 0 ==> q * limit >= q) by (nonlinear_arith)
        requires
            limit > 0,
    ;
}

/// From page 1 on, the offset is `limit * (page_index - 1)` and grows strictly
/// with the page index.
pub proof fn law_offset_strictly_increasing(limit: int, earlier: int, later: int)
    requires
        limit > 0,
        1 <= earlier < later,
    ensures
        page_offset(limit, earlier) == limit * (earlier - 1),
        page_offset(limit, later) == limit * (later - 1),
        page_offset(limit, earlier) + limit <= page_offset(limit, later),
        page_offset(limit, earlier) < page_offset(limit, later),
{
    assert(limit * (earlier - 1) + limit <= limit * (later - 1)) by (nonlinear_arith)
        requires
            limit > 0,
            earlier < later,
    ;
}

/// A page has a next page exactly when it lies before the last page; the last
/// page, and every page behind it, has none.
pub proof fn law_has_next_iff_before_last_page(limit: int, page_index: int, total_count: int)
    requires
        limit > 0,
    ensures
        has_next_page(limit, page_index, total_count) <==> effective_page(page_index) < page_count(
            limit,
            total_count,
        ),
{
    law_page_count_is_ceiling(limit, total_count);
    let served = effective_page(page_index);
    let pages = page_count(limit, total_count);
    assert(limit * (served - 1) + limit == limit * served) by (nonlinear_arith);
    assert(served < pages ==> limit * served <= (pages - 1) * limit) by (nonlinear_arith)
        requires
            limit > 0,
    ;
    assert(served >= pages ==> limit * served >= pages * limit) by (nonlinear_arith)
        requires
            limit > 0,
    ;
}

/// A page has a next page exactly when some page with a greater index starts
/// before the last row, that is, when a later page would not come back empty.
pub proof fn law_has_next_iff_later_page_not_empty(limit: int, page_index: int, total_count: int)
    requires
        limit > 0,
    ensures
        has_next_page(limit, page_index, total_count) <==> exists|later: int|
            later > effective_page(page_index) && total_count > #[trigger] page_offset(
                limit,
                later,
            ),
{
    let served = effective_page(page_index);
    assert(limit * (served - 1) + limit == limit * ((served + 1) - 1)) by (nonlinear_arith);
    if has_next_page(limit, page_index, total_count) {
        assert(total_count > page_offset(limit, served + 1));
    }
    assert forall|later: int|
        later > served && total_count > #[trigger] page_offset(
            limit,
            later,
        ) implies has_next_page(limit, page_index, total_count) by {
        law_offset_strictly_increasing(limit, served, later);
    }
}

/// The page index [`ALL_ROWS`] asks for every row, however many there are; any
/// other index asks for one window or for nothing.
pub proof fn law_sentinel_reads_everything(limit: int, page_index: int, total_count: int)
    requires
        limit > 0,
    ensures
        fetch_for(limit, ALL_ROWS as int, total_count) == Fetch::All,
        page_index != ALL_ROWS ==> fetch_for(limit, page_index, total_count) != Fetch::All,
{
}

} // verus!
