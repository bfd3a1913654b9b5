//! Page-number pagination of the users ordered by primary key.
//!
//! A page is named by a 1-based page number and a page size. It stands for the
//! window `LIMIT per_page OFFSET (page - 1) * per_page` of the users in the
//! order of their keys. [`Paginated::window`] says which rows that is; the
//! executable methods compute the two numbers for a database to use, or
//! answer the query from rows held in memory.

use crate::models::base_query::{order_by_id, ordered_by_id};
use crate::models::{QueryError, User};
use vstd::prelude::*;

verus! {

/// The page size of a query that names none.
pub const DEFAULT_PER_PAGE: i64 = 10;

/// One page of the users ordered by primary key.
#[derive(Debug, Clone, Copy, PartialEq, Eq, Structural)]
pub struct Paginated {
    pub page: i64,
    pub per_page: i64,
}

/// Page `page` of the users ordered by primary key, at the default page
/// size.
pub fn paginate(page: i64) -> (query: Paginated)
    ensures
        query == (Paginated { page, per_page: DEFAULT_PER_PAGE }),
{
    Paginated { page, per_page: DEFAULT_PER_PAGE }
}

/// The number of pages that hold at least one row, for `total` rows cut into
/// pages of `per_page`: `total / per_page`, rounded up.
pub open spec fn page_count(total: int, per_page: int) -> int
    recommends
        total >= 0,
        per_page >= 1,
{
    (total + per_page - 1) / per_page
}

/// Computes [`page_count`].
pub fn total_pages(total: i64, per_page: i64) -> (pages: i64)
    requires
        total >= 0,
        per_page >= 1,
    ensures
        pages == page_count(total as int, per_page as int),
{
    let full: i64 = total / per_page;
    let rest: i64 = total % per_page;
    assert(total == full * per_page + rest && 0 <= rest < per_page) by (nonlinear_arith)
        requires
            total >= 0,
            per_page >= 1,
            full == total / per_page,
            rest == total % per_page,
    ;
    assert(page_count(total as int, per_page as int) == if rest == 0 {
        full as int
    } else {
        full + 1
    }) by (nonlinear_arith)
        requires
            total == full * per_page + rest,
            0 <= rest < per_page,
            per_page >= 1,
    ;
    assert(full + rest <= total) by (nonlinear_arith)
        requires
            total == full * per_page + rest,
            per_page >= 1,
            full >= 0,
    ;
    if rest == 0 {
        full
    } else {
        full + 1
    }
}

/// The rows of page `page` at `per_page` rows a page among `rows`, the rows
/// of the whole query in its order: at most `per_page` of them, starting
/// after the first `(page - 1) * per_page`. A page that starts at or beyond
/// the end is empty. A window that starts before the first row, or one of
/// negative size, is refused; the offset is looked at first.
pub open spec fn page_window<T>(rows: Seq<T>, page: int, per_page: int) -> Result<
    Seq<T>,
    QueryError,
> {
    let offset = (page - 1) * per_page;
    if offset < 0 {
        Err(QueryError::NegativeOffset)
    } else if per_page < 0 {
        Err(QueryError::NegativeLimit)
    } else if offset >= rows.len() {
        Ok(Seq::empty())
    } else if offset + per_page >= rows.len() {
        Ok(rows.subrange(offset, rows.len() as int))
    } else {
        Ok(rows.subrange(offset, offset + per_page))
    }
}

impl Paginated {
    /// The same page number at another page size.
    pub fn per_page(self, per_page: i64) -> (query: Paginated)
        ensures
            query == (Paginated { page: self.page, per_page }),
    {
        Paginated { page: self.page, per_page }
    }

    /// How many rows come before the page: `(page - 1) * per_page`.
    pub open spec fn spec_offset(self) -> int {
        (self.page - 1) * self.per_page
    }

    /// The answer to this query over a table that holds `users`: the window
    /// of this page, see [`page_window`], among the users ordered by primary
    /// key.
    pub open spec fn window(self, users: Seq<User>) -> Result<Seq<User>, QueryError> {
        page_window(ordered_by_id(users), self.page as int, self.per_page as int)
    }

    /// The `LIMIT` of this page.
    pub fn limit(&self) -> (limit: i64)
        ensures
            limit == self.per_page,
    {
        self.per_page
    }

    /// The `OFFSET` of this page, or `None` where it does not fit 64 bits.
    pub fn offset(&self) -> (offset: Option<i64>)
        ensures
            match offset {
                Some(rows_before) => rows_before == self.spec_offset(),
                None => self.spec_offset() < i64::MIN || self.spec_offset() > i64::MAX,
            },
    {
        let wide: i128 = self.wide_offset();
        if wide < -9223372036854775808i128 || wide > 9223372036854775807i128 {
            None
        } else {
            Some(wide as i64)
        }
    }

    /// The offset in a type wide enough for every page and page size.
    fn wide_offset(&self) -> (offset: i128)
        ensures
            offset == self.spec_offset(),
    {
        let pages_before: i128 = self.page as i128 - 1;
        let per_page: i128 = self.per_page as i128;
        assert(-0x8000_0000_0000_0000_0000_0000_0000_0000 < pages_before * per_page
            < 0x8000_0000_0000_0000_0000_0000_0000_0000) by (nonlinear_arith)
            requires
                -0x8000_0000_0000_0001 <= pages_before <= 0x8000_0000_0000_0000,
                -0x8000_0000_0000_0000 <= per_page <= 0x8000_0000_0000_0000,
        ;
        pages_before * per_page
    }

    /// Answers this query from `users`, the rows of the table, held in
    /// memory.
    pub fn load(&self, users: &Vec<User>) -> (page: Result<Vec<User>, QueryError>)
        ensures
            match page {
                Ok(rows) => self.window(users@) == Ok::<Seq<User>, QueryError>(rows@),
                Err(error) => self.window(users@) == Err::<Seq<User>, QueryError>(error),
            },
    {
        let ordered = order_by_id(users);
        self.cut(&ordered)
    }

    /// Cuts the window of this page out of `rows`, the rows of the whole
    /// query in its order.
    fn cut(&self, rows: &Vec<User>) -> (page: Result<Vec<User>, QueryError>)
        ensures
            match page {
                Ok(cut) => page_window(rows@, self.page as int, self.per_page as int) == Ok::<
                    Seq<User>,
                    QueryError,
                >(cut@),
                Err(error) => page_window(rows@, self.page as int, self.per_page as int) == Err::<
                    Seq<User>,
                    QueryError,
                >(error),
            },
    {
        let offset: i128 = self.wide_offset();
        if offset < 0 {
            return Err(QueryError::NegativeOffset);
        }
        if self.per_page < 0 {
            return Err(QueryError::NegativeLimit);
        }
        let len: usize = rows.len();
        let mut cut: Vec<User> = Vec::new();
        if offset >= len as i128 {
            return Ok(cut);
        }
        let start: usize = offset as usize;
        let end: usize = if self.per_page as i128 >= (len - start) as i128 {
            len
        } else {
            start + self.per_page as usize
        };
        let mut i: usize = start;
        while i < end
            invariant
                start <= i <= end <= len,
                len == rows.len(),
                cut@ == rows@.subrange(start as int, i as int),
            decreases end - i,
        {
            cut.push(rows[i].clone());
            assert(cut@ =~= rows@.subrange(start as int, i + 1));
            i = i + 1;
        }
        Ok(cut)
    }
}

/// `page_count` is the quotient rounded up: that many pages of `per_page`
/// rows hold `total` rows, and one page fewer does not.
pub proof fn lemma_page_count_rounds_up(total: int, per_page: int)
    requires
        total >= 0,
        per_page >= 1,
    ensures
        page_count(total, per_page) >= 0,
        (page_count(total, per_page) - 1) * per_page < total <= page_count(total, per_page)
            * per_page,
{
    let sum = total + per_page - 1;
    let pages = sum / per_page;
    let rest = sum % per_page;
    assert(sum == pages * per_page + rest && 0 <= rest < per_page && pages >= 0)
        by (nonlinear_arith)
        requires
            sum >= 0,
            per_page >= 1,
            pages == sum / per_page,
            rest == sum % per_page,
    ;
    assert((pages - 1) * per_page == pages * per_page - per_page) by (nonlinear_arith);
}

/// With at least one row to a page, the pages that hold a row are the first
/// `page_count` pages: every later page is empty.
pub proof fn lemma_pages_with_rows<T>(rows: Seq<T>, page: int, per_page: int)
    requires
        page >= 1,
        per_page >= 1,
    ensures
        page_window(rows, page, per_page) is Ok,
        page_window(rows, page, per_page)->Ok_0.len() > 0 <==> page <= page_count(
            rows.len() as int,
            per_page,
        ),
{
    let total = rows.len() as int;
    let pages = page_count(total, per_page);
    lemma_page_count_rounds_up(total, per_page);
    let offset = (page - 1) * per_page;
    assert(offset >= 0) by (nonlinear_arith)
        requires
            offset == (page - 1) * per_page,
            page >= 1,
            per_page >= 1,
    ;
    if page <= pages {
        assert(offset <= (pages - 1) * per_page) by (nonlinear_arith)
            requires
                offset == (page - 1) * per_page,
                page <= pages,
                per_page >= 1,
        ;
    } else {
        assert(offset >= pages * per_page) by (nonlinear_arith)
            requires
                offset == (page - 1) * per_page,
                page > pages,
                per_page >= 1,
        ;
    }
}

/// A page holds the rows from its offset on: `per_page` of them, or those
/// that are left where the table ends earlier.
pub proof fn lemma_page_rows<T>(rows: Seq<T>, page: int, per_page: int, i: int)
    requires
        page >= 1,
        per_page >= 0,
        0 <= i < per_page,
        (page - 1) * per_page + i < rows.len(),
    ensures
        page_window(rows, page, per_page) is Ok,
        i < page_window(rows, page, per_page)->Ok_0.len(),
        page_window(rows, page, per_page)->Ok_0[i] == rows[(page - 1) * per_page + i],
{
    let offset = (page - 1) * per_page;
    assert(offset >= 0) by (nonlinear_arith)
        requires
            offset == (page - 1) * per_page,
            page >= 1,
            per_page >= 0,
    ;
}

/// The rows of the first `pages` pages, one page after the other.
pub open spec fn first_pages<T>(rows: Seq<T>, pages: nat, per_page: int) -> Seq<T>
    decreases pages,
{
    if pages == 0 {
        Seq::empty()
    } else {
        first_pages(rows, (pages - 1) as nat, per_page) + page_window(
            rows,
            pages as int,
            per_page,
        )->Ok_0
    }
}

/// Walking the pages from the first one on gives the rows in their order,
/// each once: the first `pages` pages are the first `pages * per_page` rows,
/// or all rows where there are fewer.
pub proof fn lemma_first_pages<T>(rows: Seq<T>, pages: nat, per_page: int)
    requires
        per_page >= 0,
    ensures
        first_pages(rows, pages, per_page) == if pages * per_page >= rows.len() {
            rows
        } else {
            rows.subrange(0, pages * per_page)
        },
    decreases pages,
{
    if pages == 0 {
        assert(pages * per_page == 0) by (nonlinear_arith)
            requires
                pages == 0,
        ;
        assert(rows.subrange(0, 0) =~= Seq::<T>::empty());
        if rows.len() == 0 {
            assert(rows =~= Seq::<T>::empty());
        }
    } else {
        let before = (pages - 1) as nat;
        lemma_first_pages(rows, before, per_page);
        let offset = (pages - 1) * per_page;
        let end = pages * per_page;
        assert(offset >= 0 && end == offset + per_page) by (nonlinear_arith)
            requires
                offset == (pages - 1) * per_page,
                end == pages * per_page,
                pages >= 1,
                per_page >= 0,
        ;
        let page = page_window(rows, pages as int, per_page)->Ok_0;
        let sum = first_pages(rows, before, per_page) + page;
        if offset >= rows.len() {
            assert(sum =~= rows);
        } else if end >= rows.len() {
            assert(sum =~= rows);
        } else {
            assert(sum =~= rows.subrange(0, end));
        }
    }
}

/// With at least one row to a page, the pages that hold a row, one after the
/// other, are the whole table.
pub proof fn lemma_pages_cover_rows<T>(rows: Seq<T>, per_page: int)
    requires
        per_page >= 1,
    ensures
        first_pages(rows, page_count(rows.len() as int, per_page) as nat, per_page) == rows,
{
    lemma_page_count_rounds_up(rows.len() as int, per_page);
    lemma_first_pages(rows, page_count(rows.len() as int, per_page) as nat, per_page);
}

} // verus!
