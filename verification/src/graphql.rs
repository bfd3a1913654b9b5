//! The GraphQL types over users and countries, and the resolvers of their
//! fields.
//!
//! The database is not reached from here. A resolver that needs rows takes
//! them as an argument: the rows of the table, or of the query that the caller
//! ran for it. `userConnections` needs two queries in turn, so it is resolved
//! in steps: [`user_connections`] reads the arguments and names the first
//! query, [`PageFetch::loaded`] takes its answer and names the second, and
//! [`NextPageCheck::finish`] takes that answer and gives the connection. An
//! answer is rows or an error, and an error ends the resolution.
//! [`Query::field_user_connections`] runs the same steps over rows in memory.

use crate::decimal::{format_i64, i64_of_text, integer_text, parse_i64};
use crate::models::base_query::{lemma_ordered_by_id, order_by_id, ordered_by_id};
use crate::models::pagination::{
    lemma_page_count_rounds_up, lemma_pages_with_rows, page_count, page_window, paginate, Paginated,
};
use crate::models::{Country, QueryError, User, UserView};
use juniper::ID;
use vstd::prelude::*;

verus! {

/// `juniper::ID`, the GraphQL scalar `ID`: a string under another type.
#[verifier::external_type_specification]
#[verifier::external_body]
pub struct ExId(juniper::ID);

/// The string that a `juniper::ID` holds.
pub uninterp spec fn id_text(id: ID) -> Seq<char>;

/// `juniper::ID::new`: the `ID` that holds exactly the given string.
#[verifier::external_body]
fn new_id(text: String) -> (id: ID)
    ensures
        id_text(id) == text@,
{
    ID::new(text)
}

/// An opaque pagination token: a page number, 1-based, written in decimal.
/// Nothing protects it; a client may send any text.
#[derive(Debug)]
pub struct Cursor(pub String);

impl View for Cursor {
    type V = Seq<char>;

    open spec fn view(&self) -> Seq<char> {
        self.0@
    }
}

impl Clone for Cursor {
    fn clone(&self) -> (copy: Self)
        ensures
            copy == *self,
    {
        Cursor(self.0.clone())
    }
}

/// The text of an optional cursor.
pub open spec fn cursor_text(cursor: Option<Cursor>) -> Option<Seq<char>> {
    match cursor {
        Some(cursor) => Some(cursor@),
        None => None,
    }
}

/// The page that a request names: the first page where it has no cursor,
/// else the number that the cursor's text denotes, if it denotes one.
pub open spec fn cursor_page(cursor: Option<Seq<char>>) -> Option<i64> {
    match cursor {
        Some(text) => i64_of_text(text),
        None => Some(1),
    }
}

/// Whether a page can be resolved for this cursor: it names a page, and the
/// number of the page after it fits 64 bits.
pub open spec fn cursor_accepted(cursor: Option<Seq<char>>) -> bool {
    cursor_page(cursor) matches Some(page_number) && page_number < i64::MAX
}

/// Computes [`cursor_page`].
pub fn page_number(cursor: &Option<Cursor>) -> (page: Option<i64>)
    ensures
        page == cursor_page(cursor_text(*cursor)),
{
    match cursor {
        Some(cursor) => parse_i64(cursor.0.as_str()),
        None => Some(1),
    }
}

/// Where a page ends and whether another follows.
#[derive(Debug)]
pub struct PageInfo {
    start_cursor: Option<Cursor>,
    end_cursor: Option<Cursor>,
    has_next_page: bool,
}

/// What a `PageInfo` holds.
pub ghost struct PageInfoView {
    pub start_cursor: Option<Seq<char>>,
    pub end_cursor: Option<Seq<char>>,
    pub has_next_page: bool,
}

impl View for PageInfo {
    type V = PageInfoView;

    closed spec fn view(&self) -> PageInfoView {
        PageInfoView {
            start_cursor: cursor_text(self.start_cursor),
            end_cursor: cursor_text(self.end_cursor),
            has_next_page: self.has_next_page,
        }
    }
}

impl PageInfo {
    /// Resolves `startCursor`: the cursor of the first edge, if there is
    /// one.
    pub fn field_start_cursor(&self) -> (cursor: &Option<Cursor>)
        ensures
            cursor_text(*cursor) == self@.start_cursor,
    {
        &self.start_cursor
    }

    /// Resolves `endCursor`: the cursor of the last edge, if there is one.
    pub fn field_end_cursor(&self) -> (cursor: &Option<Cursor>)
        ensures
            cursor_text(*cursor) == self@.end_cursor,
    {
        &self.end_cursor
    }

    /// Resolves `hasNextPage`.
    pub fn field_has_next_page(&self) -> (has_next_page: &bool)
        ensures
            *has_next_page == self@.has_next_page,
    {
        &self.has_next_page
    }
}

/// A node of a connection with the cursor sent along with it.
#[derive(Debug)]
pub struct Edge<T> {
    node: T,
    cursor: Cursor,
}

/// What an `Edge` holds.
pub ghost struct EdgeView<V> {
    pub node: V,
    pub cursor: Seq<char>,
}

impl<T: View> View for Edge<T> {
    type V = EdgeView<T::V>;

    closed spec fn view(&self) -> EdgeView<T::V> {
        EdgeView { node: self.node@, cursor: self.cursor@ }
    }
}

pub type UserEdge = Edge<User>;

impl Edge<User> {
    /// Resolves `node`.
    pub fn field_node(&self) -> (node: &User)
        ensures
            node@ == self@.node,
    {
        &self.node
    }

    /// Resolves `cursor`.
    pub fn field_cursor(&self) -> (cursor: &Cursor)
        ensures
            cursor@ == self@.cursor,
    {
        &self.cursor
    }
}

/// One page of users, with the row count of the whole table.
#[derive(Debug)]
pub struct UserConnection {
    edges: Vec<UserEdge>,
    page_info: PageInfo,
    total_count: i32,
}

/// What a `UserConnection` holds.
pub ghost struct UserConnectionView {
    pub edges: Seq<EdgeView<UserView>>,
    pub page_info: PageInfoView,
    pub total_count: int,
}

/// The views of a sequence of edges, in the same order.
pub open spec fn edge_views(edges: Seq<UserEdge>) -> Seq<EdgeView<UserView>> {
    edges.map_values(|edge: UserEdge| edge@)
}

impl View for UserConnection {
    type V = UserConnectionView;

    closed spec fn view(&self) -> UserConnectionView {
        UserConnectionView {
            edges: edge_views(self.edges@),
            page_info: self.page_info@,
            total_count: self.total_count as int,
        }
    }
}

impl UserConnection {
    /// Resolves `edges`.
    pub fn field_edges(&self) -> (edges: &Vec<UserEdge>)
        ensures
            edge_views(edges@) == self@.edges,
    {
        &self.edges
    }

    /// Resolves `pageInfo`.
    pub fn field_page_info(&self) -> (page_info: &PageInfo)
        ensures
            page_info@ == self@.page_info,
    {
        &self.page_info
    }

    /// Resolves `totalCount`.
    pub fn field_total_count(&self) -> (total_count: &i32)
        ensures
            *total_count == self@.total_count,
    {
        &self.total_count
    }
}

/// The edges of a page: one for each user, in order, every one with the
/// cursor `cursor`.
pub open spec fn page_edges(page: Seq<User>, cursor: Seq<char>) -> Seq<EdgeView<UserView>> {
    page.map_values(|user: User| EdgeView { node: user@, cursor })
}

/// The connection for page `page_number`, given the users on that page, the
/// row count of the table and whether the page after it holds a row.
///
/// Every edge carries the cursor of the page after this one, and so do both
/// ends of a page that is not empty. The count is cut to 32 bits.
pub open spec fn connection_view(
    page_number: int,
    page: Seq<User>,
    total_count: int,
    has_next_page: bool,
) -> UserConnectionView {
    let next_page_cursor = integer_text(page_number + 1);
    let end = if page.len() > 0 {
        Some(next_page_cursor)
    } else {
        None
    };
    UserConnectionView {
        edges: page_edges(page, next_page_cursor),
        page_info: PageInfoView { start_cursor: end, end_cursor: end, has_next_page },
        total_count: (total_count as i32) as int,
    }
}

/// The connection that page `page_number` at `page_size` rows a page resolves
/// to over a table whose rows are `rows`, in the order of the base query; or
/// the error of the first query that the database refuses.
///
/// Whether a page follows is read off a second window: the single row of page
/// `page_number + 1` at one row a page, which is row `page_number` of the
/// table, whatever `page_size` is.
pub open spec fn user_connection(rows: Seq<User>, page_number: int, page_size: int) -> Result<
    UserConnectionView,
    QueryError,
> {
    match page_window(rows, page_number, page_size) {
        Err(error) => Err(error),
        Ok(page) => match page_window(rows, page_number + 1, 1) {
            Err(error) => Err(error),
            Ok(next_page) => Ok(
                connection_view(page_number, page, rows.len() as int, next_page.len() > 0),
            ),
        },
    }
}

/// What a resolution holds: the view of the connection, or the error.
pub open spec fn resolution_view(resolved: Result<UserConnection, QueryError>) -> Result<
    UserConnectionView,
    QueryError,
> {
    match resolved {
        Ok(connection) => Ok(connection@),
        Err(error) => Err(error),
    }
}

/// The root of all queries.
pub struct Query;

impl Query {
    /// Resolves `users` over the rows of the table: every user, ordered by
    /// primary key.
    pub fn field_users(&self, users: &Vec<User>) -> (all: Vec<User>)
        ensures
            all@ == ordered_by_id(users@),
    {
        order_by_id(users)
    }

    /// Resolves `userConnections(after: after, first: first)` over `users`,
    /// the rows of the table, by the steps that begin with
    /// [`user_connections`]: both queries are answered from the rows ordered
    /// by primary key, either may be refused, and the first refusal is the
    /// result.
    pub fn field_user_connections(
        &self,
        users: &Vec<User>,
        after: Option<Cursor>,
        first: i32,
    ) -> (resolved: Result<UserConnection, QueryError>)
        requires
            cursor_accepted(cursor_text(after)),
        ensures
            resolution_view(resolved) == user_connection(
                ordered_by_id(users@),
                cursor_page(cursor_text(after))->0 as int,
                first as int,
            ),
            resolved matches Ok(connection) ==> {
                &&& connection@.total_count == (users@.len() as i32) as int
                &&& connection@.page_info.has_next_page == (cursor_page(cursor_text(after))->0
                    < users@.len())
            },
    {
        proof {
            lemma_ordered_by_id(users@);
        }
        let (fetch, page_query) = user_connections(after, first);
        let count: u64 = users.len() as u64;
        let total_count: i64 = #[verifier::truncate]
        (count as i64);
        assert(total_count as i32 == count as i32) by (bit_vector)
            requires
                total_count == count as i64,
        ;
        let page = match page_query.load(users) {
            Ok(rows) => Ok((rows, total_count)),
            Err(error) => Err(error),
        };
        match fetch.loaded(page) {
            Ok((check, next_page_query)) => check.finish(next_page_query.load(users)),
            Err(error) => Err(error),
        }
    }
}

/// The root of all mutations.
pub struct Mutation;

impl Mutation {
    /// Resolves `noop`: changes nothing and says so.
    pub fn field_noop(&self) -> (done: &bool)
        ensures
            *done,
    {
        &true
    }
}

/// Whether `countries[i]` is the first row of `countries` with the key `id`.
pub open spec fn is_first_with_id(countries: Seq<Country>, id: int, i: int) -> bool {
    &&& 0 <= i < countries.len()
    &&& countries[i].id == id
    &&& forall|j: int| 0 <= j < i ==> (#[trigger] countries[j]).id != id
}

impl User {
    /// Resolves `id`: the primary key, written in decimal.
    pub fn field_id(&self) -> (id: ID)
        ensures
            id_text(id) == integer_text(self.id as int),
    {
        new_id(format_i64(i64::from(self.id)))
    }

    /// Resolves `name`.
    pub fn field_name(&self) -> (name: &String)
        ensures
            name@ == self@.name,
    {
        &self.name
    }

    /// Resolves `country` over `countries`, the rows of the table or those
    /// among them with this user's `country_id`: the first row with that
    /// key, or `NotFound` where there is none.
    pub fn field_country(&self, countries: &Vec<Country>) -> (found: Result<Country, QueryError>)
        ensures
            found is Ok <==> exists|i: int|
                0 <= i < countries@.len() && (#[trigger] countries@[i]).id == self.country_id,
            found matches Ok(country) ==> country.id == self.country_id && exists|i: int|
                is_first_with_id(countries@, self.country_id as int, i) && country
                    == countries@[i],
            found matches Err(error) ==> error == QueryError::NotFound,
    {
        let count: usize = countries.len();
        let mut i: usize = 0;
        while i < count
            invariant
                i <= count,
                count == countries@.len(),
                forall|j: int| 0 <= j < i ==> (#[trigger] countries@[j]).id != self.country_id,
            decreases count - i,
        {
            if countries[i].id == self.country_id {
                assert(is_first_with_id(countries@, self.country_id as int, i as int));
                return Ok(countries[i].clone());
            }
            i = i + 1;
        }
        Err(QueryError::NotFound)
    }
}

/// Where no two rows have the same key, as in a table with a primary key, a
/// row with the key `id` is the first with that key: it is the row that
/// [`User::field_country`] resolves to.
pub proof fn lemma_country_of_key(countries: Seq<Country>, id: int, i: int)
    requires
        forall|a: int, b: int|
            0 <= a < b < countries.len() ==> (#[trigger] countries[a]).id != (
            #[trigger] countries[b]).id,
        0 <= i < countries.len(),
        countries[i].id == id,
    ensures
        is_first_with_id(countries, id, i),
        forall|j: int| is_first_with_id(countries, id, j) ==> j == i,
{
}

impl Country {
    /// Resolves `id`: the primary key, written in decimal.
    pub fn field_id(&self) -> (id: ID)
        ensures
            id_text(id) == integer_text(self.id as int),
    {
        new_id(format_i64(i64::from(self.id)))
    }

    /// Resolves `name`.
    pub fn field_name(&self) -> (name: &String)
        ensures
            name@ == self@.name,
    {
        &self.name
    }
}

/// A page request whose arguments were read and whose page is being loaded.
pub struct PageFetch {
    page_number: i64,
}

/// A page request whose page was loaded, while the page after it is looked
/// at.
pub struct NextPageCheck {
    page_number: i64,
    users: Vec<User>,
    total_count: i64,
}

/// Begins to resolve `userConnections(after: cursor, first: page_size)`.
///
/// Gives the query to run: the page that the cursor names, at `page_size`
/// rows a page, of the users ordered by primary key. Its answer, together
/// with the row count of the table, goes to [`PageFetch::loaded`].
///
/// The cursor has to be one that [`cursor_accepted`] admits;
/// [`try_user_connections`] is for a caller that has not looked.
pub fn user_connections(cursor: Option<Cursor>, page_size: i32) -> (step: (PageFetch, Paginated))
    requires
        cursor_accepted(cursor_text(cursor)),
    ensures
        step.0.page_number() == cursor_page(cursor_text(cursor))->0,
        step.1 == (Paginated {
            page: cursor_page(cursor_text(cursor))->0,
            per_page: page_size as i64,
        }),
{
    match page_number(&cursor) {
        Some(page_number) => begin(page_number, page_size),
        None => vstd::pervasive::unreached(),
    }
}

/// Begins to resolve a page as [`user_connections`] does, where the cursor
/// is accepted; gives `None` where it is not.
pub fn try_user_connections(cursor: Option<Cursor>, page_size: i32) -> (step: Option<
    (PageFetch, Paginated),
>)
    ensures
        step is Some <==> cursor_accepted(cursor_text(cursor)),
        step matches Some(step) ==> {
            &&& step.0.page_number() == cursor_page(cursor_text(cursor))->0
            &&& step.1 == (Paginated {
                page: cursor_page(cursor_text(cursor))->0,
                per_page: page_size as i64,
            })
        },
{
    match page_number(&cursor) {
        Some(page_number) => if page_number < i64::MAX {
            Some(begin(page_number, page_size))
        } else {
            None
        },
        None => None,
    }
}

/// The first step for a page number that was read.
fn begin(page_number: i64, page_size: i32) -> (step: (PageFetch, Paginated))
    requires
        page_number < i64::MAX,
    ensures
        step.0.page_number() == page_number,
        step.1 == (Paginated { page: page_number, per_page: page_size as i64 }),
{
    let query = paginate(page_number).per_page(i64::from(page_size));
    (PageFetch { page_number }, query)
}

impl PageFetch {
    #[verifier::type_invariant]
    spec fn next_page_fits(self) -> bool {
        self.page_number < i64::MAX
    }

    /// The number of the page being loaded.
    pub closed spec fn page_number(self) -> int {
        self.page_number as int
    }

    /// Takes the answer to the first query: the users of the page and the
    /// row count of the table, or the error of the database.
    ///
    /// An error ends the resolution and is handed back as it came. Else
    /// gives the query that tells whether a page follows: the page after
    /// this one, at one row a page. Its answer goes to
    /// [`NextPageCheck::finish`].
    pub fn loaded<E>(self, answer: Result<(Vec<User>, i64), E>) -> (step: Result<
        (NextPageCheck, Paginated),
        E,
    >)
        ensures
            match answer {
                Ok((users, total_count)) => {
                    &&& step matches Ok(next)
                    &&& next.0.page_number() == self.page_number()
                    &&& next.0.page() == users@
                    &&& next.0.total_count() == total_count
                    &&& next.1.page == self.page_number() + 1
                    &&& next.1.per_page == 1
                },
                Err(error) => step == Err::<(NextPageCheck, Paginated), E>(error),
            },
    {
        proof {
            use_type_invariant(&self);
        }
        match answer {
            Ok((users, total_count)) => {
                let query = paginate(self.page_number + 1).per_page(1);
                Ok((NextPageCheck { page_number: self.page_number, users, total_count }, query))
            },
            Err(error) => Err(error),
        }
    }
}

impl NextPageCheck {
    #[verifier::type_invariant]
    spec fn next_page_fits(self) -> bool {
        self.page_number < i64::MAX
    }

    /// The number of the page that was loaded.
    pub closed spec fn page_number(self) -> int {
        self.page_number as int
    }

    /// The users of the page that was loaded.
    pub closed spec fn page(self) -> Seq<User> {
        self.users@
    }

    /// The row count that came with the page.
    pub closed spec fn total_count(self) -> int {
        self.total_count as int
    }

    /// Takes the answer to the second query: the rows of the page after this
    /// one, or the error of the database.
    ///
    /// An error ends the resolution and is handed back as it came: no part
    /// of the page is given. Else gives the connection: a page follows
    /// exactly if the answer holds a row.
    pub fn finish<E>(self, answer: Result<Vec<User>, E>) -> (resolved: Result<UserConnection, E>)
        ensures
            match answer {
                Ok(next_page) => resolved matches Ok(connection) && connection@
                    == connection_view(
                    self.page_number(),
                    self.page(),
                    self.total_count(),
                    next_page@.len() > 0,
                ),
                Err(error) => resolved == Err::<UserConnection, E>(error),
            },
    {
        let next_page = match answer {
            Ok(next_page) => next_page,
            Err(error) => {
                return Err(error);
            },
        };
        proof {
            use_type_invariant(&self);
        }
        let next_page_cursor = Cursor(format_i64(self.page_number + 1));
        let ghost page = self.users@;
        let ghost cursor_text = next_page_cursor@;
        let count: usize = self.users.len();
        let end = if count > 0 {
            Some(next_page_cursor.clone())
        } else {
            None
        };
        let end_cursor = match &end {
            Some(cursor) => Some(cursor.clone()),
            None => None,
        };
        let mut edges: Vec<UserEdge> = Vec::new();
        for user in users: self.users
            invariant
                users.seq() == page,
                next_page_cursor@ == cursor_text,
                edges@.len() == users.index(),
                forall|i: int|
                    0 <= i < edges@.len() ==> (#[trigger] edges@[i])@ == (EdgeView {
                        node: page[i]@,
                        cursor: cursor_text,
                    }),
        {
            edges.push(Edge { node: user, cursor: next_page_cursor.clone() });
        }
        let connection = UserConnection {
            edges,
            page_info: PageInfo {
                start_cursor: end,
                end_cursor,
                has_next_page: !next_page.is_empty(),
            },
            total_count: #[verifier::truncate]
            (self.total_count as i32),
        };
        assert(connection@.edges =~= page_edges(page, cursor_text));
        Ok(connection)
    }
}

/// A connection says that a page follows exactly where the table has a row
/// at the index that equals the page number: with more than one row to a
/// page that is not the same as a further page holding a row.
pub proof fn lemma_has_next_page(rows: Seq<User>, page_number: int, page_size: int)
    requires
        user_connection(rows, page_number, page_size) is Ok,
    ensures
        user_connection(rows, page_number, page_size)->Ok_0.page_info.has_next_page == (
        page_number < rows.len()),
{
}

/// At one row to a page, or over a table of at most one row: the pages that
/// hold a row are the first `page_count` pages, the last of them says that no
/// page follows, and every page before it says that one does.
///
/// With two or more rows to a page and two or more rows in the table the
/// last page with a row says that a page follows, though none does.
pub proof fn lemma_pages_and_next_page(rows: Seq<User>, page_number: int, page_size: int)
    requires
        page_number >= 1,
        page_size >= 1,
        page_size == 1 || rows.len() <= 1,
    ensures
        user_connection(rows, page_number, page_size) is Ok,
        user_connection(rows, page_number, page_size)->Ok_0.edges.len() > 0 <==> page_number
            <= page_count(rows.len() as int, page_size),
        user_connection(rows, page_number, page_size)->Ok_0.page_info.has_next_page
            <==> page_number < page_count(rows.len() as int, page_size),
{
    lemma_pages_with_rows(rows, page_number, page_size);
    lemma_page_count_rounds_up(rows.len() as int, page_size);
    let pages = page_count(rows.len() as int, page_size);
    assert(pages == rows.len()) by (nonlinear_arith)
        requires
            (pages - 1) * page_size < rows.len() <= pages * page_size,
            page_size == 1 || rows.len() <= 1,
            page_size >= 1,
            pages >= 0,
    ;
}

/// Whatever the page size, every page before the last one that holds a row
/// says that a page follows.
pub proof fn lemma_next_page_before_last(rows: Seq<User>, page_number: int, page_size: int)
    requires
        page_size >= 1,
        1 <= page_number < page_count(rows.len() as int, page_size),
    ensures
        user_connection(rows, page_number, page_size) is Ok,
        user_connection(rows, page_number, page_size)->Ok_0.page_info.has_next_page,
{
    lemma_pages_with_rows(rows, page_number, page_size);
    lemma_page_count_rounds_up(rows.len() as int, page_size);
    let pages = page_count(rows.len() as int, page_size);
    assert(page_number <= (pages - 1) * page_size) by (nonlinear_arith)
        requires
            1 <= page_number <= pages - 1,
            page_size >= 1,
    ;
}

/// The count of a connection is the row count of the whole table, whatever
/// the page and its size, as long as the table has no more rows than 32 bits
/// can count.
pub proof fn lemma_total_count(rows: Seq<User>, page_number: int, page_size: int)
    requires
        user_connection(rows, page_number, page_size) is Ok,
        rows.len() <= i32::MAX,
    ensures
        user_connection(rows, page_number, page_size)->Ok_0.total_count == rows.len(),
{
}

/// The connection over a table without rows.
pub open spec fn empty_connection() -> UserConnectionView {
    UserConnectionView {
        edges: Seq::empty(),
        page_info: PageInfoView { start_cursor: None, end_cursor: None, has_next_page: false },
        total_count: 0,
    }
}

/// Over a table without rows every request that the database answers
/// resolves to the empty connection, and it answers every request for a page
/// from the first on at a size that is not negative.
pub proof fn lemma_no_rows(page_number: int, page_size: int)
    ensures
        page_number >= 1 && page_size >= 0 ==> user_connection(
            Seq::empty(),
            page_number,
            page_size,
        ) is Ok,
        user_connection(Seq::empty(), page_number, page_size) is Ok ==> user_connection(
            Seq::empty(),
            page_number,
            page_size,
        )->Ok_0 == empty_connection(),
{
    let rows = Seq::<User>::empty();
    if page_number >= 1 && page_size >= 0 {
        assert((page_number - 1) * page_size >= 0) by (nonlinear_arith)
            requires
                page_number >= 1,
                page_size >= 0,
        ;
    }
    if user_connection(rows, page_number, page_size) is Ok {
        let connection = user_connection(rows, page_number, page_size)->Ok_0;
        assert(connection.edges =~= Seq::empty());
    }
}

/// The cursors of a connection lead on: the cursor of each edge, and of both
/// ends of a page with a row, is accepted as the `after` of a further
/// request and names the page after this one.
pub proof fn lemma_cursor_names_next_page(
    page_number: int,
    page: Seq<User>,
    total_count: int,
    has_next_page: bool,
)
    requires
        i64::MIN <= page_number + 1 <= i64::MAX,
    ensures
        ({
            let connection = connection_view(page_number, page, total_count, has_next_page);
            let next = Some((page_number + 1) as i64);
            &&& connection.edges.len() == page.len()
            &&& forall|i: int|
                0 <= i < page.len() ==> cursor_page(Some(#[trigger] connection.edges[i].cursor))
                    == next
            &&& page.len() > 0 ==> cursor_page(connection.page_info.start_cursor) == next
            &&& page.len() > 0 ==> cursor_page(connection.page_info.end_cursor) == next
        }),
{
    crate::decimal::lemma_text_round_trip(page_number + 1);
}

/// At one row to a page, page `k` is row `k` of the table, counted from one,
/// and the page after the last row is empty.
pub proof fn lemma_pages_of_one_row(rows: Seq<User>, page_number: int)
    requires
        1 <= page_number <= rows.len() + 1,
    ensures
        user_connection(rows, page_number, 1) is Ok,
        user_connection(rows, page_number, 1)->Ok_0.edges == if page_number <= rows.len() {
            seq![
                EdgeView {
                    node: rows[page_number - 1]@,
                    cursor: integer_text(page_number + 1),
                },
            ]
        } else {
            Seq::empty()
        },
{
    let connection = user_connection(rows, page_number, 1)->Ok_0;
    if page_number <= rows.len() {
        assert(connection.edges =~= seq![
            EdgeView { node: rows[page_number - 1]@, cursor: integer_text(page_number + 1) },
        ]);
    } else {
        assert(connection.edges =~= Seq::empty());
    }
}

} // verus!
