//! The rows of the two tables: users, and the countries they belong to.

pub mod base_query;
pub mod pagination;

use vstd::prelude::*;

verus! {

/// A row of `users`. `country_id` names a row of `countries`.
#[derive(Debug)]
pub struct User {
    pub id: i32,
    pub name: String,
    pub country_id: i32,
}

/// A row of `countries`.
#[derive(Debug)]
pub struct Country {
    pub id: i32,
    pub name: String,
}

/// Why a query has no answer.
#[derive(Debug, Clone, Copy, PartialEq, Eq, Structural)]
pub enum QueryError {
    /// The window of a paginated query starts before the first row.
    NegativeOffset,
    /// The window of a paginated query has a negative size.
    NegativeLimit,
    /// A lookup of one row found none.
    NotFound,
}

/// What a `User` holds, as mathematical values.
pub ghost struct UserView {
    pub id: int,
    pub name: Seq<char>,
    pub country_id: int,
}

/// What a `Country` holds, as mathematical values.
pub ghost struct CountryView {
    pub id: int,
    pub name: Seq<char>,
}

impl View for User {
    type V = UserView;

    open spec fn view(&self) -> UserView {
        UserView { id: self.id as int, name: self.name@, country_id: self.country_id as int }
    }
}

impl View for Country {
    type V = CountryView;

    open spec fn view(&self) -> CountryView {
        CountryView { id: self.id as int, name: self.name@ }
    }
}

impl Clone for User {
    fn clone(&self) -> (copy: Self)
        ensures
            copy == *self,
    {
        User { id: self.id, name: self.name.clone(), country_id: self.country_id }
    }
}

impl Clone for Country {
    fn clone(&self) -> (copy: Self)
        ensures
            copy == *self,
    {
        Country { id: self.id, name: self.name.clone() }
    }
}

} // verus!
