//! Users and the countries they belong to, as a GraphQL service sees them:
//! the rows, the pagination of users by page-number cursors, and the
//! resolvers of every field.

pub mod decimal;
pub mod graphql;
pub mod models;
pub mod server;
