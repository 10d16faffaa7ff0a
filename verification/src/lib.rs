//! The rules of the `swoosh` command.

pub mod adopt;
pub mod badge;
pub mod connect;
pub mod contact;
pub mod date;
pub mod dial;
pub mod enrol;
pub mod fetch;
pub mod fleet;
pub mod http;
pub mod identity;
pub mod invite;
pub mod issue;
pub mod join;
pub mod leave;
pub mod ledger;
pub mod reach;
pub mod recut;
pub mod revoke;
pub mod routes;
pub mod send;
pub mod serve;
pub mod serving;
pub mod span;
pub mod speed;
pub mod standing;
pub mod status;
pub mod text;
