//! A builder for parameterised `select` and `update` statements.
//!
//! A [`Query`] collects clause fragments and bound values while calls are
//! chained, renders them as SQL text with named placeholders, and gives the
//! statement in the positional form a driver takes, together with the values
//! in the order in which their placeholders occur.
//!
//! The builder is in [`query`], what it stands for in [`state`], and what is
//! proved of it in [`laws`]. [`fragment`], [`placeholder`], [`position`] and
//! [`params`] hold what the builder is made of; [`execute`] runs a finished
//! statement through a driver that the caller supplies.

pub mod error;
pub mod execute;
pub mod fragment;
pub mod laws;
pub mod model;
pub mod params;
pub mod placeholder;
pub mod position;
pub mod query;
pub mod state;

pub use crate::error::BuildliteError;
pub use crate::error::BuildliteErrorMatch;
pub use crate::model::Model;
pub use crate::query::Query;
