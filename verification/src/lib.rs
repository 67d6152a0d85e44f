//! Keeps the proofing-tool configuration of installed office applications in
//! step with the set of installed spellcheckers.
//!
//! The library derives the lookup keys of a language tag, models the central
//! table of registrations and the per-application configuration roots, and
//! computes the ordered store operations that synchronise one into the other.

pub mod cycle;
pub mod deregister;
pub mod libreoffice;
pub mod list;
pub mod refresh;
pub mod reg;
pub mod register;
pub mod root;
pub mod sync;
pub mod table;
pub mod tag;
pub mod text;
