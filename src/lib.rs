//! Collision-free path renumbering for a note-taking application's file
//! layer, with the small settings model that travels beside it.
//!
//! The probing of the filesystem is injected: every resolver takes an
//! existence oracle, so the decisions are verified for whatever the
//! oracle answers.
pub mod naming;
pub mod paths;
pub mod resolver;
pub mod listing;
pub mod settings;
