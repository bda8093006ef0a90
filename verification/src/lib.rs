//! Reconciliation and verification engine for a local collection of mods.
//!
//! A mod is a directory of package files below the game's mod folder. The
//! collection is recorded in a store: one record per mod, one fingerprint per
//! package file, and tags linked to mods. This library holds the rules that
//! compare the recorded state with what is on disk and decide what to change.
//! It performs no I/O itself: callers hand it directory listings, file
//! contents and store rows as plain values, and carry out what it decides.

pub mod autocomplete;
pub mod changes;
pub mod command;
pub mod criteria;
pub mod file_hashes;
pub mod filters;
pub mod fingerprint;
pub mod inventory;
pub mod menu;
pub mod reconcile;
pub mod records;
pub mod render;
pub mod rows;
pub mod set_diff;
pub mod store;
pub mod tag_diff;
pub mod tagging;
pub mod text;
pub mod url_validator;
pub mod verification;
