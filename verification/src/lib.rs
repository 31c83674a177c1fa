//! Tracking and reconciliation core of an AUR helper.
//!
//! The library keeps a durable record of the package names the tool is
//! responsible for, resolves user-supplied names against a snapshot of the
//! live package database, decides which tracked packages need an update, and
//! recovers the true name of what a build produced.  All decisions are made
//! over plain values; subprocess, network and file I/O live outside the
//! library and hand it snapshots.

pub mod artifact;
pub mod aur;
pub mod config;
pub mod db;
pub mod errors;
pub mod reconcile;
pub mod text;
pub mod tracker;
pub mod version;
