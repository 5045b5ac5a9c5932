//! Attach named, reusable git-configuration profiles to directory trees.
//!
//! The crate is the resolution and merge engine behind a small CLI wrapper:
//! profile documents scattered across a directory's ancestor chain are
//! discovered, ordered, merged into one effective configuration, and turned
//! into a reconciliation plan against the live git key/value store.
//!
//! - [`smap`] holds the string-keyed association table used for the
//!   `settings` mapping and for the profile directory.
//! - [`cfg`] holds the partial/resolved configuration model and the merge law.
//! - [`pth`] holds the ancestor path walker.
//! - [`profiles`] holds profile discovery and activation.
//! - [`apply`] turns a resolved configuration into a plan of git commands.
//! - [`cli`] holds the decisions of the command-line front end.
//!
//! Everything here is pure: filesystem reads, the interactive selector and
//! the external git process live in the surrounding binary, which hands this
//! crate plain values and executes the plans it returns.

pub mod apply;
pub mod cfg;
pub mod cli;
pub mod profiles;
pub mod pth;
pub mod smap;
