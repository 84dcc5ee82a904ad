//! Boot candidate discovery for a firmware boot menu.
//!
//! The library models each storage volume as plain data: the listing of its
//! top-level boot directory, the listings of that directory's children, and
//! the outcome of re-opening each entry. Over that model it verifies the
//! discovery scan (which files become boot candidates, in which order, and
//! what happens on per-entry and per-directory failures), the construction of
//! a structured path for each candidate, the candidate registry, and the
//! interpretation of the operator's menu selection. The firmware calls that
//! feed the model and launch the chosen image live outside the library.

pub mod cursor;
pub mod finder;
pub mod input;
pub mod path;
pub mod reopen;
pub mod select;
pub mod volume;
