//! A dotfile and module manager: its template engine, module qualifiers, index and dependency resolution.
use vstd::prelude::*;

pub mod text;
pub mod numbers;
pub mod variables;
pub mod module;
pub mod config;
pub mod jobs;
pub mod registry;
pub mod output;

verus! {
}
