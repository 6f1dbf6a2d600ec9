//! Static analysis model of Sorbet's textual outputs.
use vstd::prelude::*;

pub mod text;
pub mod sorbet_type;
pub mod cfg_text;
pub mod autogen;
pub mod symbol_table;
pub mod parse_tree;
pub mod model;
pub mod builder;
pub mod indexer;
pub mod report;

verus! {
} // verus!
