use vstd::prelude::*;

pub mod boat_data;
pub mod cli;
pub mod commands;
pub mod config;
pub mod date;
pub mod display;
pub mod edit;
pub mod export;
pub mod filter;
pub mod list;
pub mod models;
pub mod paint;
pub mod period;
pub mod report;
pub mod sorting;
pub mod table;
pub mod text;

verus! {

/// Resolves a pair of opposite command-line flags against a configured default.
pub fn resolve_tri_state(a: bool, b: bool, c: bool) -> (r: bool)
    ensures
        r == if a && !b { true } else if !a && b { false } else { c },
{
    match (a, b) {
        (true, false) => true,
        (false, true) => false,
        _ => c,
    }
}

} // verus!
