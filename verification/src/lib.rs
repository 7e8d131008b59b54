use vstd::prelude::*;

pub mod text;
pub mod ir;
pub mod java;
pub mod pathset;
pub mod pattern;
pub mod deps;
pub mod components;
pub mod syntax;
pub mod units;
pub mod repository;
pub mod config;
pub mod names;
pub mod scopes;
pub mod export;
pub mod concerns;
pub mod risk;
pub mod aspects;
pub mod folders;
pub mod decompositions;
pub mod ranking;
pub mod duplication;
pub mod reports;
pub mod metrics;
pub mod summary;
pub mod cli;
pub mod tags;
pub mod golden;

verus! {
} // verus!
