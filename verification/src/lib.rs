//! Embedding index consistency and hierarchical aggregation engine.
//!
//! The library keeps a relational record store and a vector similarity
//! index consistent while documents are indexed, re-indexed and searched:
//! it segments raw content into bounded chunks, averages chunk vectors
//! into document vectors, drives the dual-store write protocol with its
//! forward-only compensation, recomputes group aggregates when a
//! constituent document changes, and answers search, recommend and
//! point-similarity queries.
//!
//! Vector components are fixed-point values held in `i64`; callers that
//! work in floating point convert at the boundary with a scale of their
//! choosing. The relational store and the vector index are in-memory
//! models with exact contracts; the network clients that mirror them
//! live outside the verified library.
use vstd::prelude::*;

pub mod embedding_operator;
pub mod doc_embedding_operator;
pub mod doc_group_operator;
pub mod errors;
pub mod handlers;
pub mod models;
pub mod parse_operator;
pub mod relational_store;
pub mod search_operator;
pub mod seq_util;
pub mod vector_store;

verus! {

/// Ceiling division: `⌈a / b⌉`.
pub fn ceil_div(a: usize, b: usize) -> (r: usize)
    requires
        b > 0,
    ensures
        r == spec_ceil_div(a as int, b as int),
{
    if a == 0 {
        proof {
            vstd::arithmetic::div_mod::lemma_basic_div(b as int - 1, b as int);
        }
        0
    } else {
        proof {
            vstd::arithmetic::div_mod::lemma_div_nonincreasing(a as int - 1, b as int);
            vstd::arithmetic::div_mod::lemma_div_pos_is_pos(a as int - 1, b as int);
            vstd::arithmetic::div_mod::lemma_div_plus_one(a as int - 1, b as int);
        }
        (a - 1) / b + 1
    }
}

/// `⌈a / b⌉` over the mathematical integers, for `b > 0`.
pub open spec fn spec_ceil_div(a: int, b: int) -> int {
    (a + b - 1) / b
}

} // verus!
