//! Verified data structures and utilities around range queries: segment
//! trees (plain and lazy) over user-supplied monoids, with point
//! updates, range folds, range applies, and monoid-predicate binary
//! search, all specified against a sequence model; beside them, the
//! small verified utilities the trees' callers tend to need.

pub mod algebra;
pub mod bits;
pub mod cumsum;
pub mod disjoint_set;
pub mod factorial;
pub mod grid;
pub mod iter_ext;
pub mod lazy_seg_tree;
pub mod maybe_inf;
pub mod mod_int;
pub mod permutation;
pub mod printer;
pub mod seg_tree;
pub mod sieve;
pub mod source;
pub mod stack_aggregation;
pub mod timer;
