//! Bookkeeping and decision logic of a dual active-set solver for convex
//! quadratic programs: size validation of a problem, the working set of
//! active constraints, the selection rules, and the transitions of the dual
//! ascent driver.
mod active;
mod driver;
mod error;
mod select;
mod shape;

pub use active::{lemma_add_then_drop, WorkingSet};
pub use driver::{
    is_terminal, iteration_limit, lemma_deterministic, lemma_equalities_kept,
    lemma_optimal_only_when_satisfied, lemma_outcome_only_when_over, lemma_unconstrained, limit_of, none_excluded, outcome_of,
    past_equalities, same_sets, transition, Action, Driver, Event, Phase,
};
pub use error::{term_name, Error, Failure, Term};
pub use select::{first_min_below, is_first_min_below, is_min_lowest_id, min_lowest_id};
pub use shape::{
    check_sizes, lemma_absent_is_empty, lemma_accepted_iff_consistent, lemma_equality_rows_named,
    sizes_of, system_len, system_mismatch, ConstraintShape, Shape, Sizes,
};
