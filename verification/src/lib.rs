//! Acquisition, partitioning and inspection of a batch of assignment
//! submissions on behalf of a human grader.
//!
//! The crate holds the decisions of a grading session; the network, the
//! filesystem, the prompts and the child processes belong to the caller.
//! A session runs through the modules in this order:
//!
//! 1. [`fetch`] resolves one user profile per submission, in any completion
//!    order, and hands the profiles back in the order of the submissions.
//! 2. [`roster`] sorts the paired entries by sortable name and cuts the sorted
//!    roster into contiguous portions, one per grader.
//! 3. [`selection`] lets the grader take entries out of one portion, each at
//!    most once.
//! 4. [`pipeline`] drives one entry from download to review, and a batch of
//!    entries until the first failure.
//! 5. [`inspect`] computes the two advisory reports shown during review.

pub mod error;
pub mod fetch;
pub mod inspect;
pub mod model;
pub mod pipeline;
pub mod roster;
pub mod selection;
pub mod text;
