//! Classifies commits of a mainline branch that are still missing from a
//! maintenance branch, keyed by the pull-request number in their summary.

pub mod identity;
pub mod commit;
pub mod collect;
pub mod report;
pub mod laws;
pub mod cutoff;
