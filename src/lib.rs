//! Remembers the last observed version of a keyed dataset and reports, for
//! each new observation, the entries that were added or changed since.

pub mod comparer;

pub use comparer::HashMapComparer;
