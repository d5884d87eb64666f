//! Three classic in-memory sorting algorithms — insertion sort, quicksort and
//! merge sort — together with a sortedness checker and a random-array
//! generator. Every sorter is proved to leave its sequence in non-decreasing
//! order while preserving the multiset of elements, which pins the output
//! down completely; merge sort is additionally proved stable.

pub mod insertion;
pub mod merge;
pub mod order;
pub mod quick;
pub mod random;
pub mod stable;
