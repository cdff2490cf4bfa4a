//! Small algorithms with their contracts: in-place comparison sorts, and the
//! product of square matrices, computed directly and by divide and conquer.
pub mod devide_and_conquer;
pub mod integers;
pub mod sorting;
