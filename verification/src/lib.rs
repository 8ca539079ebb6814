//! Length of the longest common subsequence of two character sequences,
//! computed by three interchangeable strategies: a greedy scan, a plain
//! recursion, and dynamic programming.

pub mod engine;
pub mod laws;
