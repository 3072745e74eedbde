//! Adaptive-precision number formatting for user interfaces: show a value with
//! the fewest decimal places that still reproduce it, within a caller's range.

pub mod decimals;
