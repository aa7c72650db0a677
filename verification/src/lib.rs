//! Dice notation such as `2d10 + 1d8 - 1d4 + 3`, scanned in one pass and
//! rolled into a total.
//!
//! [`parsing`] holds the three parsers and their error type. The scanner's
//! state machine is in [`machine`]; [`grammar`] and [`laws`] prove what
//! holds of every scan, and [`agreement`] that the parse by splitting comes
//! to the scanner's results. [`cover`] holds what the pattern search finds
//! against the text, so that the parse by pattern refuses what is no dice
//! notation.
pub mod text;
pub mod number;
pub mod dice;
pub mod machine;
pub mod terms;
pub mod pattern;
pub mod splits;
pub mod cover;
pub mod parsing;
pub mod laws;
pub mod grammar;
pub mod agreement;
