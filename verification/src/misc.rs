//! Small self-contained helpers.
pub mod rgb;
