//! Scheduling cores for two asynchronous combinators: a race that resolves to
//! the first success (or to every error, in order), and a fair merge of many
//! sequences driven through a table of readiness flags.
pub mod merge;
pub mod race;
pub mod readiness;
