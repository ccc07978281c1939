//! Labels log messages with the single template they match and a mask of the
//! variable parts, and describes the worker pool that does so in parallel.
pub mod template;
pub mod matching;
pub mod loading;
