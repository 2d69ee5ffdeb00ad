//! A verified interpreter for a small tape-based esoteric language:
//! eight single-character instructions drive a movable data pointer over a
//! fixed-size byte tape, with bracket-delimited loops.
//!
//! The pipeline has three stages, each a verified function:
//! parsing source text into instructions ([`parser::parse_code`]),
//! resolving loop brackets into a jump table ([`compiler::compile_code`]),
//! and executing the compiled program ([`executor::run`]).
//! [`executor::execute_source`] chains the three; [`numbers::parse_decimal`]
//! reads the decimal integers that the surrounding input format carries.

pub mod compiler;
pub mod executor;
pub mod numbers;
pub mod ops;
pub mod parser;
