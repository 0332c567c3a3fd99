//! A small instruction execution engine in the style of CHIP-8: sixteen
//! registers, four kilobytes of memory, a call stack of sixteen addresses,
//! and the instructions halt, call, return and add.
//!
//! Beside the engine, and independent of it: a base64 codec, the bit
//! patterns of floating-point numbers with the fixed-point format Q7, a file
//! held in memory, and two functions on closures.
//!
//! Every executable function carries a contract over a mathematical model,
//! and every contract is proved. One thing is taken on trust: that
//! `String::push` of the standard library appends the character it is given,
//! which the codec relies on.
pub mod base_64_encoding;
pub mod closures;
pub mod cpu;
pub mod file;
pub mod float_type;
pub mod machine;
pub mod opcode;
