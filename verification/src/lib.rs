//! A verified two-pass assembler for a simple 16-bit computer architecture.
//!
//! The library turns trimmed, non-empty, non-comment assembly source lines
//! into 16-bit machine words: pass 1 resolves label declarations to
//! instruction addresses, pass 2 classifies each remaining line as an
//! address-load or a compute instruction, resolves symbols, and packs the
//! fixed bitfield encoding.

pub mod instr;
pub mod pipeline;
pub mod symbols;
