//! Turns ISLE lowering rules into SyGuS grammar productions, and extracts
//! small data-flow patterns from Cranelift functions.

pub mod decimal;
pub mod extractor;
pub mod extractor_laws;
pub mod insn_type;
pub mod ir;
pub mod isle;
pub mod opcode;
pub mod sygus;
pub mod sygus_laws;
pub mod rules;
pub mod rules_laws;
