//! An interpreter for the eight-instruction tape language: a static bracket
//! matcher that builds the jump table, and a step-wise machine over a byte tape.
pub mod instr;
pub mod jump;
pub mod machine;
