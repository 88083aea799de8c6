//! Tamal host tooling: the wire ABI, the assembler, the tamal-lang compiler
//! and the loader's framing logic.
pub mod abi;
pub mod assembler;
pub mod loader;
pub mod lang;
pub mod text;
