//! Two compiler-infrastructure cores, verified.
//!
//! Core A (`slots`, `func`, `liveness`, `spill`): a safepoint spill-insertion
//! pass over a small SSA intermediate representation. Every value the garbage
//! collector must observe that is live across a call is spilled to a stack
//! slot at its definition, reloaded at every use, and recorded in a per-call
//! stack map.
//!
//! Core B (`sema`, `trie`, `codegen`): a code emitter that turns a decision
//! tree of term-rewriting rules, together with a typed-symbol environment,
//! into Rust source text.

pub mod codegen;
pub mod func;
pub mod idset;
pub mod liveness;
pub mod sema;
pub mod slots;
pub mod spill;
pub mod text;
pub mod trie;

pub use crate::codegen::CodegenOptions;
pub use crate::codegen::codegen;
