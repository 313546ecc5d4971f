//! A compiler and virtual machine for Candy, a small dynamically-typed
//! functional language.
//!
//! The pipeline lowers source text through a concrete syntax tree
//! (`parse`, `cst`), an abstract syntax tree (`ast`), a name-resolved
//! high-level IR (`ast_to_hir`, `hir`) and an optimizable mid-level IR
//! (`mir`) down to a flat instruction stream (`lir`), which a
//! reference-counted stack machine executes (`heap`, `fiber`). Parsing
//! keeps every byte of the source; lowering never fails, it records
//! errors; the optimizer preserves single static assignment; and panics
//! are values carrying the HIR ID responsible for them.

pub mod ast;
pub mod ast_to_hir;
pub mod builtins;
pub mod cst;
pub mod error;
pub mod fiber;
pub mod heap;
pub mod hir;
pub mod lir;
pub mod mir;
pub mod mir_to_lir;
pub mod module;
pub mod parse;
pub mod strings;
pub mod tracing;
pub mod utils;
pub mod vm;

pub use cst::{Cst, CstError};
pub use error::{AstError, CompilerError, CompilerErrorPayload, HirError, MirError, RcstError};
pub use module::{Module, ModuleFromPathError, ModuleKind, Package};
pub use tracing::{CallTracingMode, TracingConfig, TracingMode};
