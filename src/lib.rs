//! Code virtualization over bit-vector expressions in postfix form: evaluation,
//! simplification and single-assignment form of the expressions; scheduling of
//! semantics onto key-gated handlers; bytecode; and the two executors whose agreement
//! checks an obfuscated program against its source.
pub mod alu;
pub mod assignment;
pub mod bit_vecs;
pub mod bytecode;
pub mod concrete;
pub mod emulator;
pub mod evaluator;
pub mod expr;
pub mod expression_utils;
pub mod keys;
pub mod scheduler;
pub mod semantics;
pub mod render;
pub mod simplify;
pub mod ssa;
pub mod superoptimizer;
pub mod symbolic;
pub mod term_rewriter;
pub mod thwart;
