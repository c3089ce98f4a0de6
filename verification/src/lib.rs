//! A small concatenative, stack-based scripting interpreter.
//!
//! A program is a whitespace-delimited stream of words. Each word either
//! pushes a value onto one of two typed stacks (arbitrary-precision integers
//! and binary objects), manipulates a stack, defines new words, steers
//! compilation, or queues an effect for the host to perform. The interpreter
//! core is verified; the host around it performs terminal and file effects.

pub mod object;
pub mod bigint;
pub mod textutil;
pub mod literal;
pub mod words;
pub mod vm;
pub mod sem;
pub mod snapshot;
pub mod interp;
pub mod engine;
pub mod registry;
pub mod laws;
pub mod keys;

pub use engine::drive;
pub use object::Object;
pub use registry::create_root_vm;
pub use vm::Effect;
pub use vm::Failure;
pub use vm::Vm;
