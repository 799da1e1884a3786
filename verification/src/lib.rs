//! Lowering of the Kestrel semantic tree to the execution graph (MIR).

pub mod text;
pub mod mir;
pub mod sem;
pub mod name;
pub mod table;
pub mod error;
pub mod context;
pub mod deinit;
pub mod module;
pub mod mir_assert;
pub mod laws;
pub mod expr;
pub mod match_lowering;
pub mod closure;
pub mod bound_method;
pub mod item;
pub mod closure_locals;
pub mod let_pattern;
pub mod call_args;
pub mod primitive;
pub mod format_options;
pub mod if_join;
pub mod thunk_cache;
pub mod interpolation;
