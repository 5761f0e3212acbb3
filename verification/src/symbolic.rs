//! An interned graph of symbolic expressions with normalizing constructors.

pub mod constructors;
pub mod context;
pub mod display_expr;
pub mod expr;
pub mod expr_ref;
pub mod fingerprint;
pub mod laws;
pub mod nary;
pub mod normal;
pub mod numbered;
pub mod rewrite;
pub mod variable;
pub mod variable_ref;
