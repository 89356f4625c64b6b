//! A verified model of the Rust half of a Lean kernel.
pub mod bitfield;
pub mod expr;
pub mod ptr;
pub mod bvars;
pub mod instantiate;
pub mod equality;
pub mod traverse;
pub mod data;
pub mod object;
pub mod layout;
pub mod declaration;
pub mod local_ctx;
pub mod environment;
pub mod runtime;
pub mod lean_nat;

pub mod expr_util;
pub mod type_checker;
pub mod mctx;
pub mod level_mvars;
pub mod expr_mvars;
pub mod mvar_spec;
pub mod mvar_laws;
pub mod acyclic;
pub mod mvar_check;
