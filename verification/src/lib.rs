//! Core of a small stylesheet-language compiler: source spans, tokens,
//! the scope chain, the unit-aware number model, values, and the
//! argument binder for function and mixin declarations and call sites.

pub mod common;
pub mod bigint;
pub mod error;
pub mod number;
pub mod scope;
pub mod selector;
pub mod eval;
pub mod args;
pub mod builtin;
pub mod span;
pub mod unit;
pub mod value;
pub mod token;
pub mod utils;

pub use span::{Span, Spanned};
