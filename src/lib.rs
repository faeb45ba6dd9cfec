//! Partial application of a call expression: every `_` argument of
//! `callee(a, _, b, _)` becomes a parameter of a new closure that forwards
//! its arguments, in order, to the original call.
//!
//! `bind("foo(1, _, 3, _)")` gives `|__0, __1| { foo(1, __0, 3, __1) }`.

pub mod binder;
pub mod call;
pub mod emitter;
pub mod naming;
pub mod syntax;

pub use binder::bind_placeholders;
pub use call::{Argument, BoundCallable, CallExpression, MalformedInputError, ParameterBinding};
pub use naming::parameter_name;
pub use syntax::{bind, bind_call, bind_parsed, parse_call};
