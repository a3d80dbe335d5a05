//! Editing the table literals of Lua source: an ordered view of the fields
//! of a table, the values that literals stand for, an index of localised
//! strings, and rules that find tables of a shape and rewrite them.
//!
//! The syntax tree is `full_moon`'s; [`syntax`] is the boundary with it.

pub mod applier;
pub mod locales;
pub mod pipeline;
pub mod rules;
pub mod search;
pub mod syntax;
pub mod text;
pub mod value;

pub use applier::{LuaFixApplier, Report};
pub use value::{string_expr, IntoExpr, MaybeInto, Number, Table, TableField, Value};
