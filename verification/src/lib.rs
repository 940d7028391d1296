//! Translates compact end-user search expressions into safe SQL `WHERE` /
//! `ORDER BY` fragments, restricted to fields the caller may read.
//!
//! A query such as `age=10-19 AND name=Don*; ^age` is parsed into a boolean
//! tree of typed predicates, every value is coerced and escaped according to
//! the column's declared type, columns the caller has no permission for are
//! pruned, and the remaining tree is rendered as a SQL fragment.

pub mod chars;
pub mod comp_op;
pub mod dates;
pub mod db_field;
pub mod error;
pub mod escape;
pub mod laws;
pub mod num;
pub mod parser;
pub mod perm;
pub mod sql_term;
pub mod suchbar;

pub use crate::comp_op::CompOp;
pub use crate::dates::{Date, Direction};
pub use crate::db_field::{DbField, DbType, SortField};
pub use crate::error::SuchError;
pub use crate::perm::{Permeable, PermissionSet};
pub use crate::sql_term::{SQLTerm, Style};
pub use crate::suchbar::{SuchOptions, Suchbar, WhereClause};
