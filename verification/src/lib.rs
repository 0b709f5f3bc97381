use vstd::prelude::*;

pub mod text;
pub mod sql_text;
pub mod ast;
pub mod normalize;
pub mod split;
pub mod manual;
pub mod create_function;
pub mod parser;
pub mod hex;
pub mod assoc;
pub mod plan;
pub mod partition;
pub mod online_ddl;

verus! {
}
