//! Plans for the code that the struct derive macros emit: SQL statements,
//! parser enums, cipher helpers and path enums, computed from a plain model
//! of the input struct.

pub mod chars;
pub mod cipher;
pub mod helpers;
pub mod ident;
pub mod laws;
pub mod lit;
pub mod model;
pub mod order;
pub mod parser;
pub mod paths;
pub mod sql;
pub mod text;
