//! A small language to describe a mesh, one statement a line:
//!
//! ```text
//! # a comment
//! vertex <id> = <x> <y> <z>
//! line <id> <id>
//! triangle <id> <id> <id>
//! ```

pub mod ast;
pub mod lexer;
pub mod number;
pub mod parser;
pub mod typecheck;

pub use self::parser::parse_module;
pub use self::typecheck::type_check;
