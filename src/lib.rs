//! Compiles a grammar description (named rules built from literals, patterns,
//! symbol references, sequences, choices and repetitions) into type
//! declarations, one group per rule.
pub mod decl;
pub mod document;
pub mod equality;
pub mod grammar;
pub mod laws;
pub mod naming;
pub mod reconstruction;
pub mod schema;

pub use decl::{Decl, Field, Fragment, Key, Note, Payload, Shape, Variant};
pub use document::{CompileError, TypeTable};
pub use grammar::{GrammarJSON, PrecedenceValueJSON, RuleJSON};
pub use naming::{decimal, same_text, to_ident};
pub use reconstruction::Reconstruction;
pub use schema::is_recursive_type;
