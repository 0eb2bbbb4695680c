//! Rule language for kernel event filters: parsing, boolean simplification,
//! and encoding into fixed-layout predicate records.

pub mod ast;
pub mod bpf;
pub mod clause;
pub mod grammar;
pub mod laws;
pub mod parser;
pub mod record;
pub mod rule;
pub mod schema;
pub mod writer;

pub use ast::{Atom, Expression, Operation, Operator};
pub use bpf::{BpfQueryWriter, BpfQueryWriterFactory};
pub use clause::{AndClause, OrClause};
pub use parser::{compile, compile_with};
pub use record::{encode_and_clause, encode_or_clause, EncodeError, FieldSlot, QueryRecord};
pub use rule::Rule;
pub use schema::{schema_for, FieldKind, SchemaField, CLAUSE_LIMIT};
pub use writer::{QueryWriter, QueryWriterFactory};
