//! Generation of Diesel schema, model, enum and migration sources from
//! namma-dsl storage specs: a spec is parsed into a `TableDef`, every field
//! type is resolved against the project's type registry, and the generators
//! render the files of a buildable crate.

pub mod cli;
pub mod codegen;
pub mod config;
pub mod ir;
pub mod parser;
pub mod text;
pub mod typemap;
pub mod verify;
pub mod yaml;
