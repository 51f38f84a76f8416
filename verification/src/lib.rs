//! Naming identity resolution for foreign composite types (structs and
//! unions) discovered while a foreign header is parsed, and deterministic
//! export of the resulting rename table.

pub mod assoc;
pub mod codegen;
pub mod export;
pub mod import;
pub mod laws;
pub mod names;
pub mod strset;
