//! A categorized, file-backed vocabulary store.
//!
//! A small declarative configuration (a list of folders, a list of types,
//! and a rename script) drives a two-level directory layout: one data file
//! per folder and type, each holding one word per non-empty line. The
//! library derives the expected layout, plans the creation of missing
//! entries, parses every data file into tagged word records, builds three
//! aggregate views over them, and plans the application of a
//! self-consuming batch-rename script.
//!
//! All filesystem work (reading, creating, renaming) is left to the
//! caller: the library computes, from plain values, exactly what should be
//! read, created or renamed, and every such computation carries a proved
//! contract.

pub mod text;

pub mod records;

pub mod script;

pub mod layout;

pub mod store;

pub mod sphere;
