//! Construction of a command-line interface definition from a self-describing
//! document tree.
//!
//! A document (decoded from TOML, JSON, YAML, ...) is presented to this crate
//! as a [`node::Node`] tree of mappings, sequences and scalar strings.  The
//! decoder in [`decode`] walks that tree by the recognized schema
//!
//! ```text
//! Command  := { after_help?, about?, author?, name, version?,
//!               subcommands?: Mapping<name, Command> | Sequence<{name: Command}>,
//!               args?:        Mapping<name, Argument> | Sequence<{name: Argument}> }
//! Argument := { short?, long?, aliases? }
//! ```
//!
//! and builds a [`tree::CommandWrap`] value, or reports the first structural
//! error as a [`error::DeError`].

pub mod decode;
pub mod error;
pub mod laws;
pub mod node;
pub mod tree;
