//! Front end of a compiler for a dialogue scripting language: scripts are
//! made of named nodes that hold lines, options and commands, and blocks of
//! shortcut options are delimited by indentation.
//!
//! - [`indent_aware_lexer`] turns the indentation of option blocks into
//!   explicit tokens on top of the grammar's lexer; [`token`] holds the
//!   tokens, [`diagnostic`] what is reported about the source.
//! - [`compiler`] runs the passes of a compilation over the files of a job
//!   ([`compilation_job`]) and gathers the outcome ([`output`]): diagnostics,
//!   the table of strings and the declarations ([`declaration`]), with the
//!   help of the registry of functions ([`library`]).
//! - [`parser`] parses the outer structure of a script from its text.
//! - [`yarn_value`], [`value`] and [`text_provider`] belong to what runs a
//!   compiled script; [`string_map`] is the map that the tables are made of.
//!
//! The functions carry contracts that Verus proves of their bodies; the few
//! that rest on what another crate does say so.

pub mod compilation_job;
pub mod compiler;
pub mod declaration;
pub mod diagnostic;
pub mod indent_aware_lexer;
pub mod library;
pub mod output;
pub mod parser;
pub mod string_map;
pub mod text_provider;
pub mod token;
pub mod value;
pub mod yarn_value;
