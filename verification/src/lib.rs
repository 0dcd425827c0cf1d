//! A library of command descriptions for a graphical front end to command-line tools.
pub mod help_parser;
pub mod import;
pub mod registry;
pub mod runner;
pub mod spec;
pub mod text;
