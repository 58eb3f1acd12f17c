//! rad: a source-based package manager. The library holds the package file
//! format, the build and install plans, and the command line.
pub mod text;
pub mod package;
pub mod actions;
pub mod build_plan;
pub mod fetch;
pub mod db;
pub mod install;
pub mod cli;
pub mod merge;
