//! herdr-strays: which files strayed from the last commit, and what is known
//! about them.
//!
//! The library holds the rules of the viewer: how the output of git and of the
//! forge is read, how the list of strays is put together, and how every
//! keypress changes what is shown. It performs no I/O; the program around it
//! runs the commands and hands their output in.

pub mod agent;
pub mod annotate;
pub mod app;
pub mod bytes;
pub mod config;
pub mod delegate;
pub mod discover;
pub mod document;
pub mod editor;
pub mod filter;
pub mod forge;
pub mod git;
pub mod home;
pub mod intraline;
pub mod json;
pub mod marks;
pub mod model;
pub mod paths;
pub mod scan;
pub mod seqs;
pub mod sorting;
pub mod split;
pub mod text;
pub mod tree;
pub mod ui;
