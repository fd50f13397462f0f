//! qexp: a file explorer for the terminal. This crate holds its rules: which files are archives
//! and how they are unpacked, the favourites list and its file, the command line, the places of
//! the sidebar and the decisions of the screen.

pub mod app;
pub mod archive;
pub mod cli;
pub mod favourites;
pub mod path;
pub mod places;
pub mod text;
