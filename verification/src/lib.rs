//! rufuf: the verified core of a terminal file manager.
//!
//! The library holds the geometry helpers, the colour parser, the
//! directory-tree model of the `cl` front end and the entry-list model of
//! the `cli` front end. Terminal drawing, reading the file system, the Lua
//! configuration and the event loop live in the application around it.
pub mod tools;
pub mod misc;
pub mod cl;
pub mod cli;
