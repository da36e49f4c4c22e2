//! The second front end: panels that show a grid of entries, a file viewer
//! or an image.
pub mod fslist;
pub mod buffer;
pub mod events;
pub mod panel;
pub mod tabs;
