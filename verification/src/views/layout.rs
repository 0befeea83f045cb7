//! The layout view: the regions of the file, and the footer.

pub mod components;
pub mod data_renderer;
pub mod footer_renderer;
