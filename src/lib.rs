//! Renders a working directory as a short prompt string: intermediate path
//! components are cut to one or two characters, while the last component and
//! the roots of projects and repositories stay whole.

pub mod anchors;
pub mod path;
pub mod trim;
pub mod laws;
pub mod render;
