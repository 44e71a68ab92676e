//! Directory comparison with content-based rename detection, and rendering
//! of ANSI-coloured diff output into presentation markup.

pub mod text;
pub mod color;
pub mod ansi;
pub mod layout;
pub mod delta;
pub mod compare;
pub mod tree;
pub mod summary;
pub mod laws;
