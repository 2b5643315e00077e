//! Output generators.

pub mod html;
