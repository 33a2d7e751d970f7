//! The custom resources of the controller.

pub mod image;
pub mod imagemirror;
