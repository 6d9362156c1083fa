//! Laws of the language, proved from the definitions of the abstract machine.

pub mod stack;
pub mod render;
pub mod bits;
pub mod sets;
pub mod base;
pub mod split;
pub mod inspect;
pub mod sorting;
pub mod pieces;
