//! One tile of the canvas and what is blended on top of it.

pub mod layer;
pub mod picks;
pub mod compositor;
pub mod chunk;
pub mod system;
pub mod writer;
pub mod cache;
