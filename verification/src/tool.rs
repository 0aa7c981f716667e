//! The drawing tools: which pixels a movement of the cursor paints.

pub mod brush;
pub mod iter;
pub mod paint;
pub mod blend;
pub mod reach;
pub mod fill;
pub mod iter_triangle;
pub mod state;
