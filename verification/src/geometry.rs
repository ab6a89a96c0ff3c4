pub mod closed_triangle;
pub mod fill_lemmas;
pub mod line;
pub mod triangle;
pub mod types;
pub mod vector_lemmas;
pub mod whole_pixels;

pub use crate::geometry::triangle::Triangle;
