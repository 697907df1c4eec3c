pub mod arrays;
pub mod freivald;
pub mod reed_solomon;
