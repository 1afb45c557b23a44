pub mod data;
pub mod variants;
