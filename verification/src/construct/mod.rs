pub mod data;
pub mod tree;
pub mod space;
pub mod types;
