pub mod attrs;
pub mod strategy;
pub mod struc;
pub mod view;
