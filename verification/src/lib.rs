pub mod axis;
pub mod sorted;
pub mod algorithm;
pub mod component;
pub mod config;
pub mod construct;
pub mod fas_file;
pub mod service;
pub mod struc;
