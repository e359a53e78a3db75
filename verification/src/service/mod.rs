pub mod combination;
