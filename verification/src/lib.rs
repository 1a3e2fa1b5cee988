pub mod aggregate;
pub mod normalize;
pub mod scan;
pub mod views;
pub mod vote;
