//! Digital-rain simulation: falling trails tracked column by column and
//! rasterised into a grid of caller-defined cells.

pub mod counter;
pub mod lifecycle;
pub mod matrix;
pub mod random;
pub mod strain;
pub mod widget;

pub use matrix::Matrix;
