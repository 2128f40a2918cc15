//! A four-way intersection traffic simulation whose signal timing is learned
//! by tabular Q-learning.
//!
//! Geometry is fixed point: positions in thousandths of a pixel, headings in
//! hundredths of a degree, time in microseconds, and rewards and Q-values in
//! millionths.
pub mod trig;
pub mod geometry;
pub mod config;
mod chance;
pub mod vehicle;
pub mod qtable;
pub mod qlearning;
pub mod stop_light;
pub mod intersection_manager;
pub mod drawing;
pub mod simulation;
pub mod trainer;
pub mod grid;
