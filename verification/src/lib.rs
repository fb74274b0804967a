pub mod detector;
pub mod engine;
pub mod pipeline;
pub mod planner;
pub mod rng;
pub mod strategy;
