pub mod compute;
pub mod data;
pub mod engine;
pub mod events;
pub mod fixed;
pub mod forces;
pub mod rng;
pub mod spatial;
