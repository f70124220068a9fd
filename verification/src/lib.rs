//! A verified grid-world snake environment with the decision core of a
//! deep Q-learning agent: movement and collision rules, state encoding,
//! a fixed-capacity replay memory, epsilon-greedy action selection, and
//! the index/masking logic of the Bellman update.

pub mod agent;
pub mod game;
pub mod model;
mod rng;
pub mod utils;
