//! Tabular Q-learning for a grid snake simulation.
//!
//! The library couples a deterministic grid environment (snake movement,
//! collision detection, reward shaping) with an epsilon-greedy agent that
//! maintains a table of action-value estimates, and an orchestrator that
//! drives training episodes and an evaluation pass.
//!
//! Value estimates, rewards and the hyperparameters `alpha`, `gamma` and
//! `epsilon` are held in fixed-point form: an `i64` (or `u32` for the
//! hyperparameters) counts thousandths of a unit, so `1000` stands for `1.0`.

pub mod agent;
pub mod qlearning;
pub mod rng;
pub mod snake_env;
