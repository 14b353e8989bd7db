//! The integer core of a flocking simulation whose agents stand for the
//! contributors of a software project.
//!
//! Four things are decided here, each over plain integers:
//! which agents count as neighbours of which, what length a vector keeps
//! under a cap, how raw contribution statistics are summed up and ranked,
//! and where each agent starts.

pub mod contributions;
pub mod layout;
pub mod motion;
pub mod neighbors;
