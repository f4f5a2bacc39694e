//! What the library promises as a whole. Each law is stated over inputs and
//! results in words of its own, so that it ties down what the specification
//! functions of the other modules mean.

pub mod caching;
pub mod corefiles;
pub mod durations;
pub mod folding;
pub mod forwarding;
pub mod plugins;
pub mod reloading;
pub mod serving;
pub mod texts;
pub mod wires;
