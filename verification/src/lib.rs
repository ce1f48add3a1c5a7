pub mod laws;
pub mod model;
pub mod sim;

pub use sim::Bus;
pub use sim::SimState;
