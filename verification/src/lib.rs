pub mod fibonacci;
pub mod fibonacci_circuit;
pub mod utils;
