pub mod state;
pub mod incident;
pub mod scheduler;
pub mod order;
