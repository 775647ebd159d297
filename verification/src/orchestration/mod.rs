pub mod node_manager;
pub mod scheduler;

pub use node_manager::{Node, NodeManager};
pub use scheduler::{Task, TaskScheduler};
