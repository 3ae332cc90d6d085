//! Client-side state synchronisation core of a real-time discussion board.

pub mod agent;
pub mod bus;
pub mod change;
pub mod decimal;
pub mod double_set_map;
pub mod feed;
pub mod location;
pub mod mouse;
pub mod queue;
pub mod set_map;
pub mod store;
pub mod thread;
pub mod thread_index;
