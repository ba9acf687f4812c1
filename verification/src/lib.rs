//! Terminal user interface for Docker: the verified core.
//!
//! The list of containers, the window over it, the key bindings and the timers are decided
//! here; the program around them draws, reads the terminal and talks to Docker.
pub mod container_list;
pub mod docker;
pub mod input;
pub mod input_state_machine;
pub mod timer;
pub mod viewport;
