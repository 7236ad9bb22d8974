pub mod ring_buffer;
pub mod state_machine;
pub mod ramp;
