pub mod clock;
pub mod monoshot;
pub mod sequencer;
pub mod delay;
pub mod adsr;
