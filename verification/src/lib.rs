pub mod dsp;
pub mod graph;
pub mod latest_value;
pub mod node_data;
pub mod nodes;
pub mod note;
pub mod ring_buffer;
pub mod text;
pub mod wav;
