//! A fixed-capacity ring buffer: bounded first-in first-out storage whose
//! live window may wrap around the end of its backing storage.

pub mod laws;
pub mod ring;

pub use ring::{BufferError, CircularBuffer};
