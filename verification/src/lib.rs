//! Core data structures for streaming FIR and polyphase filtering: a
//! fixed-capacity sliding sample buffer, a polyphase decomposition of a
//! flat filter-tap sequence into strided arms, and the dot product that
//! combines buffer contents with filter taps.

pub mod buffers;
pub mod dotproduct;
pub mod errors;
pub mod pfb;
pub mod scalar;
