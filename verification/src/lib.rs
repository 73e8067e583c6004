//! A verified core for a matrix row-sum service: a big-endian wire codec for
//! square `i32` matrices, a partitioner that hands out disjoint row slices,
//! the row-sum transform each worker applies, and the per-connection protocol
//! state machine that drives a session from handshake to result delivery.

pub mod codec;
pub mod matrix;
pub mod protocol;
