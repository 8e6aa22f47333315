//! A user-space TCP core over raw IPv4 frames: modular sequence-number
//! arithmetic, the per-flow state machine (handshake, data delivery,
//! teardown, reset and retransmission), and the flow-demultiplexing table
//! that routes each inbound segment to its connection. Header parsing and
//! serialization go through the etherparse crate behind stated contracts;
//! everything else is proved.
pub mod codec;
pub mod engine;
pub mod seqnum;
pub mod table;
pub mod tcp;
