//! Synapse: a bridge between processes of different languages, by shared memory and lock-free
//! rings.
//!
//! The data of a bridge lives in a region of bytes that both processes see. The modules here
//! work on such a region, given as a slice, and decide what the processes do:
//!
//! - `control`: the control block at the start of a region
//! - `ring`: rings of messages; `spsc`: a producer and a consumer at work on one at the same time
//! - `bridge`: the two ends of a bridge
//! - `typed_channel`: channels of typed values, and the registry of their names
//! - `latest_slot`: slots for the latest value; `seqlock`: a writer and readers at the same time
//! - `shutdown`: heartbeats, and the end of a bridge
//! - `wait`: how to wait for a message
//! - `shm`: how a region is created, opened and given back
//! - `echo`: a child process that answers messages
//! - `idl`: the compiler for .bridge schemas
pub mod bridge;
pub mod bytes;
pub mod control;
pub mod echo;
pub mod error;
pub mod idl;
pub mod latest_slot;
pub mod ring;
pub mod seqlock;
pub mod shm;
pub mod shutdown;
pub mod spsc;
pub mod text;
pub mod time;
pub mod typed_channel;
pub mod wait;

pub use bridge::{
    connect, connect_with_config, host, host_with_config, Bridge, DEFAULT_CAPACITY,
    DEFAULT_SLOT_SIZE,
};
