//! A fixed-size worker pool, modelled as a verified state machine.
//!
//! A pool owns a fixed number of long-lived workers that pull units of work
//! from a shared dispatch queue and run them. This crate verifies the part of
//! the design that coordinates that work: which messages the queue carries,
//! how a worker's receive loop reacts to each message, when submission is
//! accepted, and how teardown broadcasts one termination message per worker
//! before the worker threads are joined.
//!
//! The operating-system threads themselves, the lock around the consuming end
//! of the queue, and the blocking wait for the next message are outside work:
//! an embedding program performs them and reports each event (a message
//! received, a job finished, a join returned) to the [`pool::ThreadPool`]
//! state machine, whose contracts pin down what every event does to the pool.

pub mod list;
pub mod message;
pub mod pool;
pub mod worker;

pub use pool::PoolCreationError;
pub use pool::ThreadPool;
