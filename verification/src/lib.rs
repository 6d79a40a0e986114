//! A fixed-interval, lookahead-based event scheduler that plays cyclic
//! sequences of symbolic events.
//!
//! Each line of an input text defines a sequence of tokens. On every tick
//! the scheduler takes the next token of each sequence, stamps it with a
//! time a little ahead of its media clock, and says how long to wait before
//! the next tick, so that ticks keep their pace however late the host fires
//! them.
//!
//! - `text` splits a text into lines and a line into tokens.
//! - `sequence` holds one cyclic sequence and its cursor.
//! - `timing` holds the arithmetic of the two clocks.
//! - `scheduler` holds the sequences and the clocks, and makes the ticks.

pub mod scheduler;
pub mod sequence;
pub mod text;
pub mod timing;

pub use crate::scheduler::{EvaluateError, Event, Scheduler, SourceType, Tick};
pub use crate::sequence::EventSequence;
pub use crate::timing::{Anomaly, Correction};
