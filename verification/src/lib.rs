//! Single-producer/single-consumer ring buffer over a shared byte region,
//! with a cursor synchronization protocol, nanosecond timestamp
//! instrumentation, and a two-phase control channel for extracting the
//! producer-side latency trace.

pub mod config;
pub mod control;
pub mod message;
pub mod ring;
pub mod session;
pub mod text;
pub mod timestamp;
pub mod transport;

pub use config::Config;
pub use control::{ControlChannel, ProtocolError};
pub use message::{IntegrityMismatch, Message};
pub use ring::{BalanceMeter, Empty, Full, RingBuffer, SyncStrategy, WriteOutcome};
pub use session::{run_session, Metrics, ReadOutcome, Session};
pub use timestamp::{FormatError, Timestamp, TimestampRecorder, TimestampTag};
pub use transport::{MappingFailure, NotMapped, RegionDescriptor, RegionLayout, SharedRegion};
