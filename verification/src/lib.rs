//! Encodes a byte buffer as a sequence of fixed-capacity optical symbols and
//! drives their rendering one symbol per turn of the host's event loop.
//!
//! - [`format`] is the pair of version and error-correction level that all
//!   symbols of a run share.
//! - [`capacity`] finds how many bytes one symbol of a format holds, by
//!   bisection against the encoding backend, and takes the safety margin off;
//!   [`probe`] builds the payloads that it asks the backend about.
//! - [`chunker`] cuts a buffer into chunks of that capacity.
//! - [`scheduler`] is the state machine that has the chunks rendered in index
//!   order, one per tick, and keeps the outcome of each.
//! - [`backend`] is the encoder of one chunk; [`symbol`] is what it produces
//!   and how that is painted; [`target`] names the surface it is painted on.
//! - [`pipeline`] plans a run from a buffer's length.

pub mod backend;
pub mod capacity;
pub mod chunker;
pub mod format;
pub mod pipeline;
pub mod probe;
pub mod scheduler;
pub mod symbol;
pub mod target;

pub use backend::{encode, EncodeError};
pub use capacity::{discover, get_max_qr_capacity, ProbeExhaustionError};
pub use chunker::{split, Chunk};
pub use format::{ErrorCorrection, FormatParameter};
pub use pipeline::{plan, GenerationCounter};
pub use scheduler::{Action, ChunkOutcome, Event, FrameScheduler, Phase};
pub use symbol::Symbol;
pub use target::target_key;
