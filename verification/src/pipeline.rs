//! The entry of the pipeline: from a buffer to the scheduler of its run, and
//! the generation tokens that tell a run from the one that supersedes it.

use crate::backend::{encode, encoding_of, EncodeError};
use crate::capacity::{
    discover, raw_capacity, safe_capacity_spec, ProbeExhaustionError, PROBE_UPPER_BOUND,
};
use crate::chunker::{chunk_bytes, Chunk};
use crate::format::FormatParameter;
use crate::scheduler::{initial_run, FrameScheduler};
use crate::symbol::{Matrix, Symbol};
use vstd::prelude::*;

verus! {

/// The source of generation tokens: each run started gets the next one, and
/// only the latest is current.
#[derive(Clone, Copy, Debug, PartialEq, Eq, Structural)]
pub struct GenerationCounter {
    pub current: u64,
}

impl GenerationCounter {
    /// A counter that has started no run yet.
    pub fn new() -> (counter: GenerationCounter)
        ensures
            counter.current == 0,
    {
        GenerationCounter { current: 0 }
    }

    /// Starts a run: its generation is one above the one before and is the
    /// current one from now on. `None`, with nothing changed, where the tokens
    /// have run out.
    pub fn begin_run(&mut self) -> (generation: Option<u64>)
        ensures
            match generation {
                Some(token) => token == old(self).current + 1 && final(self).current == token,
                None => old(self).current == u64::MAX && final(self).current == old(self).current,
            },
    {
        match self.current.checked_add(1) {
            Some(token) => {
                self.current = token;
                Some(token)
            },
            None => None,
        }
    }

    /// Whether `generation` is the run started last.
    pub fn is_current(&self, generation: u64) -> (current: bool)
        ensures
            current == (generation == self.current),
    {
        generation == self.current
    }
}

/// Plans the run over a buffer of `len` bytes: finds the safe capacity of
/// `format` and hands back the scheduler of the run, idle, tagged with
/// `generation`. Where probing finds no feasible length there is no run.
pub fn plan(len: usize, format: &FormatParameter, generation: u64) -> (planned: Result<
    FrameScheduler,
    ProbeExhaustionError,
>)
    ensures
        match planned {
            Ok(scheduler) => {
                &&& raw_capacity(*format, PROBE_UPPER_BOUND as int) matches Some(raw)
                &&& scheduler@ == initial_run(len as int, safe_capacity_spec(raw), generation)
                &&& scheduler@.wf()
            },
            Err(_) => raw_capacity(*format, PROBE_UPPER_BOUND as int) is None,
        },
{
    match discover(format) {
        Ok(capacity) => Ok(FrameScheduler::new(len, capacity, generation)),
        Err(e) => Err(e),
    }
}

/// Encodes the bytes of `buffer` that `chunk` covers as one symbol.
pub fn encode_chunk(buffer: &[u8], chunk: &Chunk, format: &FormatParameter) -> (out: Result<
    Symbol,
    EncodeError,
>)
    requires
        chunk.start <= chunk.end <= buffer@.len(),
    ensures
        match out {
            Ok(symbol) => {
                &&& encoding_of(
                    buffer@.subrange(chunk.start as int, chunk.end as int),
                    *format,
                ) == Ok::<Matrix, EncodeError>(symbol@)
                &&& symbol@.is_square()
                &&& symbol@.size == format.spec_side()
            },
            Err(e) => encoding_of(buffer@.subrange(chunk.start as int, chunk.end as int), *format)
                == Err::<Matrix, EncodeError>(e),
        },
{
    encode(chunk_bytes(buffer, chunk), format)
}

} // verus!
