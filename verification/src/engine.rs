//! The conversation with the inflate engine.
//!
//! The engine is driven from outside this crate. A driver here hands out a `Request`
//! that names the engine primitive to run next; whoever runs it hands back the
//! engine's `Answer`. The compressed bytes that the engine is to read are held by the
//! driver, which gives them out as a slice; where the engine writes is named in the
//! request.
use crate::error::Error;
use crate::types::WINSIZE;
use vstd::prelude::*;

verus! {

/// What the engine reports after an inflate step.
#[derive(Clone, Copy, Debug, PartialEq, Eq)]
pub struct Outcome {
    /// The engine's return code.
    pub ret: i32,
    /// How many of the bytes it was given it has not consumed.
    pub avail_in: u32,
    /// How much of the output space it was given it has not filled.
    pub avail_out: u32,
    /// The low three bits count the unused bits of the last byte consumed; bit 6 marks
    /// the last block; bit 7 marks the end of a block or of the wrapper's header.
    pub data_type: i32,
}

/// Where the engine writes what it inflates.
#[derive(Clone, Copy, Debug, PartialEq, Eq)]
pub enum Output {
    /// Into the ring that serves as the sliding window, from `at` on, `len` bytes at most.
    Ring { at: usize, len: u32 },
    /// Into a buffer whose content nobody reads, `len` bytes at most.
    Discard { len: u32 },
    /// Into the caller's buffer, from `at` on, `len` bytes at most.
    Deliver { at: usize, len: u32 },
}

impl Output {
    /// Whether the engine stays inside the buffer that it writes to: the ring and the
    /// discard buffer of a window's size, or the caller's buffer of `capacity` bytes.
    pub open spec fn within(self, capacity: int) -> bool {
        match self {
            Output::Ring { at, len } => at + len <= WINSIZE,
            Output::Discard { len } => len <= WINSIZE,
            Output::Deliver { at, len } => at + len <= capacity,
        }
    }
}

/// The engine primitive to run next.
#[derive(Clone, Copy, Debug, PartialEq, Eq)]
pub enum Request {
    /// Start a session for the given wrapper.
    Init { window_bits: i32 },
    /// Inject `bits` bits, the low bits of `value`, before any input is read.
    Prime { bits: u32, value: i32 },
    /// Install the window of the point at place `point` of the index as the dictionary.
    SetDictionary { point: usize },
    /// Inflate from the driver's pending input into `output`.
    Inflate { flush: i32, output: Output },
    /// Reset the session for the given wrapper.
    Reset { window_bits: i32 },
    /// Finalise the session: the work is over.
    Finish,
}

impl Request {
    /// Whether an inflate step that is asked for stays inside the buffer that it
    /// writes to.
    pub open spec fn within(self, capacity: int) -> bool {
        self matches Request::Inflate { output, .. } ==> output.within(capacity)
    }
}

/// The engine's answer to a request.
#[derive(Clone, Copy, Debug, PartialEq, Eq)]
pub enum Answer {
    /// The return code of starting a session.
    Opened(i32),
    /// The return code of injecting bits.
    Primed(i32),
    /// The return code of installing a dictionary.
    Installed(i32),
    /// The state after an inflate step.
    Inflated(Outcome),
    /// The return code of a reset.
    Reset(i32),
}

/// What a driver does with an answer, as a mathematical value: it goes on, in a new
/// state, with the source read up to `upcoming`, and asks for `request`; or it fails.
/// `reads` tells whether the byte source is consulted on the way.
pub enum Step<V> {
    /// The driver goes on.
    Next { state: V, upcoming: Seq<u8>, request: Request, reads: bool },
    /// The driver gives up.
    Fail { error: Error, reads: bool },
}

impl<V> Step<V> {
    /// Whether the byte source is consulted in this step.
    pub open spec fn reads(self) -> bool {
        match self {
            Step::Next { reads, .. } => reads,
            Step::Fail { reads, .. } => reads,
        }
    }

    /// The same step, taken after the byte source was consulted.
    pub open spec fn reading(self) -> Step<V> {
        match self {
            Step::Next { state, upcoming, request, .. } => Step::Next {
                state,
                upcoming,
                request,
                reads: true,
            },
            Step::Fail { error, .. } => Step::Fail { error, reads: true },
        }
    }

    /// Whether the step goes on, to this state, with this much of the source left, and
    /// with this request.
    pub open spec fn leads_to(self, state: V, upcoming: Seq<u8>, request: Request) -> bool {
        self matches Step::Next { state: s, upcoming: u, request: q, .. } && s == state && u
            == upcoming && q == request
    }

    /// Whether `error` may come of the step: it is the failure of the step, or the
    /// step consults a byte source that is not reliable, and the byte source failed.
    pub open spec fn fails_with(self, error: Error, reliable: bool) -> bool {
        ||| self.reads() && !reliable && error.from_source()
        ||| (self matches Step::Fail { error: e, .. } && e == error)
    }
}

/// Whether a driver did what `step` says: it answered with the request and stands in
/// the state of `step`, or it failed with the error of `step`. Where the step consults
/// a byte source that is not reliable, a failure of the source may come in place of
/// either.
pub open spec fn agrees<V>(
    r: Result<Request, Error>,
    state: V,
    upcoming: Seq<u8>,
    step: Step<V>,
    reliable: bool,
) -> bool {
    match r {
        Ok(request) => step.leads_to(state, upcoming, request),
        Err(error) => step.fails_with(error, reliable),
    }
}

/// What a driver does is settled by its state, by what the source still holds and by
/// the answer: two runs that agree with one step, and in which the source did not
/// fail, ask for the same and end in the same state.
pub proof fn lemma_step_is_determined<V>(
    first: Result<Request, Error>,
    first_state: V,
    first_upcoming: Seq<u8>,
    second: Result<Request, Error>,
    second_state: V,
    second_upcoming: Seq<u8>,
    step: Step<V>,
    reliable: bool,
)
    requires
        agrees(first, first_state, first_upcoming, step, reliable),
        agrees(second, second_state, second_upcoming, step, reliable),
        first is Ok,
        second is Ok,
    ensures
        first == second,
        first_state == second_state,
        first_upcoming == second_upcoming,
{
}

/// A step that does not consult the byte source, or consults one that is reliable,
/// has one outcome: the driver goes on as the step says, or fails with the failure of
/// the step.
pub proof fn lemma_step_has_one_outcome<V>(
    r: Result<Request, Error>,
    state: V,
    upcoming: Seq<u8>,
    step: Step<V>,
    reliable: bool,
)
    requires
        agrees(r, state, upcoming, step, reliable),
        reliable || !step.reads(),
    ensures
        step is Next ==> r is Ok,
        step matches Step::Fail { error, .. } ==> r == Err::<Request, Error>(error),
{
}

} // verus!
