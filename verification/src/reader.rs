//! The frame reader step: what the host does with the outcome of one
//! fixed-size read from the byte stream. The blocking read itself is I/O
//! and stays with the caller; it hands the outcome in as a [`ReadEvent`]
//! and performs no decision of its own. The reader never fails: every
//! event leaves the register either unchanged or holding a whole decoded
//! frame, so a driving loop survives timeouts, faults and corrupt bytes
//! alike.

use vstd::prelude::*;
use crate::frame::{frame_valid, spec_decode, FRAME_LEN};
use crate::register::LatestState;

verus! {

/// The outcome of one attempted fixed-size read, as the transport reports
/// it: some bytes (possibly fewer than a frame), no data within the read
/// window, or a transport fault.
pub enum ReadEvent {
    /// The bytes the read returned, at most one frame's worth.
    Data(Vec<u8>),
    /// No data arrived within the read window; not an error.
    Timeout,
    /// Any other read failure; reported by the caller and retried.
    Fault,
}

/// What one reader step did, one variant per branch of the error
/// taxonomy.
#[derive(PartialEq, Eq, Structural, Clone, Copy, Debug)]
pub enum StepResult {
    /// A whole valid frame arrived and the register now holds its payload.
    Updated,
    /// The chunk had the right length but a marker out of place; dropped.
    BadFrame,
    /// The read returned fewer bytes than one frame; dropped.
    ShortRead,
    /// The read timed out; nothing to do.
    NoData,
    /// A transport fault was reported; the register stands.
    FaultLogged,
}

/// Applies one read chunk to the register: a chunk is accepted exactly
/// when it is a whole frame with both markers in place, and only then does
/// the register change, to the frame's decoded payload as a whole.
pub fn process_chunk(reg: &mut LatestState, chunk: &Vec<u8>) -> (accepted: bool)
    requires
        old(reg).wf(),
    ensures
        final(reg).wf(),
        accepted == frame_valid(chunk@),
        accepted ==> final(reg)@ == spec_decode(chunk@),
        !accepted ==> final(reg)@ == old(reg)@,
{
    match crate::frame::decode(chunk) {
        Some(states) => {
            reg.write(&states);
            true
        },
        None => false,
    }
}

/// Runs one step of the reader loop for a given read outcome. The
/// register advances only on a whole valid frame; a short read, a marker
/// mismatch, a timeout and a fault all leave it exactly as it was, and the
/// step always returns, so the loop around it keeps running.
pub fn reader_step(reg: &mut LatestState, event: &ReadEvent) -> (r: StepResult)
    requires
        old(reg).wf(),
    ensures
        final(reg).wf(),
        match event {
            ReadEvent::Data(chunk) => {
                &&& (r == StepResult::Updated <==> frame_valid(chunk@))
                &&& (frame_valid(chunk@) ==> final(reg)@ == spec_decode(chunk@))
                &&& (!frame_valid(chunk@) ==> final(reg)@ == old(reg)@)
                &&& (chunk@.len() != FRAME_LEN ==> r == StepResult::ShortRead)
                &&& (chunk@.len() == FRAME_LEN && !frame_valid(chunk@) ==> r
                    == StepResult::BadFrame)
            },
            ReadEvent::Timeout => r == StepResult::NoData && final(reg)@ == old(reg)@,
            ReadEvent::Fault => r == StepResult::FaultLogged && final(reg)@ == old(reg)@,
        },
{
    match event {
        ReadEvent::Data(chunk) => {
            if chunk.len() != FRAME_LEN {
                StepResult::ShortRead
            } else if process_chunk(reg, chunk) {
                StepResult::Updated
            } else {
                StepResult::BadFrame
            }
        },
        ReadEvent::Timeout => StepResult::NoData,
        ReadEvent::Fault => StepResult::FaultLogged,
    }
}

} // verus!
