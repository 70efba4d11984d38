//! The wire format: a fixed-length, marker-delimited byte frame carrying one
//! sampled vector of channel states.
//!
//! A frame is `[START_MARKER, state(1), ..., state(N), pad, END_MARKER]`,
//! ten bytes in all: one start marker, one byte per channel (0x00 = low,
//! 0x01 = high), one pad byte, one end marker. There is no length field and
//! no checksum; boundary recovery relies entirely on the two marker bytes
//! and the fixed total length.

use vstd::prelude::*;

verus! {

/// Number of monitored digital signal lines.
pub const N_CHANNELS: usize = 7;

/// Total length of one frame in bytes: start marker, one byte per channel,
/// one pad byte, end marker.
pub const FRAME_LEN: usize = 10;

/// First byte of every frame (SOH).
pub const START_MARKER: u8 = 0x01;

/// Last byte of every frame (LF).
pub const END_MARKER: u8 = 0x0A;

/// How one channel level is put on the wire: 0x01 for high, 0x00 for low.
pub open spec fn level_byte(b: bool) -> u8 {
    if b {
        1u8
    } else {
        0u8
    }
}

/// The frame that encodes a given vector of channel states.
pub open spec fn spec_encode(states: Seq<bool>) -> Seq<u8> {
    Seq::new(
        FRAME_LEN as nat,
        |i: int|
            if i == 0 {
                START_MARKER
            } else if i == FRAME_LEN - 1 {
                END_MARKER
            } else if i <= N_CHANNELS {
                level_byte(states[i - 1])
            } else {
                0u8
            },
    )
}

/// A byte sequence is accepted as a frame exactly when it has the fixed
/// length and both marker bytes in place. Interior bytes are not inspected.
pub open spec fn frame_valid(bytes: Seq<u8>) -> bool {
    &&& bytes.len() == FRAME_LEN
    &&& bytes[0] == START_MARKER
    &&& bytes[FRAME_LEN - 1] == END_MARKER
}

/// The channel states carried by a frame: any nonzero interior byte reads
/// as high.
pub open spec fn spec_decode(bytes: Seq<u8>) -> Seq<bool> {
    Seq::new(N_CHANNELS as nat, |i: int| bytes[i + 1] != 0)
}

/// Serializes a vector of channel states into exactly one frame of the
/// fixed length, regardless of the vector's content.
pub fn encode(states: &Vec<bool>) -> (frame: Vec<u8>)
    requires
        states@.len() == N_CHANNELS,
    ensures
        frame@ == spec_encode(states@),
        frame@.len() == FRAME_LEN,
{
    let mut frame: Vec<u8> = Vec::new();
    frame.push(START_MARKER);
    let mut i: usize = 0;
    while i < N_CHANNELS
        invariant
            states@.len() == N_CHANNELS,
            i <= N_CHANNELS,
            frame@.len() == i + 1,
            frame@[0] == START_MARKER,
            forall|j: int| 1 <= j <= i ==> frame@[j] == level_byte(states@[j - 1]),
        decreases N_CHANNELS - i,
    {
        if states[i] {
            frame.push(1u8);
        } else {
            frame.push(0u8);
        }
        i += 1;
    }
    frame.push(0u8);
    frame.push(END_MARKER);
    proof {
        assert(frame@ =~= spec_encode(states@));
    }
    frame
}

/// Checks the fixed length and both markers; on success extracts the
/// channel states, otherwise rejects the bytes as a whole.
pub fn decode(bytes: &Vec<u8>) -> (r: Option<Vec<bool>>)
    ensures
        r is Some <==> frame_valid(bytes@),
        r matches Some(states) ==> states@ == spec_decode(bytes@),
{
    if bytes.len() != FRAME_LEN {
        return None;
    }
    if bytes[0] != START_MARKER || bytes[FRAME_LEN - 1] != END_MARKER {
        return None;
    }
    let mut states: Vec<bool> = Vec::new();
    let mut i: usize = 0;
    while i < N_CHANNELS
        invariant
            bytes@.len() == FRAME_LEN,
            i <= N_CHANNELS,
            states@.len() == i,
            forall|j: int| 0 <= j < i ==> states@[j] == (bytes@[j + 1] != 0),
        decreases N_CHANNELS - i,
    {
        states.push(bytes[i + 1] != 0);
        i += 1;
    }
    proof {
        assert(states@ =~= spec_decode(bytes@));
    }
    Some(states)
}

/// Round trip: decoding an encoded vector of channel states gives back the
/// vector, for every vector of the fixed channel count.
pub proof fn lemma_round_trip(states: Seq<bool>)
    requires
        states.len() == N_CHANNELS,
    ensures
        frame_valid(spec_encode(states)),
        spec_decode(spec_encode(states)) == states,
{
    assert(spec_decode(spec_encode(states)) =~= states);
}

/// Marker rejection: a byte sequence of the right length whose first or
/// last byte is not the expected marker is not a valid frame.
pub proof fn lemma_marker_mismatch_rejected(bytes: Seq<u8>)
    requires
        bytes.len() == FRAME_LEN,
        bytes[0] != START_MARKER || bytes[FRAME_LEN - 1] != END_MARKER,
    ensures
        !frame_valid(bytes),
{
}

} // verus!
