//! Framing of a raw linear16 (little-endian 16-bit PCM) body: the bytes that
//! arrive are released in whole frames, and the stream must end on a frame
//! boundary.
use vstd::prelude::*;
use vstd::string::StringExecFns;

use crate::cached_audio::{decimal_string, decimal_text};

verus! {

/// The pending bytes of a linear16 body: fewer than one frame, since every
/// whole frame is released as soon as it arrives.
#[derive(Debug)]
pub struct Linear16Frames {
    channels: usize,
    pending_bytes: Vec<u8>,
}

/// The abstract state: the channel count and the bytes of a partial frame.
pub struct Linear16View {
    pub channels: nat,
    pub pending: Seq<u8>,
}

impl View for Linear16Frames {
    type V = Linear16View;

    closed spec fn view(&self) -> Linear16View {
        Linear16View { channels: self.channels as nat, pending: self.pending_bytes@ }
    }
}

/// Bytes in one frame: one 16-bit sample per channel.
pub open spec fn frame_bytes(channels: nat) -> nat {
    channels * 2
}

/// Why a stream cannot be made for these rates and channels, if it cannot.
pub open spec fn stream_refusal(input_sample_rate: u32, output_sample_rate: u32, channels: u8) -> Option<Seq<char>> {
    if input_sample_rate == 0 {
        Some("sample_rate must be greater than 0"@)
    } else if output_sample_rate == 0 {
        Some("output_sample_rate must be greater than 0"@)
    } else if channels == 0 {
        Some("channels must be greater than 0"@)
    } else {
        None
    }
}

/// The bytes that a push releases: the whole frames of the pending bytes
/// followed by the new ones.
pub open spec fn released_bytes(pending: Seq<u8>, bytes: Seq<u8>, channels: nat) -> Seq<u8> {
    let all = pending + bytes;
    all.take((all.len() / frame_bytes(channels) * frame_bytes(channels)) as int)
}

/// The bytes that stay pending after a push.
pub open spec fn kept_bytes(pending: Seq<u8>, bytes: Seq<u8>, channels: nat) -> Seq<u8> {
    let all = pending + bytes;
    all.skip((all.len() / frame_bytes(channels) * frame_bytes(channels)) as int)
}

impl Linear16Frames {
    #[verifier::type_invariant]
    spec fn well_formed(self) -> bool {
        &&& 1 <= self.channels <= 255
        &&& self.pending_bytes@.len() < frame_bytes(self.channels as nat)
    }

    /// A stream for the given rates and channel count; each must be non-zero.
    pub fn new(input_sample_rate: u32, output_sample_rate: u32, channels: u8) -> (res: Result<Self, String>)
        ensures
            match stream_refusal(input_sample_rate, output_sample_rate, channels) {
                Some(message) => res matches Err(m) && m@ == message,
                None => res matches Ok(s) && s@ == (Linear16View { channels: channels as nat, pending: Seq::empty() }),
            },
    {
        if input_sample_rate == 0 {
            return Err(String::from_str("sample_rate must be greater than 0"));
        }
        if output_sample_rate == 0 {
            return Err(String::from_str("output_sample_rate must be greater than 0"));
        }
        if channels == 0 {
            return Err(String::from_str("channels must be greater than 0"));
        }
        Ok(Linear16Frames { channels: channels as usize, pending_bytes: Vec::new() })
    }

    pub fn channels(&self) -> (res: usize)
        ensures
            res == self@.channels,
            1 <= res <= 255,
    {
        proof {
            use_type_invariant(self);
        }
        self.channels
    }

    /// The number of bytes of the partial frame held back.
    pub fn pending_len(&self) -> (res: usize)
        ensures
            res == self@.pending.len(),
    {
        self.pending_bytes.len()
    }

    /// Take in more bytes and release every whole frame, in order.
    pub fn push(&mut self, bytes: &[u8]) -> (res: Vec<u8>)
        requires
            old(self)@.pending.len() + bytes@.len() <= usize::MAX,
        ensures
            res@ == released_bytes(old(self)@.pending, bytes@, old(self)@.channels),
            final(self)@ == (Linear16View {
                channels: old(self)@.channels,
                pending: kept_bytes(old(self)@.pending, bytes@, old(self)@.channels),
            }),
            res@.len() % frame_bytes(old(self)@.channels) == 0,
            final(self)@.pending.len() < frame_bytes(old(self)@.channels),
    {
        proof {
            use_type_invariant(&*self);
        }
        let ghost pending = self.pending_bytes@;
        let ghost all = pending + bytes@;
        let bytes_per_frame = self.channels * 2;
        let total = self.pending_bytes.len() + bytes.len();
        let rem = total % bytes_per_frame;
        assert(rem <= total) by (nonlinear_arith)
            requires
                rem == total % bytes_per_frame,
                bytes_per_frame > 0,
        ;
        let complete_len = total - rem;
        assert(complete_len == total / bytes_per_frame * bytes_per_frame) by (nonlinear_arith)
            requires
                complete_len == total - rem,
                rem == total % bytes_per_frame,
                bytes_per_frame > 0,
        ;
        assert(total - complete_len < bytes_per_frame) by (nonlinear_arith)
            requires
                complete_len == total / bytes_per_frame * bytes_per_frame,
                bytes_per_frame > 0,
        ;
        assert(complete_len % bytes_per_frame == 0) by (nonlinear_arith)
            requires
                complete_len == total / bytes_per_frame * bytes_per_frame,
                bytes_per_frame > 0,
        ;
        let mut released: Vec<u8> = Vec::new();
        let mut kept: Vec<u8> = Vec::new();
        let mut i: usize = 0;
        while i < total
            invariant
                total == all.len(),
                all == pending + bytes@,
                pending == self.pending_bytes@,
                complete_len <= total,
                0 <= i <= total,
                i <= complete_len ==> released@ == all.take(i as int) && kept@.len() == 0,
                i > complete_len ==> released@ == all.take(complete_len as int) && kept@ == all.subrange(
                    complete_len as int,
                    i as int,
                ),
            decreases total - i,
        {
            let b = if i < self.pending_bytes.len() {
                self.pending_bytes[i]
            } else {
                bytes[i - self.pending_bytes.len()]
            };
            assert(b == all[i as int]);
            if i < complete_len {
                released.push(b);
                assert(released@ =~= all.take(i + 1));
            } else {
                kept.push(b);
                assert(kept@ =~= all.subrange(complete_len as int, i + 1));
            }
            i = i + 1;
        }
        assert(all.skip(complete_len as int) =~= kept@) by {
            if complete_len == total {
                assert(kept@.len() == 0);
            }
        }
        assert(released@ =~= all.take(complete_len as int)) by {
            if complete_len == total {
                assert(all.take(total as int) =~= all);
            }
        }
        self.pending_bytes = kept;
        released
    }

    /// End the body: it must not end inside a frame.
    pub fn finish(&self) -> (res: Result<(), String>)
        ensures
            self@.pending.len() == 0 ==> res is Ok,
            self@.pending.len() > 0 ==> (res matches Err(m) && m@ == "raw linear16 body ended with "@ + decimal_text(
                self@.pending.len(),
            ) + " trailing bytes"@),
    {
        if self.pending_bytes.len() == 0 {
            return Ok(());
        }
        let message = String::from_str("raw linear16 body ended with ");
        let message = message.concat(decimal_string(self.pending_bytes.len() as u64).as_str());
        Err(message.concat(" trailing bytes"))
    }
}

/// A push loses and reorders nothing: the released bytes followed by the
/// bytes kept are the pending bytes followed by the new ones; whole frames
/// of two bytes per channel are released and less than a frame is kept.
pub proof fn law_linear16_conserves_bytes(pending: Seq<u8>, bytes: Seq<u8>, channels: nat)
    requires
        channels >= 1,
    ensures
        frame_bytes(channels) == 2 * channels,
        released_bytes(pending, bytes, channels) + kept_bytes(pending, bytes, channels) == pending + bytes,
        released_bytes(pending, bytes, channels).len() % frame_bytes(channels) == 0,
        kept_bytes(pending, bytes, channels).len() < frame_bytes(channels),
{
    let all = pending + bytes;
    let f = frame_bytes(channels);
    let complete = all.len() / f * f;
    assert(0 <= complete <= all.len() && all.len() - complete < f && complete % f == 0) by (nonlinear_arith)
        requires
            f >= 2,
            complete == all.len() / f * f,
    ;
    assert(all.take(complete as int) + all.skip(complete as int) =~= all);
}


/// A stream can be made exactly when both sample rates and the channel count
/// are nonzero.
pub proof fn law_stream_accepted(input_sample_rate: u32, output_sample_rate: u32, channels: u8)
    ensures
        stream_refusal(input_sample_rate, output_sample_rate, channels) is None <==> (input_sample_rate > 0
            && output_sample_rate > 0 && channels > 0),
{
}

} // verus!
