//! What the audio callback does with a device's buffers.
//!
//! A device hands over buffers of whatever size its driver chose. They are
//! filled in bounded chunks, so that the scratch buffer is one allocation made
//! before the stream starts and the callback never allocates.

use crate::params::of;
use crate::single::Single;
use vstd::prelude::*;
use vstd::string::StringExecFns;

verus! {

/// How many events the control-side queue holds.
///
/// A dense sequencer plus two-handed playing plus MIDI clock is a few hundred
/// events a second, and the queue drains every few milliseconds, so this is
/// roomy by two orders of magnitude.
pub const DEFAULT_QUEUE_CAPACITY: usize = 1024;

/// The largest block the engine renders in one go inside the callback, in
/// samples. A stereo frame takes two.
pub const MAX_SCRATCH: usize = 16384;

/// Why there is no audio.
#[derive(Debug)]
pub enum SynthError {
    /// No audio device. Common in CI, containers and on machines with no sound
    /// card; worth handling, because a game that cannot open audio should still
    /// start.
    NoOutputDevice,
    /// What the device's driver said.
    Cpal(String),
    /// The device offered a sample format that cannot be converted to.
    UnsupportedSampleFormat(String),
}

impl SynthError {
    /// The error in words.
    pub open spec fn words(self) -> Seq<char> {
        match self {
            SynthError::NoOutputDevice => "no audio output device available"@,
            SynthError::Cpal(e) => "audio device error: "@ + e@,
            SynthError::UnsupportedSampleFormat(f) => "unsupported sample format: "@ + f@,
        }
    }

    pub fn message(&self) -> (s: String)
        ensures
            s@ == self.words(),
    {
        match self {
            SynthError::NoOutputDevice => String::from_str("no audio output device available"),
            SynthError::Cpal(e) => String::from_str("audio device error: ").concat(e.as_str()),
            SynthError::UnsupportedSampleFormat(f) => String::from_str(
                "unsupported sample format: ",
            ).concat(f.as_str()),
        }
    }
}

/// A device's channel count; one that reports none is treated as mono.
pub fn channel_count(channels: u16) -> (n: usize)
    ensures
        n == (if channels == 0 {
            1int
        } else {
            channels as int
        }),
{
    if channels == 0 {
        1
    } else {
        channels as usize
    }
}

/// How many frames the next chunk holds: all that are left, up to what fits into
/// the scratch buffer.
pub fn chunk_frames(left: usize, channels: usize) -> (n: usize)
    ensures
        n == (if channels >= 2 && left > 8192 {
            8192int
        } else if channels < 2 && left > 16384 {
            16384int
        } else {
            left as int
        }),
        n * (if channels >= 2 {
            2int
        } else {
            1int
        }) <= MAX_SCRATCH,
        n <= left,
        left > 0 ==> n > 0,
{
    let most: usize = if channels >= 2 {
        MAX_SCRATCH / 2
    } else {
        MAX_SCRATCH
    };
    if left < most {
        left
    } else {
        most
    }
}

/// The middle of a stereo frame.
pub open spec fn centre(left: Single, right: Single) -> Single {
    left.sum(right).product(of(0x3F00_0000))
}

/// What one channel of one frame plays. A mono device plays the mono block; a
/// stereo device the two sides of an interleaved one; and a surround device gets
/// the centre in the rest rather than silence, which would sound like a broken
/// driver.
pub open spec fn channel_sample(block: Seq<Single>, channels: int, frame: int, channel: int) -> Single {
    if channels < 2 {
        block[frame]
    } else if channel < 2 {
        block[2 * frame + channel]
    } else {
        centre(block[2 * frame], block[2 * frame + 1])
    }
}

/// Spreads a rendered block over the channels of a device: mono samples for a
/// single channel, interleaved stereo ones for more. Replaces what `out` held.
pub fn spread(block: &[Single], frames: usize, channels: usize, out: &mut Vec<Single>)
    requires
        1 <= channels <= 0xFFFF,
        frames <= MAX_SCRATCH,
        channels < 2 ==> frames <= block@.len(),
        channels >= 2 ==> 2 * frames <= block@.len(),
    ensures
        final(out)@.len() == frames * channels,
        forall|f: int, c: int|
            0 <= f < frames && 0 <= c < channels ==> #[trigger] final(out)@[slot(f, c, channels as int)]
                == channel_sample(block@, channels as int, f, c),
{
    out.clear();
    let mut f: usize = 0;
    while f < frames
        invariant
            1 <= channels <= 0xFFFF,
            f <= frames <= MAX_SCRATCH,
            channels < 2 ==> frames <= block@.len(),
            channels >= 2 ==> 2 * frames <= block@.len(),
            out@.len() == f * channels,
            forall|g: int, c: int|
                0 <= g < f && 0 <= c < channels ==> #[trigger] out@[slot(g, c, channels as int)]
                    == channel_sample(block@, channels as int, g, c),
        decreases frames - f,
    {
        let ghost before = out@;
        let (left, right): (Single, Single) = if channels < 2 {
            (block[f], block[f])
        } else {
            (block[2 * f], block[2 * f + 1])
        };
        let mut c: usize = 0;
        while c < channels
            invariant
                c <= channels,
                before.len() == f * channels,
                out@.len() == before.len() + c,
                channels < 2 ==> left == block@[f as int],
                channels >= 2 ==> left == block@[2 * f as int] && right == block@[2 * f as int + 1],
                forall|k: int| 0 <= k < before.len() ==> out@[k] == before[k],
                forall|d: int|
                    0 <= d < c ==> #[trigger] out@[slot(f as int, d, channels as int)]
                        == channel_sample(block@, channels as int, f as int, d),
            decreases channels - c,
        {
            out.push(
                if channels < 2 || c == 0 {
                    left
                } else if c == 1 {
                    right
                } else {
                    left.plus(right).times(of(0x3F00_0000))
                },
            );
            c = c + 1;
        }
        proof {
            assert forall|g: int, d: int| 0 <= g < f + 1 && 0 <= d < channels implies #[trigger] out@[slot(
                g,
                d,
                channels as int,
            )] == channel_sample(block@, channels as int, g, d) by {
                if g < f {
                    lemma_slot_in_frame(g, d, channels as int, f as int);
                    assert(out@[slot(g, d, channels as int)] == before[slot(
                        g,
                        d,
                        channels as int,
                    )]);
                }
            }
            assert((f + 1) * channels == f * channels + channels) by (nonlinear_arith);
        }
        f = f + 1;
    }
}

/// Where one channel of one frame lies in an interleaved buffer.
pub open spec fn slot(frame: int, channel: int, channels: int) -> int {
    frame * channels + channel
}

proof fn lemma_slot_in_frame(frame: int, channel: int, channels: int, frames: int)
    requires
        0 <= frame < frames,
        0 <= channel < channels,
    ensures
        0 <= slot(frame, channel, channels) < frames * channels,
{
    assert(0 <= frame * channels && (frame + 1) * channels <= frames * channels)
        by (nonlinear_arith)
        requires
            0 <= frame < frames,
            0 < channels,
    ;
    assert((frame + 1) * channels == frame * channels + channels) by (nonlinear_arith);
}

/// Every sample of an interleaved buffer belongs to exactly one channel of one
/// frame, so a buffer that is spread frame by frame has no gap and no overlap.
pub proof fn law_every_sample_is_one_channel_of_one_frame(k: int, channels: int, frames: int)
    requires
        channels > 0,
        0 <= k < frames * channels,
    ensures
        0 <= k / channels < frames,
        0 <= k % channels < channels,
        slot(k / channels, k % channels, channels) == k,
        forall|f: int, c: int|
            0 <= f < frames && 0 <= c < channels && #[trigger] slot(f, c, channels) == k ==> f == k
                / channels && c == k % channels,
{
    vstd::arithmetic::div_mod::lemma_fundamental_div_mod(k, channels);
    assert(channels * (k / channels) == (k / channels) * channels) by (nonlinear_arith);
    vstd::arithmetic::div_mod::lemma_div_pos_is_pos(k, channels);
    assert(k / channels < frames) by (nonlinear_arith)
        requires
            k == channels * (k / channels) + k % channels,
            0 <= k % channels,
            k < frames * channels,
            channels > 0,
    ;
    assert forall|f: int, c: int|
        0 <= f < frames && 0 <= c < channels && #[trigger] slot(f, c, channels) == k implies f == k
        / channels && c == k % channels by {
        vstd::arithmetic::div_mod::lemma_fundamental_div_mod_converse(k, channels, f, c);
    }
}

} // verus!
