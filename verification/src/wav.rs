//! Bouncing audio to disk, as far as the bytes go.
//!
//! A WAV header is 44 bytes of well-documented structure, and this is the only
//! file format there is.

use crate::double::Double;
use crate::params::of;
use crate::single::Single;
use vstd::prelude::*;

verus! {

/// A 16-bit number, least significant byte first.
pub open spec fn le16(n: int) -> Seq<u8> {
    seq![(n % 256) as u8, (n / 256 % 256) as u8]
}

/// A 32-bit number, least significant byte first.
pub open spec fn le32(n: int) -> Seq<u8> {
    seq![
        (n % 256) as u8,
        (n / 256 % 256) as u8,
        (n / 65536 % 256) as u8,
        (n / 16777216 % 256) as u8,
    ]
}

/// A signed 16-bit number as the unsigned one with the same bits.
pub open spec fn twos_complement(n: int) -> int {
    if n < 0 {
        n + 65536
    } else {
        n
    }
}

/// A sample as a 16-bit number: held to full scale, then cut off toward zero.
///
/// Scaled by 32767, not 32768: the positive side of a signed 16-bit range stops
/// one short, and scaling by 32768 would wrap a full-scale sample around to a
/// loud negative click.
pub open spec fn quantised(x: Single) -> int {
    let held = x.clamped(of(0xBF80_0000), of(0x3F80_0000));
    if held.nan() {
        0
    } else if held.negative() {
        -held.scaled(32767)
    } else {
        held.scaled(32767)
    }
}

/// A sample rate as a whole number of hertz.
pub open spec fn whole_rate(rate: Single) -> int {
    if rate.truncated() > u32::MAX {
        u32::MAX as int
    } else {
        rate.truncated()
    }
}

/// The 44 bytes before the samples: mono, 16 bits, uncompressed.
pub open spec fn header(rate: int, data_bytes: int) -> Seq<u8> {
    seq![0x52u8, 0x49, 0x46, 0x46]  // RIFF
         + le32(36 + data_bytes) + seq![0x57u8, 0x41, 0x56, 0x45]  // WAVE
         + seq![0x66u8, 0x6D, 0x74, 0x20]  // fmt
         + le32(16) + le16(1) + le16(1) + le32(rate) + le32(2 * rate) + le16(2) + le16(16)
        + seq![0x64u8, 0x61, 0x74, 0x61]  // data
         + le32(data_bytes)
}

/// The samples' bytes.
pub open spec fn body(samples: Seq<Single>) -> Seq<u8>
    decreases samples.len(),
{
    if samples.len() == 0 {
        Seq::empty()
    } else {
        body(samples.drop_last()) + le16(twos_complement(quantised(samples.last())))
    }
}

fn push16(out: &mut Vec<u8>, n: u16)
    ensures
        final(out)@ == old(out)@ + le16(n as int),
{
    out.push((n % 256) as u8);
    out.push((n / 256) as u8);
    assert(out@ =~= old(out)@ + le16(n as int));
}

fn push32(out: &mut Vec<u8>, n: u32)
    ensures
        final(out)@ == old(out)@ + le32(n as int),
{
    out.push((n % 256) as u8);
    out.push((n / 256 % 256) as u8);
    out.push((n / 65536 % 256) as u8);
    out.push((n / 16777216) as u8);
    assert(out@ =~= old(out)@ + le32(n as int));
}

fn push_tag(out: &mut Vec<u8>, a: u8, b: u8, c: u8, d: u8)
    ensures
        final(out)@ == old(out)@ + seq![a, b, c, d],
{
    out.push(a);
    out.push(b);
    out.push(c);
    out.push(d);
    assert(out@ =~= old(out)@ + seq![a, b, c, d]);
}

/// The bits of the 16-bit number nearest a sample.
fn quantise(x: Single) -> (n: u16)
    ensures
        n == twos_complement(quantised(x)),
{
    let held: Single = x.clamp(of(0xBF80_0000), of(0x3F80_0000));
    if held.is_nan() {
        return 0;
    }
    assert(held.magnitude() <= 0x3F80_0000);
    let size: u32 = held.scale(32767);
    if held.is_negative() && size > 0 {
        (65536 - size) as u16
    } else {
        size as u16
    }
}

fn rate_word(rate: Single) -> (n: u32)
    ensures
        n == whole_rate(rate),
{
    let n: u64 = rate.to_whole();
    if n > u32::MAX as u64 {
        u32::MAX
    } else {
        n as u32
    }
}

/// The bytes of a mono 16-bit WAV file, or `None` where a length or a rate does
/// not fit the header's 32-bit fields.
pub fn wav_bytes(samples: &[Single], sample_rate: Single) -> (bytes: Option<Vec<u8>>)
    ensures
        bytes is Some <==> (36 + 2 * samples@.len() <= u32::MAX && 2 * whole_rate(sample_rate)
            <= u32::MAX),
        bytes matches Some(b) ==> b@ == header(whole_rate(sample_rate), 2 * samples@.len() as int)
            + body(samples@),
{
    let rate: u32 = rate_word(sample_rate);
    if samples.len() > 0x7FFF_FFED || rate > 0x7FFF_FFFF {
        return None;
    }
    let data_bytes: u32 = samples.len() as u32 * 2;
    let mut out: Vec<u8> = Vec::new();
    push_tag(&mut out, 0x52, 0x49, 0x46, 0x46);
    push32(&mut out, 36 + data_bytes);
    push_tag(&mut out, 0x57, 0x41, 0x56, 0x45);
    push_tag(&mut out, 0x66, 0x6D, 0x74, 0x20);
    push32(&mut out, 16);
    push16(&mut out, 1);
    push16(&mut out, 1);
    push32(&mut out, rate);
    push32(&mut out, rate * 2);
    push16(&mut out, 2);
    push16(&mut out, 16);
    push_tag(&mut out, 0x64, 0x61, 0x74, 0x61);
    push32(&mut out, data_bytes);
    let ghost head = header(rate as int, data_bytes as int);
    assert(out@ =~= head);
    let mut i: usize = 0;
    while i < samples.len()
        invariant
            i <= samples@.len(),
            out@ == head + body(samples@.take(i as int)),
        decreases samples@.len() - i,
    {
        let n: u16 = quantise(samples[i]);
        let ghost so_far = samples@.take(i + 1);
        assert(so_far.drop_last() =~= samples@.take(i as int));
        push16(&mut out, n);
        assert(out@ =~= head + body(so_far));
        i = i + 1;
    }
    assert(samples@.take(i as int) =~= samples@);
    Some(out)
}

/// How many samples a stretch of time takes.
pub open spec fn samples_in(sample_rate: Single, seconds: Single) -> int {
    sample_rate.product(seconds.larger(of(0))).truncated()
}

/// How many samples `seconds` of audio take; none for a negative time.
pub fn sample_count(sample_rate: Single, seconds: Single) -> (n: u64)
    ensures
        n == samples_in(sample_rate, seconds),
{
    sample_rate.times(seconds.max(of(0))).to_whole()
}

/// The loudest of the first `n` samples, by magnitude; a NaN is passed over.
pub open spec fn loudest(samples: Seq<Single>, n: int) -> Single
    decreases n,
{
    if n <= 0 {
        of(0)
    } else {
        loudest(samples, n - 1).larger(samples[n - 1].size())
    }
}

/// The peak of a buffer, in linear amplitude.
pub fn peak(samples: &[Single]) -> (x: Single)
    ensures
        x == loudest(samples@, samples@.len() as int),
{
    let mut x: Single = of(0);
    let mut i: usize = 0;
    while i < samples.len()
        invariant
            i <= samples@.len(),
            x == loudest(samples@, i as int),
        decreases samples@.len() - i,
    {
        x = x.max(samples[i].abs());
        i = i + 1;
    }
    x
}

/// The sum of the first `n` samples' squares, in double precision.
pub open spec fn squares(samples: Seq<Single>, n: int) -> Double
    decreases n,
{
    if n <= 0 {
        Double { bits: 0 }
    } else {
        let x = Double::widened(samples[n - 1]);
        squares(samples, n - 1).sum(x.product(x))
    }
}

/// The mean square of a buffer, whose root is its loudness. An empty one has none.
pub fn mean_square(samples: &[Single]) -> (x: Double)
    ensures
        samples@.len() == 0 ==> x == (Double { bits: 0 }),
        samples@.len() > 0 ==> x == squares(samples@, samples@.len() as int).quotient(
            Double::nearest_to(samples@.len() as int),
        ),
{
    let len: usize = samples.len();
    let mut sum: Double = Double { bits: 0 };
    let mut i: usize = 0;
    while i < len
        invariant
            i <= len == samples@.len(),
            sum == squares(samples@, i as int),
        decreases len - i,
    {
        let x: Double = Double::from_single(samples[i]);
        sum = sum.plus(x.times(x));
        i = i + 1;
    }
    if len == 0 {
        sum
    } else {
        sum.over(Double::from_whole(len as u64))
    }
}

/// The peak is at least as loud as every sample that is a number.
pub proof fn law_no_sample_is_above_the_peak(samples: Seq<Single>, n: int, i: int)
    requires
        0 <= i < n <= samples.len(),
        !samples[i].nan(),
    ensures
        !loudest(samples, n).nan(),
        samples[i].size().at_most(loudest(samples, n)),
    decreases n,
{
    lemma_loudest_is_a_number(samples, n - 1);
    lemma_loudest_is_a_number(samples, n);
    if i < n - 1 {
        law_no_sample_is_above_the_peak(samples, n - 1, i);
    }
}

proof fn lemma_loudest_is_a_number(samples: Seq<Single>, n: int)
    ensures
        !loudest(samples, n).nan(),
    decreases n,
{
    if n > 0 {
        lemma_loudest_is_a_number(samples, n - 1);
    }
}

/// Full scale either way is as loud as sixteen bits go, and nothing wraps.
pub proof fn law_full_scale_does_not_wrap(x: Single)
    ensures
        -32767 <= quantised(x) <= 32767,
{
    let held = x.clamped(of(0xBF80_0000), of(0x3F80_0000));
    if !held.nan() {
        assert(held.magnitude() <= 0x3F80_0000);
        crate::single::lemma_scaled_at_most(held, 32767);
    }
}

/// A file is 44 bytes of header and two for every sample.
pub proof fn law_two_bytes_to_a_sample(samples: Seq<Single>, rate: int)
    ensures
        body(samples).len() == 2 * samples.len(),
        header(rate, 2 * samples.len() as int).len() == 44,
    decreases samples.len(),
{
    if samples.len() > 0 {
        law_two_bytes_to_a_sample(samples.drop_last(), rate);
    }
}

} // verus!
