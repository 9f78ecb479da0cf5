//! The effects stage: a stereo delay into a plate reverb.
//!
//! The order is fixed and deliberate. With the delay first, the reverb hears the repeats
//! and puts each one in the same room. The other way round the delay repeats the tail, and
//! it turns to mud within about a second.

use crate::clock::BLOCK;
use crate::curve;
use crate::curve::Curve;
use crate::delay::StereoDelay;
use crate::line;
use crate::output::chunk;
use crate::params::Params;
use crate::reverb::PlateReverb;
use crate::single::Single;
use vstd::prelude::*;

verus! {

/// How many chunks a buffer makes.
pub open spec fn chunks(len: nat) -> nat {
    ((len + BLOCK - 1) / (BLOCK as int)) as nat
}

/// One chunk of a buffer that is, or will be, `len` long; the last may be short.
pub open spec fn piece<A>(s: Seq<A>, i: int, len: int) -> Seq<A> {
    s.subrange(
        i * BLOCK,
        if (i + 1) * BLOCK <= len {
            (i + 1) * BLOCK
        } else {
            len
        },
    )
}

/// One chunk of two channels.
pub open spec fn pieces(s: (Seq<Single>, Seq<Single>), i: int, len: int) -> (Seq<Single>, Seq<Single>) {
    (piece(s.0, i, len), piece(s.1, i, len))
}

/// Owns the effects and runs them in order.
#[derive(Debug)]
pub struct FxChain {
    pub delay: StereoDelay,
    pub reverb: PlateReverb,
    /// Whether the controls have been aligned with the first patch they saw.
    pub primed: bool,
}

impl FxChain {
    pub open spec fn wf(self) -> bool {
        self.delay.wf() && self.reverb.wf()
    }

    /// A silent stage that has seen no patch yet.
    #[verifier::opaque]
    pub open spec fn fresh<F: Fn(Curve, Single) -> Single>(self, f: F, sample_rate: Single) -> bool {
        &&& self.delay.fresh(f, sample_rate)
        &&& self.reverb.fresh(f, sample_rate)
        &&& !self.primed
    }

    /// Whether the stage is ready for a patch: the first one it sees is the patch as
    /// loaded, and it jumps there rather than glides.
    pub open spec fn readied(self, old: FxChain, p: Params, tempo_bpm: Single) -> bool {
        &&& self.primed
        &&& if old.primed {
            self == old
        } else {
            &&& self.delay.snapped(old.delay, p, tempo_bpm)
            &&& self.reverb.snapped(old.reverb, p)
        }
    }

    /// Whether a chunk went through the delay, and what came of it through the reverb.
    #[verifier::opaque]
    pub open spec fn passed<F: Fn(Curve, Single) -> Single>(
        self,
        f: F,
        old: FxChain,
        dry: (Seq<Single>, Seq<Single>),
        out: (Seq<Single>, Seq<Single>),
        p: Params,
        tempo_bpm: Single,
    ) -> bool {
        &&& self.primed == old.primed
        &&& exists|mid: (Seq<Single>, Seq<Single>)|
            {
                &&& #[trigger] self.delay.passed(old.delay, dry, mid, p, tempo_bpm)
                &&& self.reverb.passed(
                    old.reverb,
                    mid,
                    out,
                    p,
                    old.reverb.swings(f, line::frames(dry)),
                )
            }
    }

    /// Whether one chunk of a buffer took the stage from one of `states` to the next.
    pub open spec fn step<F: Fn(Curve, Single) -> Single>(
        f: F,
        states: Seq<FxChain>,
        dry: (Seq<Single>, Seq<Single>),
        out: (Seq<Single>, Seq<Single>),
        p: Params,
        tempo_bpm: Single,
        i: int,
    ) -> bool {
        let len = dry.0.len() as int;
        states[i + 1].passed(f, states[i], pieces(dry, i, len), pieces(out, i, len), p, tempo_bpm)
    }

    /// Whether a buffer went through chunk by chunk, with the stage as in `states` before
    /// each chunk and after the last.
    pub open spec fn ran<F: Fn(Curve, Single) -> Single>(
        f: F,
        states: Seq<FxChain>,
        dry: (Seq<Single>, Seq<Single>),
        out: (Seq<Single>, Seq<Single>),
        p: Params,
        tempo_bpm: Single,
    ) -> bool {
        &&& states.len() == chunks(dry.0.len()) + 1
        &&& dry.1.len() == dry.0.len()
        &&& out.0.len() == dry.0.len()
        &&& out.1.len() == dry.0.len()
        &&& forall|i: int|
            0 <= i < chunks(dry.0.len()) ==> #[trigger] FxChain::step(
                f,
                states,
                dry,
                out,
                p,
                tempo_bpm,
                i,
            )
    }

    /// Whether a buffer of any length went through, and came out as `out`. What one channel
    /// has beyond the other is left alone.
    #[verifier::opaque]
    pub open spec fn processed<F: Fn(Curve, Single) -> Single>(
        self,
        f: F,
        old: FxChain,
        dry: (Seq<Single>, Seq<Single>),
        out: (Seq<Single>, Seq<Single>),
        p: Params,
        tempo_bpm: Single,
    ) -> bool {
        let n = line::frames(dry) as int;
        &&& line::kept_outside(dry, out, 0, n)
        &&& exists|states: Seq<FxChain>|
            {
                &&& #[trigger] FxChain::ran(
                    f,
                    states,
                    line::span(dry, 0, n),
                    line::span(out, 0, n),
                    p,
                    tempo_bpm,
                )
                &&& states[0].readied(old, p, tempo_bpm)
                &&& states.last() == self
            }
    }

    /// Not for the callback: it allocates every line of the stage.
    pub fn new<F: Fn(Curve, Single) -> Single + Copy>(sample_rate: Single, f: F) -> (c: FxChain)
        requires
            curve::gives_curves(f),
        ensures
            c.wf(),
            c.fresh(f, sample_rate),
    {
        proof {
            reveal(FxChain::fresh);
        }
        FxChain {
            delay: StereoDelay::new(sample_rate, f),
            reverb: PlateReverb::new(sample_rate, f),
            primed: false,
        }
    }

    /// Rebuilds both effects for a new sample rate. The audio already in the lines belongs
    /// to the old rate and would come back out at the wrong pitch, so it goes. Not for the
    /// callback.
    pub fn set_sample_rate<F: Fn(Curve, Single) -> Single + Copy>(&mut self, sample_rate: Single, f: F)
        requires
            curve::gives_curves(f),
        ensures
            final(self).wf(),
            final(self).fresh(f, sample_rate),
    {
        *self = FxChain::new(sample_rate, f);
    }

    /// Readies the stage for a patch.
    fn ready(&mut self, p: &Params, tempo_bpm: Single)
        requires
            old(self).wf(),
        ensures
            final(self).wf(),
            final(self).readied(*old(self), *p, tempo_bpm),
    {
        if !self.primed {
            self.delay.snap(p, tempo_bpm);
            self.reverb.snap(p);
            self.primed = true;
        }
    }

    /// Runs the chain over a stretch of two channels as a chunk.
    fn process_span<F: Fn(Curve, Single) -> Single + Copy>(
        &mut self,
        left: &mut Vec<Single>,
        right: &mut Vec<Single>,
        from: usize,
        count: usize,
        p: &Params,
        tempo_bpm: Single,
        f: F,
    )
        requires
            old(self).wf(),
            from + count <= old(left)@.len(),
            from + count <= old(right)@.len(),
            curve::gives_curves(f),
        ensures
            final(self).wf(),
            line::kept_outside(
                (old(left)@, old(right)@),
                (final(left)@, final(right)@),
                from as int,
                count as int,
            ),
            final(self).passed(
                f,
                *old(self),
                line::span((old(left)@, old(right)@), from as int, count as int),
                line::span((final(left)@, final(right)@), from as int, count as int),
                *p,
                tempo_bpm,
            ),
    {
        proof {
            reveal(FxChain::passed);
        }
        self.delay.process_span(left, right, from, count, p, tempo_bpm);
        let ghost mid = line::span((left@, right@), from as int, count as int);
        self.reverb.process_span(left, right, from, count, p, f);
        assert(self.delay.passed(
            old(self).delay,
            line::span((old(left)@, old(right)@), from as int, count as int),
            mid,
            *p,
            tempo_bpm,
        ));
    }

    /// Runs the chain over a buffer of any length.
    ///
    /// The buffer is split into chunks so that the controls advance at the control rate,
    /// whatever the host hands over. Without this the effects would glide at a speed set
    /// by the audio device's buffer size.
    pub fn process_block<F: Fn(Curve, Single) -> Single + Copy>(
        &mut self,
        left: &mut Vec<Single>,
        right: &mut Vec<Single>,
        p: &Params,
        tempo_bpm: Single,
        f: F,
    )
        requires
            old(self).wf(),
            curve::gives_curves(f),
        ensures
            final(self).wf(),
            final(left)@.len() == old(left)@.len(),
            final(right)@.len() == old(right)@.len(),
            final(self).processed(
                f,
                *old(self),
                (old(left)@, old(right)@),
                (final(left)@, final(right)@),
                *p,
                tempo_bpm,
            ),
    {
        proof {
            reveal(FxChain::processed);
        }
        self.ready(p, tempo_bpm);
        let len: usize = if left.len() < right.len() {
            left.len()
        } else {
            right.len()
        };
        let ghost whole = (left@, right@);
        let ghost dry = line::span(whole, 0, len as int);
        let ghost mut states: Seq<FxChain> = seq![*self];
        let mut done: usize = 0;
        while done < len
            invariant
                self.wf(),
                curve::gives_curves(f),
                whole == (old(left)@, old(right)@),
                len == line::frames(whole),
                dry == line::span(whole, 0, len as int),
                line::kept_outside(whole, (left@, right@), 0, done as int),
                done <= len,
                states.len() >= 1,
                states.last() == *self,
                states[0].readied(*old(self), *p, tempo_bpm),
                done == (if (states.len() - 1) * BLOCK <= len {
                    (states.len() - 1) * BLOCK
                } else {
                    len as int
                }),
                done < len ==> done == (states.len() - 1) * BLOCK,
                states.len() >= 2 ==> (states.len() - 2) * BLOCK < len,
                forall|i: int|
                    0 <= i < states.len() - 1 ==> #[trigger] FxChain::step(
                        f,
                        states,
                        dry,
                        line::span((left@, right@), 0, len as int),
                        *p,
                        tempo_bpm,
                        i,
                    ),
            decreases len - done,
        {
            let count: usize = chunk(len - done);
            let ghost before = (left@, right@);
            self.process_span(left, right, done, count, p, tempo_bpm, f);
            proof {
                lemma_one_chunk_more(
                    f,
                    states,
                    *self,
                    whole,
                    before,
                    (left@, right@),
                    len as int,
                    *p,
                    tempo_bpm,
                );
                let (grown, n) = (states.push(*self), len as int);
                assert forall|i: int| 0 <= i < grown.len() - 1 implies #[trigger] FxChain::step(
                    f,
                    grown,
                    dry,
                    line::span((left@, right@), 0, n),
                    *p,
                    tempo_bpm,
                    i,
                ) by {
                    let out = line::span((left@, right@), 0, n);
                    assert(FxChain::step(f, states.push(*self), dry, out, *p, tempo_bpm, i));
                }
                states = grown;
            }
            done = done + count;
        }
        proof {
            lemma_chunks(states.len() - 1, len as nat);
            let out = line::span((left@, right@), 0, len as int);
            assert(FxChain::ran(f, states, dry, out, *p, tempo_bpm));
        }
    }
}

/// One chunk more of a buffer is one step more: what came out before stays as it is.
proof fn lemma_one_chunk_more<F: Fn(Curve, Single) -> Single>(
    f: F,
    states: Seq<FxChain>,
    next: FxChain,
    whole: (Seq<Single>, Seq<Single>),
    before: (Seq<Single>, Seq<Single>),
    after: (Seq<Single>, Seq<Single>),
    len: int,
    p: Params,
    tempo_bpm: Single,
)
    requires
        states.len() >= 1,
        ({
            let k = states.len() - 1;
            let from = k * BLOCK;
            let count = if from + BLOCK <= len {
                BLOCK as int
            } else {
                len - from
            };
            &&& 0 <= len <= line::frames(whole)
            &&& from < len
            &&& line::kept_outside(whole, before, 0, from)
            &&& line::kept_outside(before, after, from, count)
            &&& next.passed(
                f,
                states.last(),
                line::span(before, from, count),
                line::span(after, from, count),
                p,
                tempo_bpm,
            )
            &&& forall|i: int|
                0 <= i < k ==> #[trigger] FxChain::step(
                    f,
                    states,
                    line::span(whole, 0, len),
                    line::span(before, 0, len),
                    p,
                    tempo_bpm,
                    i,
                )
        }),
    ensures
        forall|i: int|
            0 <= i < states.len() ==> #[trigger] FxChain::step(
                f,
                states.push(next),
                line::span(whole, 0, len),
                line::span(after, 0, len),
                p,
                tempo_bpm,
                i,
            ),
{
    let k = states.len() - 1;
    let from = k * BLOCK;
    let count = if from + BLOCK <= len {
        BLOCK as int
    } else {
        len - from
    };
    let dry = line::span(whole, 0, len);
    let (was, out) = (line::span(before, 0, len), line::span(after, 0, len));
    let more = states.push(next);
    assert forall|i: int| 0 <= i < states.len() implies #[trigger] FxChain::step(
        f,
        more,
        dry,
        out,
        p,
        tempo_bpm,
        i,
    ) by {
        if i == k {
            assert(pieces(dry, k, len).0 =~= line::span(before, from, count).0);
            assert(pieces(dry, k, len).1 =~= line::span(before, from, count).1);
            assert(pieces(out, k, len).0 =~= line::span(after, from, count).0);
            assert(pieces(out, k, len).1 =~= line::span(after, from, count).1);
        } else {
            assert(FxChain::step(f, states, dry, was, p, tempo_bpm, i));
            assert((i + 1) * BLOCK <= k * BLOCK) by (nonlinear_arith)
                requires
                    i < k,
            ;
            assert(pieces(out, i, len).0 =~= pieces(was, i, len).0);
            assert(pieces(out, i, len).1 =~= pieces(was, i, len).1);
        }
    }
}

/// A buffer is gone through after exactly as many chunks as it makes.
pub proof fn lemma_chunks(n: int, len: nat)
    requires
        n * BLOCK >= len,
        n >= 0,
        n >= 1 ==> (n - 1) * BLOCK < len,
    ensures
        chunks(len) == n,
{
}

/// Whether nothing of the effects is wanted or left.
pub open spec fn dry_patch(c: FxChain, p: Params) -> bool {
    c.delay.off(p) && c.reverb.off(p)
}

proof fn lemma_stays_dry<F: Fn(Curve, Single) -> Single>(
    f: F,
    states: Seq<FxChain>,
    dry: (Seq<Single>, Seq<Single>),
    out: (Seq<Single>, Seq<Single>),
    p: Params,
    tempo_bpm: Single,
    n: int,
)
    requires
        FxChain::ran(f, states, dry, out, p, tempo_bpm),
        dry_patch(states[0], p),
        0 <= n < states.len(),
    ensures
        dry_patch(states[n], p),
        n + 1 < states.len() ==> pieces(out, n, dry.0.len() as int) == pieces(
            dry,
            n,
            dry.0.len() as int,
        ),
    decreases n,
{
    reveal(FxChain::passed);
    reveal(StereoDelay::passed);
    reveal(PlateReverb::passed);
    if n > 0 {
        lemma_stays_dry(f, states, dry, out, p, tempo_bpm, n - 1);
        assert(FxChain::step(f, states, dry, out, p, tempo_bpm, n - 1));
    }
    if n + 1 < states.len() {
        assert(FxChain::step(f, states, dry, out, p, tempo_bpm, n));
    }
}

/// A dry patch passes the signal through untouched, to the bit, unless something is still
/// left of an earlier patch.
pub proof fn law_a_dry_patch_leaves_the_signal_alone<F: Fn(Curve, Single) -> Single>(
    f: F,
    before: FxChain,
    after: FxChain,
    dry: (Seq<Single>, Seq<Single>),
    out: (Seq<Single>, Seq<Single>),
    p: Params,
    tempo_bpm: Single,
)
    requires
        after.processed(f, before, dry, out, p, tempo_bpm),
        p.delay_mix.magnitude() == 0,
        p.reverb_mix.magnitude() == 0,
        before.primed ==> dry_patch(before, p),
    ensures
        out == dry,
{
    reveal(FxChain::processed);
    let n = line::frames(dry) as int;
    let (first, heard) = (line::span(dry, 0, n), line::span(out, 0, n));
    let states = choose|states: Seq<FxChain>|
        {
            &&& #[trigger] FxChain::ran(f, states, first, heard, p, tempo_bpm)
            &&& states[0].readied(before, p, tempo_bpm)
            &&& states.last() == after
        };
    assert forall|j: int|
        #![trigger out.0[j]]
        #![trigger out.1[j]]
        0 <= j < n implies out.0[j] == dry.0[j] && out.1[j] == dry.1[j] by {
        let i = j / (BLOCK as int);
        assert(i * BLOCK <= j < (i + 1) * BLOCK);
        lemma_stays_dry(f, states, first, heard, p, tempo_bpm, i);
        let k = j - i * BLOCK;
        assert(pieces(heard, i, n).0[k] == out.0[j]);
        assert(pieces(first, i, n).0[k] == dry.0[j]);
        assert(pieces(heard, i, n).1[k] == out.1[j]);
        assert(pieces(first, i, n).1[k] == dry.1[j]);
    }
    assert(out.0 =~= dry.0);
    assert(out.1 =~= dry.1);
}

proof fn lemma_stays_primed<F: Fn(Curve, Single) -> Single>(
    f: F,
    states: Seq<FxChain>,
    dry: (Seq<Single>, Seq<Single>),
    out: (Seq<Single>, Seq<Single>),
    p: Params,
    tempo_bpm: Single,
    n: int,
)
    requires
        FxChain::ran(f, states, dry, out, p, tempo_bpm),
        0 <= n < states.len(),
    ensures
        states[n].primed == states[0].primed,
    decreases n,
{
    reveal(FxChain::passed);
    if n > 0 {
        lemma_stays_primed(f, states, dry, out, p, tempo_bpm, n - 1);
        assert(FxChain::step(f, states, dry, out, p, tempo_bpm, n - 1));
    }
}

proof fn lemma_early_piece<A>(a: Seq<A>, b: Seq<A>, k: int, i: int)
    requires
        k * BLOCK == a.len(),
        0 <= i < k,
    ensures
        piece(a + b, i, (a + b).len() as int) == piece(a, i, a.len() as int),
{
    assert((i + 1) * BLOCK <= k * BLOCK) by (nonlinear_arith)
        requires
            i < k,
    ;
    assert(piece(a + b, i, (a + b).len() as int) =~= piece(a, i, a.len() as int));
}

proof fn lemma_late_piece<A>(a: Seq<A>, b: Seq<A>, k: int, j: int)
    requires
        k * BLOCK == a.len(),
        0 <= j < chunks(b.len()),
    ensures
        piece(a + b, k + j, (a + b).len() as int) == piece(b, j, b.len() as int),
{
    assert(j * BLOCK < b.len());
    assert(piece(a + b, k + j, (a + b).len() as int) =~= piece(b, j, b.len() as int));
}

/// One step of two buffers joined is a step of one of them.
proof fn lemma_joined_step<F: Fn(Curve, Single) -> Single>(
    f: F,
    first: Seq<FxChain>,
    second: Seq<FxChain>,
    dry: ((Seq<Single>, Seq<Single>), (Seq<Single>, Seq<Single>)),
    out: ((Seq<Single>, Seq<Single>), (Seq<Single>, Seq<Single>)),
    p: Params,
    tempo_bpm: Single,
    i: int,
)
    requires
        FxChain::ran(f, first, dry.0, out.0, p, tempo_bpm),
        FxChain::ran(f, second, dry.1, out.1, p, tempo_bpm),
        first.last() == second[0],
        (first.len() - 1) * BLOCK == dry.0.0.len(),
        0 <= i < first.len() - 1 + chunks(dry.1.0.len()),
    ensures
        FxChain::step(
            f,
            first + second.drop_first(),
            (dry.0.0 + dry.1.0, dry.0.1 + dry.1.1),
            (out.0.0 + out.1.0, out.0.1 + out.1.1),
            p,
            tempo_bpm,
            i,
        ),
{
    let k = first.len() - 1;
    let states = first + second.drop_first();
    if i < k {
        lemma_early_piece(dry.0.0, dry.1.0, k, i);
        lemma_early_piece(dry.0.1, dry.1.1, k, i);
        lemma_early_piece(out.0.0, out.1.0, k, i);
        lemma_early_piece(out.0.1, out.1.1, k, i);
        assert(FxChain::step(f, first, dry.0, out.0, p, tempo_bpm, i));
        assert(states[i] == first[i]);
        assert(states[i + 1] == first[i + 1]);
    } else {
        let j = i - k;
        lemma_late_piece(dry.0.0, dry.1.0, k, j);
        lemma_late_piece(dry.0.1, dry.1.1, k, j);
        lemma_late_piece(out.0.0, out.1.0, k, j);
        lemma_late_piece(out.0.1, out.1.1, k, j);
        assert(FxChain::step(f, second, dry.1, out.1, p, tempo_bpm, j));
        assert(states[i] == second[j]);
        assert(states[i + 1] == second[j + 1]);
    }
}

/// The stage advances by the block and not by the call: two buffers one after the other
/// are one buffer, where the first ends with a block.
pub proof fn law_a_buffer_may_be_split_at_a_block<F: Fn(Curve, Single) -> Single>(
    f: F,
    chain: (FxChain, FxChain, FxChain),
    dry: ((Seq<Single>, Seq<Single>), (Seq<Single>, Seq<Single>)),
    out: ((Seq<Single>, Seq<Single>), (Seq<Single>, Seq<Single>)),
    p: Params,
    tempo_bpm: Single,
)
    requires
        chain.1.processed(f, chain.0, dry.0, out.0, p, tempo_bpm),
        chain.2.processed(f, chain.1, dry.1, out.1, p, tempo_bpm),
        dry.0.0.len() == dry.0.1.len(),
        dry.0.0.len() % (BLOCK as nat) == 0,
    ensures
        chain.2.processed(
            f,
            chain.0,
            (dry.0.0 + dry.1.0, dry.0.1 + dry.1.1),
            (out.0.0 + out.1.0, out.0.1 + out.1.1),
            p,
            tempo_bpm,
        ),
{
    reveal(FxChain::processed);
    let (a, b) = (dry.0.0.len() as int, line::frames(dry.1) as int);
    let (d0, o0) = (line::span(dry.0, 0, a), line::span(out.0, 0, a));
    let (d1, o1) = (line::span(dry.1, 0, b), line::span(out.1, 0, b));
    let first = choose|states: Seq<FxChain>|
        {
            &&& #[trigger] FxChain::ran(f, states, d0, o0, p, tempo_bpm)
            &&& states[0].readied(chain.0, p, tempo_bpm)
            &&& states.last() == chain.1
        };
    let second = choose|states: Seq<FxChain>|
        {
            &&& #[trigger] FxChain::ran(f, states, d1, o1, p, tempo_bpm)
            &&& states[0].readied(chain.1, p, tempo_bpm)
            &&& states.last() == chain.2
        };
    lemma_stays_primed(f, first, d0, o0, p, tempo_bpm, first.len() - 1);
    assert(second[0] == chain.1);
    let whole = (dry.0.0 + dry.1.0, dry.0.1 + dry.1.1);
    let heard = (out.0.0 + out.1.0, out.0.1 + out.1.1);
    assert(line::frames(whole) == a + b);
    let (begun, ended) = (line::span(whole, 0, a + b), line::span(heard, 0, a + b));
    assert(begun.0 =~= d0.0 + d1.0 && begun.1 =~= d0.1 + d1.1);
    assert(ended.0 =~= o0.0 + o1.0 && ended.1 =~= o0.1 + o1.1);
    let states = first + second.drop_first();
    assert forall|i: int| 0 <= i < chunks(begun.0.len()) implies #[trigger] FxChain::step(
        f,
        states,
        begun,
        ended,
        p,
        tempo_bpm,
        i,
    ) by {
        lemma_joined_step(f, first, second, (d0, d1), (o0, o1), p, tempo_bpm, i);
    }
    assert(FxChain::ran(f, states, begun, ended, p, tempo_bpm));
    assert(states[0] == first[0]);
    assert(states.last() == second.last());
    assert(line::kept_outside(whole, heard, 0, a + b));
}

} // verus!
