//! Layout side of WAV playback into a standalone host's input bus.
//!
//! A decoded (and, where needed, resampled) interleaved file is
//! adapted once to the device's channel count, then consumed
//! one-shot: each audio block takes the next window of frames, and
//! the cursor saturates at the end of the file so later blocks
//! contribute nothing. The samples themselves are carried as an
//! opaque `Copy` type; summing them into the device buffers is the
//! caller's arithmetic.

use vstd::prelude::*;

verus! {

/// Why a decoded file cannot be played.
#[derive(Debug, PartialEq, Eq, Structural, Clone, Copy)]
pub enum PlaybackError {
    /// The file declares zero channels.
    ZeroChannels,
    /// The file holds no complete frame.
    Empty,
}

/// Number of complete frames in `sample_count` interleaved samples of
/// `src_channels` channels, or the reason there are none.
pub fn check_decoded(sample_count: usize, src_channels: usize) -> (r: Result<usize, PlaybackError>)
    ensures
        src_channels == 0 ==> r == Err::<usize, PlaybackError>(PlaybackError::ZeroChannels),
        src_channels > 0 && sample_count / src_channels == 0 ==> r == Err::<usize, PlaybackError>(PlaybackError::Empty),
        src_channels > 0 && sample_count / src_channels > 0 ==> r == Ok::<usize, PlaybackError>(sample_count / src_channels),
{
    if src_channels == 0 {
        return Err(PlaybackError::ZeroChannels);
    }
    let src_frames = sample_count / src_channels;
    if src_frames == 0 {
        return Err(PlaybackError::Empty);
    }
    Ok(src_frames)
}

/// The interleaved samples `src` (of `src_channels` channels) laid out
/// for `target_channels` channels:
/// - same count: unchanged;
/// - mono source: every sample broadcast to every channel;
/// - otherwise, frame by frame: the first `min(src, target)` channels
///   copied, any further target channels filled with `zero`, any
///   further source channels dropped (a trailing partial frame is
///   dropped too).
pub open spec fn adapted<T>(src: Seq<T>, src_channels: nat, target_channels: nat, zero: T) -> Seq<T> {
    if src_channels == target_channels {
        src
    } else if src_channels == 1 {
        Seq::new(src.len() * target_channels, |i: int| src[i / target_channels as int])
    } else {
        Seq::new(
            (src.len() / src_channels) * target_channels,
            |i: int|
                if (i % (target_channels as int)) < src_channels {
                    src[(i / target_channels as int) * src_channels + i % target_channels as int]
                } else {
                    zero
                },
        )
    }
}

/// What the channel adaptation does to each output sample `i` (frame
/// `i / target`, channel `i % target`):
/// - equal counts: the file is unchanged;
/// - mono source: output sample `i` is the source sample of frame
///   `i / target`, on every channel;
/// - otherwise: output channel `ch` of frame `f` is source channel
///   `ch` of frame `f` whenever the source has that channel, and the
///   zero filler only on target channels at or above the source's
///   channel count; so with more source than target channels no output
///   sample is filler.
pub proof fn adapted_maps_frames_and_channels<T>(src: Seq<T>, sc: nat, tc: nat, zero: T)
    requires
        sc > 0,
        tc > 0,
    ensures
        sc == tc ==> adapted(src, sc, tc, zero) == src,
        sc == 1 && tc != 1 ==> {
            &&& adapted(src, sc, tc, zero).len() == src.len() * tc
            &&& forall|i: int|
                0 <= i < src.len() * tc ==> #[trigger] adapted(src, sc, tc, zero)[i] == src[i / tc as int]
        },
        sc > 1 && sc != tc ==> {
            &&& adapted(src, sc, tc, zero).len() == (src.len() / sc) * tc
            &&& forall|i: int|
                0 <= i < (src.len() / sc) * tc && i % (tc as int) < sc ==> #[trigger] adapted(src, sc, tc, zero)[i]
                    == src[(i / tc as int) * sc + i % (tc as int)]
            &&& forall|i: int|
                0 <= i < (src.len() / sc) * tc && i % (tc as int) >= sc ==> #[trigger] adapted(src, sc, tc, zero)[i] == zero
        },
        sc > tc ==> forall|i: int|
            0 <= i < adapted(src, sc, tc, zero).len() ==> #[trigger] adapted(src, sc, tc, zero)[i]
                == src[(i / tc as int) * sc + i % (tc as int)],
{
    if sc > tc {
        assert forall|i: int| 0 <= i < adapted(src, sc, tc, zero).len() implies #[trigger] adapted(src, sc, tc, zero)[i]
            == src[(i / tc as int) * sc + i % (tc as int)] by {
            assert(i % (tc as int) < tc);
        }
    }
}

/// Lay out interleaved samples of `src_channels` channels for
/// `target_channels` channels (see [`adapted`]).
pub fn adapt_channels<T: Copy>(
    resampled: Vec<T>,
    src_channels: usize,
    target_channels: usize,
    zero: T,
) -> (out: Vec<T>)
    requires
        src_channels > 0,
        target_channels > 0,
        resampled@.len() * target_channels <= usize::MAX,
    ensures
        out@ == adapted(resampled@, src_channels as nat, target_channels as nat, zero),
        src_channels == target_channels ==> out@ == resampled@,
        src_channels > target_channels ==> {
            &&& out@.len() == (resampled@.len() / src_channels as nat) * target_channels
            &&& forall|i: int|
                0 <= i < out@.len() ==> #[trigger] out@[i]
                    == resampled@[(i / target_channels as int) * src_channels + i % (target_channels as int)]
        },
{
    if src_channels == target_channels {
        return resampled;
    }
    let tc = target_channels;
    if src_channels == 1 {
        let mut out: Vec<T> = Vec::new();
        let mut k: usize = 0;
        while k < resampled.len()
            invariant
                k <= resampled@.len(),
                tc == target_channels,
                tc > 0,
                resampled@.len() * tc <= usize::MAX,
                out@.len() == k * tc,
                forall|i: int| 0 <= i < out@.len() ==> out@[i] == resampled@[i / tc as int],
            decreases resampled@.len() - k,
        {
            let s = resampled[k];
            let mut c: usize = 0;
            while c < tc
                invariant
                    c <= tc,
                    k < resampled@.len(),
                    s == resampled@[k as int],
                    out@.len() == k * tc + c,
                    forall|i: int| 0 <= i < out@.len() ==> out@[i] == resampled@[i / tc as int],
                decreases tc - c,
            {
                proof {
                    let i = k * tc + c;
                    vstd::arithmetic::div_mod::lemma_fundamental_div_mod_converse(i as int, tc as int, k as int, c as int);
                }
                out.push(s);
                c += 1;
            }
            proof {
                assert((k + 1) * tc == k * tc + tc) by (nonlinear_arith);
                assert((k + 1) * tc <= resampled@.len() * tc) by (nonlinear_arith)
                    requires
                        k + 1 <= resampled@.len(),
                ;
            }
            k += 1;
        }
        assert(out@ =~= adapted(resampled@, src_channels as nat, target_channels as nat, zero));
        return out;
    }
    let sc = src_channels;
    let frames = resampled.len() / sc;
    let copy = if sc < tc { sc } else { tc };
    proof {
        vstd::arithmetic::div_mod::lemma_fundamental_div_mod(resampled@.len() as int, sc as int);
        assert(frames * sc <= resampled@.len()) by (nonlinear_arith)
            requires
                resampled@.len() as int == sc * frames + (resampled@.len() as int) % (sc as int),
                (resampled@.len() as int) % (sc as int) >= 0,
        ;
        assert(frames * tc <= resampled@.len() * tc) by (nonlinear_arith)
            requires
                frames <= resampled@.len(),
        ;
    }
    let mut out: Vec<T> = Vec::new();
    let mut f: usize = 0;
    while f < frames
        invariant
            f <= frames,
            frames == resampled@.len() / (sc as nat),
            frames * sc <= resampled@.len(),
            frames * tc <= usize::MAX,
            sc > 1,
            tc > 0,
            copy == if sc < tc { sc } else { tc },
            out@.len() == f * tc,
            forall|i: int|
                0 <= i < out@.len() ==> out@[i] == (if (i % (tc as int)) < sc {
                    resampled@[(i / tc as int) * sc + i % tc as int]
                } else {
                    zero
                }),
        decreases frames - f,
    {
        let mut ch: usize = 0;
        proof {
            assert((f + 1) * sc <= frames * sc) by (nonlinear_arith)
                requires
                    f + 1 <= frames,
            ;
            assert((f + 1) * sc == f * sc + sc) by (nonlinear_arith);
            assert((f + 1) * tc <= frames * tc) by (nonlinear_arith)
                requires
                    f + 1 <= frames,
            ;
            assert((f + 1) * tc == f * tc + tc) by (nonlinear_arith);
        }
        while ch < tc
            invariant
                ch <= tc,
                f < frames,
                f * sc + sc <= resampled.len(),
                f * tc + tc <= usize::MAX,
                sc > 1,
                tc > 0,
                copy == if sc < tc { sc } else { tc },
                out@.len() == f * tc + ch,
                forall|i: int|
                    0 <= i < out@.len() ==> out@[i] == (if (i % (tc as int)) < sc {
                        resampled@[(i / tc as int) * sc + i % tc as int]
                    } else {
                        zero
                    }),
            decreases tc - ch,
        {
            proof {
                let i = f * tc + ch;
                vstd::arithmetic::div_mod::lemma_fundamental_div_mod_converse(i as int, tc as int, f as int, ch as int);
            }
            if ch < copy {
                out.push(resampled[f * sc + ch]);
            } else {
                out.push(zero);
            }
            ch += 1;
        }
        f += 1;
    }
    assert(out@ =~= adapted(resampled@, src_channels as nat, target_channels as nat, zero));
    out
}


/// The frames one audio block takes from a [`PlaybackSource`]: frames
/// `start .. start + take` of the file, channels `0 .. channels` of it
/// (sample `(frame, ch)` goes to device channel `ch`).
#[derive(Debug, PartialEq, Eq, Structural, Clone, Copy)]
pub struct MixWindow {
    pub start: usize,
    pub take: usize,
    pub channels: usize,
}

/// A decoded file laid out at the device's channel count, with a
/// one-shot cursor.
pub struct PlaybackSource<T> {
    /// Interleaved samples, `channels` per frame.
    samples: Vec<T>,
    channels: usize,
    total_frames: usize,
    /// Frames consumed so far; saturates at `total_frames`.
    cursor: usize,
}

impl<T> PlaybackSource<T> {
    #[verifier::type_invariant]
    spec fn well_formed(self) -> bool {
        &&& self.channels > 0
        &&& self.total_frames == self.samples@.len() / (self.channels as nat)
        &&& self.cursor <= self.total_frames
    }

    /// The interleaved samples.
    pub closed spec fn samples_view(self) -> Seq<T> {
        self.samples@
    }

    /// Channels per frame.
    pub closed spec fn channel_count(self) -> nat {
        self.channels as nat
    }

    /// Complete frames held.
    pub closed spec fn frame_count(self) -> nat {
        self.total_frames as nat
    }

    /// Frames consumed so far.
    pub closed spec fn consumed(self) -> nat {
        self.cursor as nat
    }
}

impl<T: Copy> PlaybackSource<T> {
    /// Adapt a decoded file of `src_channels` channels to
    /// `target_channels` channels (see [`adapted`]) and start at its
    /// first frame.
    pub fn from_decoded(resampled: Vec<T>, src_channels: usize, target_channels: usize, zero: T) -> (src: Self)
        requires
            src_channels > 0,
            target_channels > 0,
            resampled@.len() * target_channels <= usize::MAX,
        ensures
            src.samples_view() == adapted(resampled@, src_channels as nat, target_channels as nat, zero),
            src.channel_count() == target_channels,
            src.frame_count() == src.samples_view().len() / (target_channels as nat),
            src.consumed() == 0,
    {
        let samples = adapt_channels(resampled, src_channels, target_channels, zero);
        let total_frames = samples.len() / target_channels;
        PlaybackSource { samples, channels: target_channels, total_frames, cursor: 0 }
    }

    /// Channels per frame.
    pub fn channels(&self) -> (n: usize)
        ensures
            n == self.channel_count(),
            n > 0,
    {
        proof {
            use_type_invariant(self);
        }
        self.channels
    }

    /// Complete frames held.
    pub fn total_frames(&self) -> (n: usize)
        ensures
            n == self.frame_count(),
            n == self.samples_view().len() / self.channel_count(),
    {
        proof {
            use_type_invariant(self);
        }
        self.total_frames
    }

    /// Frames consumed so far.
    pub fn cursor(&self) -> (n: usize)
        ensures
            n == self.consumed(),
            n <= self.frame_count(),
    {
        proof {
            use_type_invariant(self);
        }
        self.cursor
    }

    /// Sample of channel `channel` in frame `frame`.
    pub fn sample(&self, frame: usize, channel: usize) -> (x: T)
        requires
            frame < self.frame_count(),
            channel < self.channel_count(),
        ensures
            x == self.samples_view()[frame * self.channel_count() + channel],
    {
        proof {
            use_type_invariant(self);
            let c = self.channels as int;
            let n = self.samples.len() as int;
            vstd::arithmetic::div_mod::lemma_fundamental_div_mod(n, c);
            assert(frame * c + channel < n) by (nonlinear_arith)
                requires
                    frame < n / c,
                    channel < c,
                    n == c * (n / c) + n % c,
                    n % c >= 0,
            ;
        }
        self.samples[frame * self.channels + channel]
    }

    /// Take the window of frames that a block of `frames` frames,
    /// summed into `n_bufs` device channel buffers, consumes, and move
    /// the cursor past it. Once the end of the file is reached every
    /// later window is empty.
    pub fn advance(&mut self, n_bufs: usize, frames: usize) -> (w: MixWindow)
        ensures
            w.start == old(self).consumed(),
            w.take == (if old(self).consumed() + frames <= old(self).frame_count() {
                frames as nat
            } else {
                (old(self).frame_count() - old(self).consumed()) as nat
            }),
            w.channels == (if old(self).channel_count() <= n_bufs {
                old(self).channel_count()
            } else {
                n_bufs as nat
            }),
            final(self).consumed() == w.start + w.take,
            final(self).consumed() <= final(self).frame_count(),
            final(self).samples_view() == old(self).samples_view(),
            final(self).channel_count() == old(self).channel_count(),
            final(self).frame_count() == old(self).frame_count(),
    {
        proof {
            use_type_invariant(&*self);
        }
        let start = self.cursor;
        let chans = if self.channels < n_bufs { self.channels } else { n_bufs };
        if start >= self.total_frames {
            return MixWindow { start, take: 0, channels: chans };
        }
        let left = self.total_frames - start;
        let take = if frames < left { frames } else { left };
        self.cursor = start + take;
        MixWindow { start, take, channels: chans }
    }
}

} // verus!
