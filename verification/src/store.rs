//! The windowed sample store: per channel, an append-only series of
//! (elapsed time, level) samples together with a visible window, the
//! suffix of the series covering the most recent `window` milliseconds.
//! A periodic tick appends the latest register level and recomputes the
//! window; the window is selected by timestamp, so it stays correct when
//! the tick period varies.
//!
//! Time is elapsed milliseconds since one shared start instant, so every
//! channel shares a common time axis.

use vstd::prelude::*;
use crate::frame::N_CHANNELS;
use crate::register::LatestState;

verus! {

/// One observation of one channel: its level at a given elapsed time.
#[derive(PartialEq, Eq, Structural, Clone, Copy, Debug)]
pub struct Sample {
    /// Elapsed milliseconds since the shared start instant.
    pub time_ms: u64,
    /// The channel level at that instant.
    pub high: bool,
}

/// Timestamps never decrease along a sample series.
pub open spec fn sorted(s: Seq<Sample>) -> bool {
    forall|i: int, j: int| 0 <= i <= j < s.len() ==> s[i].time_ms <= s[j].time_ms
}

/// The oldest timestamp still inside a window of `window` milliseconds
/// ending at `now`; clamped at the start of time.
pub open spec fn cutoff(now: u64, window: u64) -> int {
    if now >= window {
        now - window
    } else {
        0
    }
}

/// Where the visible window begins: the index of the first sample at or
/// after the cutoff, scanning from the front.
pub open spec fn window_start(s: Seq<Sample>, cut: int) -> int
    decreases s.len(),
{
    if s.len() == 0 {
        0
    } else if s[0].time_ms >= cut {
        0
    } else {
        1 + window_start(s.skip(1), cut)
    }
}

/// The visible window itself: the suffix of the series from
/// [`window_start`] to the end.
pub open spec fn visible_of(s: Seq<Sample>, cut: int) -> Seq<Sample> {
    s.subrange(window_start(s, cut), s.len() as int)
}

/// [`window_start`] is a well-placed index: everything before it is older
/// than the cutoff, and the sample there (if any) is not.
pub proof fn lemma_window_start_bounds(s: Seq<Sample>, cut: int)
    ensures
        0 <= window_start(s, cut) <= s.len(),
        forall|j: int| 0 <= j < window_start(s, cut) ==> s[j].time_ms < cut,
        window_start(s, cut) < s.len() ==> s[window_start(s, cut)].time_ms >= cut,
    decreases s.len(),
{
    if s.len() == 0 {
    } else if s[0].time_ms >= cut {
    } else {
        lemma_window_start_bounds(s.skip(1), cut);
        assert forall|j: int| 0 <= j < window_start(s, cut) implies s[j].time_ms < cut by {
            if j > 0 {
                assert(s.skip(1)[j - 1] == s[j]);
            }
        }
        if window_start(s, cut) < s.len() {
            assert(s.skip(1)[window_start(s, cut) - 1] == s[window_start(s, cut)]);
        }
    }
}

/// Any index with everything older before it and nothing older at it is
/// [`window_start`]: the start of the window is unique.
pub proof fn lemma_window_start_unique(s: Seq<Sample>, cut: int, i: int)
    requires
        0 <= i <= s.len(),
        forall|j: int| 0 <= j < i ==> s[j].time_ms < cut,
        i < s.len() ==> s[i].time_ms >= cut,
    ensures
        window_start(s, cut) == i,
    decreases s.len(),
{
    if i == 0 {
    } else {
        assert(s[0].time_ms < cut);
        assert forall|j: int| 0 <= j < i - 1 implies s.skip(1)[j].time_ms < cut by {
            assert(s.skip(1)[j] == s[j + 1]);
        }
        if i - 1 < s.skip(1).len() {
            assert(s.skip(1)[i - 1] == s[i]);
        }
        lemma_window_start_unique(s.skip(1), cut, i - 1);
    }
}

/// One channel's history and its published visible window. The series
/// grows without bound for the life of the process; the window is rebuilt
/// on each tick from the series and the window size current at that tick.
pub struct ChannelStore {
    samples: Vec<Sample>,
    visible: Vec<Sample>,
}

impl ChannelStore {
    /// The whole sample series, oldest first.
    pub closed spec fn samples(&self) -> Seq<Sample> {
        self.samples@
    }

    /// The published visible window.
    pub closed spec fn visible(&self) -> Seq<Sample> {
        self.visible@
    }

    /// Timestamps never decrease along the series.
    pub open spec fn wf(&self) -> bool {
        sorted(self.samples())
    }

    /// A fresh channel: no history, and an empty visible window rather
    /// than an error before the first tick.
    pub fn new() -> (r: ChannelStore)
        ensures
            r.wf(),
            r.samples() == Seq::<Sample>::empty(),
            r.visible() == Seq::<Sample>::empty(),
    {
        let r = ChannelStore { samples: Vec::new(), visible: Vec::new() };
        proof {
            assert(r.samples() =~= Seq::<Sample>::empty());
            assert(r.visible() =~= Seq::<Sample>::empty());
        }
        r
    }

    /// One tick: appends the level read from the register at elapsed time
    /// `now_ms`, then recomputes the visible window against the window
    /// size current at this tick — so a shrunken window size takes effect
    /// at once, and a window larger than the history simply keeps it all.
    pub fn tick(&mut self, now_ms: u64, high: bool, window_ms: u64)
        requires
            old(self).wf(),
            old(self).samples().len() > 0 ==> old(self).samples().last().time_ms <= now_ms,
        ensures
            final(self).wf(),
            final(self).samples() == old(self).samples().push(
                Sample { time_ms: now_ms, high },
            ),
            final(self).visible() == visible_of(
                final(self).samples(),
                cutoff(now_ms, window_ms),
            ),
    {
        self.samples.push(Sample { time_ms: now_ms, high });
        let cut: u64 = if now_ms >= window_ms {
            now_ms - window_ms
        } else {
            0
        };
        let ghost cseq = self.samples@;
        let n: usize = self.samples.len();
        let mut start: usize = 0;
        while start < n && self.samples[start].time_ms < cut
            invariant
                self.samples@ == cseq,
                n == cseq.len(),
                start <= n,
                forall|j: int| 0 <= j < start ==> cseq[j].time_ms < cut,
            decreases n - start,
        {
            start += 1;
        }
        proof {
            lemma_window_start_unique(cseq, cut as int, start as int);
        }
        let mut visible: Vec<Sample> = Vec::new();
        let mut j: usize = start;
        while j < n
            invariant
                self.samples@ == cseq,
                n == cseq.len(),
                start <= j <= n,
                visible@ == cseq.subrange(start as int, j as int),
            decreases n - j,
        {
            let s = self.samples[j];
            visible.push(s);
            proof {
                assert(visible@ =~= cseq.subrange(start as int, j + 1));
            }
            j += 1;
        }
        self.visible = visible;
        proof {
            assert(final(self).samples() =~= old(self).samples().push(
                Sample { time_ms: now_ms, high },
            ));
            assert(cutoff(now_ms, window_ms) == cut as int);
        }
    }

    /// Snapshot of the visible window for a rendering consumer.
    pub fn visible_samples(&self) -> (r: Vec<Sample>)
        ensures
            r@ == self.visible(),
    {
        let mut r: Vec<Sample> = Vec::new();
        let mut i: usize = 0;
        let n: usize = self.visible.len();
        while i < n
            invariant
                n == self.visible().len(),
                i <= n,
                r@ == self.visible().subrange(0, i as int),
            decreases n - i,
        {
            let s = self.visible[i];
            r.push(s);
            proof {
                assert(r@ =~= self.visible().subrange(0, i + 1));
            }
            i += 1;
        }
        proof {
            assert(r@ =~= self.visible());
        }
        r
    }

    /// How many samples the whole series holds.
    pub fn sample_count(&self) -> (n: usize)
        ensures
            n == self.samples().len(),
    {
        self.samples.len()
    }

    /// How many samples the visible window holds.
    pub fn visible_count(&self) -> (n: usize)
        ensures
            n == self.visible().len(),
    {
        self.visible.len()
    }
}

/// Window bounds: under a nondecreasing series, every sample of the
/// visible window is at or after the cutoff — the oldest visible
/// timestamp is at least `now - window` — and if the newest sample is
/// inside the window, the window is nonempty and ends exactly with it.
pub proof fn lemma_window_bounds(s: Seq<Sample>, cut: int)
    requires
        sorted(s),
    ensures
        forall|j: int|
            0 <= j < visible_of(s, cut).len() ==> visible_of(s, cut)[j].time_ms >= cut,
        s.len() > 0 && s.last().time_ms >= cut ==> visible_of(s, cut).len() > 0 && visible_of(
            s,
            cut,
        ).last() == s.last(),
{
    lemma_window_start_bounds(s, cut);
    let start = window_start(s, cut);
    assert forall|j: int| 0 <= j < visible_of(s, cut).len() implies visible_of(s, cut)[j].time_ms
        >= cut by {
        assert(visible_of(s, cut)[j] == s[start + j]);
        if start < s.len() {
            assert(s[start].time_ms <= s[start + j].time_ms);
        }
    }
    if s.len() > 0 && s.last().time_ms >= cut {
        assert(start < s.len());
        assert(visible_of(s, cut).last() == s[s.len() - 1]);
    }
}

/// Resize reactivity: a later cutoff — a smaller window at the same
/// instant — starts the visible window no earlier and never makes it
/// longer; the smaller window is exactly a suffix of the larger one, so
/// no stale tail survives a shrink. Since every tick recomputes the
/// window from the size current at that tick, shrinking the size
/// shrinks the very next window.
pub proof fn lemma_window_shrink(s: Seq<Sample>, cut1: int, cut2: int)
    requires
        cut1 <= cut2,
    ensures
        window_start(s, cut1) <= window_start(s, cut2),
        visible_of(s, cut2).len() <= visible_of(s, cut1).len(),
        visible_of(s, cut2) == visible_of(s, cut1).skip(
            window_start(s, cut2) - window_start(s, cut1),
        ),
    decreases s.len(),
{
    lemma_window_start_bounds(s, cut1);
    lemma_window_start_bounds(s, cut2);
    if s.len() == 0 {
    } else if s[0].time_ms >= cut2 {
        assert(s[0].time_ms >= cut1);
    } else if s[0].time_ms >= cut1 {
    } else {
        lemma_window_shrink(s.skip(1), cut1, cut2);
    }
    assert(visible_of(s, cut2) =~= visible_of(s, cut1).skip(
        window_start(s, cut2) - window_start(s, cut1),
    ));
}

/// All channels together: one store per channel, ticked in lockstep so
/// that every channel shares the same time axis.
pub struct WindowedStore {
    channels: Vec<ChannelStore>,
}

impl WindowedStore {
    /// The per-channel stores.
    pub closed spec fn channels(&self) -> Seq<ChannelStore> {
        self.channels@
    }

    /// One well-formed store per channel.
    pub open spec fn wf(&self) -> bool {
        &&& self.channels().len() == N_CHANNELS
        &&& forall|i: int| 0 <= i < N_CHANNELS ==> (#[trigger] self.channels()[i]).wf()
    }

    /// Every series is ready to take a sample stamped `now_ms`.
    pub open spec fn ready_at(&self, now_ms: u64) -> bool {
        forall|i: int|
            0 <= i < N_CHANNELS ==> ((#[trigger] self.channels()[i]).samples().len() > 0
                ==> self.channels()[i].samples().last().time_ms <= now_ms)
    }

    /// A fresh store: one empty channel series per channel.
    pub fn new() -> (r: WindowedStore)
        ensures
            r.wf(),
            forall|i: int|
                0 <= i < N_CHANNELS ==> (#[trigger] r.channels()[i]).samples()
                    == Seq::<Sample>::empty() && r.channels()[i].visible()
                    == Seq::<Sample>::empty(),
    {
        let mut channels: Vec<ChannelStore> = Vec::new();
        let mut i: usize = 0;
        while i < N_CHANNELS
            invariant
                i <= N_CHANNELS,
                channels@.len() == i,
                forall|j: int|
                    0 <= j < i ==> (#[trigger] channels@[j]).wf() && channels@[j].samples()
                        == Seq::<Sample>::empty() && channels@[j].visible()
                        == Seq::<Sample>::empty(),
            decreases N_CHANNELS - i,
        {
            channels.push(ChannelStore::new());
            i += 1;
        }
        WindowedStore { channels }
    }

    /// One tick over all channels: reads the register level of each
    /// channel at the shared instant `now_ms`, appends it to that
    /// channel's series, and recomputes every visible window against the
    /// same window size.
    pub fn tick(&mut self, now_ms: u64, reg: &LatestState, window_ms: u64)
        requires
            old(self).wf(),
            old(self).ready_at(now_ms),
            reg.wf(),
        ensures
            final(self).wf(),
            forall|i: int|
                0 <= i < N_CHANNELS ==> (#[trigger] final(self).channels()[i]).samples()
                    == old(self).channels()[i].samples().push(
                    Sample { time_ms: now_ms, high: reg@[i] },
                ),
            forall|i: int|
                0 <= i < N_CHANNELS ==> (#[trigger] final(self).channels()[i]).visible()
                    == visible_of(
                    final(self).channels()[i].samples(),
                    cutoff(now_ms, window_ms),
                ),
            final(self).ready_at(now_ms),
    {
        let mut i: usize = 0;
        while i < N_CHANNELS
            invariant
                old(self).wf(),
                old(self).ready_at(now_ms),
                reg.wf(),
                i <= N_CHANNELS,
                self.channels().len() == N_CHANNELS,
                forall|j: int|
                    i <= j < N_CHANNELS ==> self.channels()[j] == old(self).channels()[j],
                forall|j: int| 0 <= j < i ==> (#[trigger] self.channels()[j]).wf(),
                forall|j: int|
                    0 <= j < i ==> (#[trigger] self.channels()[j]).samples() == old(
                        self,
                    ).channels()[j].samples().push(Sample { time_ms: now_ms, high: reg@[j] }),
                forall|j: int|
                    0 <= j < i ==> (#[trigger] self.channels()[j]).visible() == visible_of(
                        self.channels()[j].samples(),
                        cutoff(now_ms, window_ms),
                    ),
            decreases N_CHANNELS - i,
        {
            let high = reg.get(i);
            let ch = &mut self.channels[i];
            ch.tick(now_ms, high, window_ms);
            i += 1;
        }
        proof {
            let fin = *final(self);
            assert forall|j: int|
                0 <= j < N_CHANNELS implies (#[trigger] fin.channels()[j]).samples().last().time_ms
                <= now_ms by {
                assert(fin.channels()[j].samples().last() == (Sample {
                    time_ms: now_ms,
                    high: reg@[j],
                }));
            }
        }
    }

    /// Borrow one channel's store, for snapshots.
    pub fn channel(&self, i: usize) -> (r: &ChannelStore)
        requires
            self.wf(),
            i < N_CHANNELS,
        ensures
            r == self.channels()[i as int],
    {
        &self.channels[i]
    }
}

} // verus!
