//! Time ranges of a scan and their decomposition into bounded chunks.
//!
//! Times are Unix timestamps in milliseconds. A [`ScanRange`] is the half-open
//! interval `[start, end)`. A scan walks it from the newest chunk to the
//! oldest, each chunk spanning at most [`MAX_SCAN_PERIOD`], and reports after
//! each chunk the whole percent of the range that is behind it.

use vstd::arithmetic::div_mod::{lemma_div_is_ordered, lemma_div_multiples_vanish, lemma_fundamental_div_mod};
use vstd::prelude::*;

verus! {

/// Longest span of one chunk: thirty days, in milliseconds.
pub const MAX_SCAN_PERIOD: i64 = 2_592_000_000;

/// A half-open interval of time `[start, end)`.
#[derive(Clone, Copy, Debug, PartialEq, Eq, Structural)]
pub struct ScanRange {
    pub start: i64,
    pub end: i64,
}

impl ScanRange {
    /// Number of milliseconds in the range; zero when `end <= start`.
    pub open spec fn span(self) -> int {
        if self.end > self.start {
            self.end - self.start
        } else {
            0
        }
    }

    /// Whether the instant `t` lies in `[start, end)`.
    pub open spec fn contains(self, t: int) -> bool {
        self.start <= t < self.end
    }

    /// Number of chunks the range decomposes into: `span / MAX_SCAN_PERIOD`, rounded up.
    pub open spec fn chunk_count(self) -> int {
        (self.span() + MAX_SCAN_PERIOD - 1) / (MAX_SCAN_PERIOD as int)
    }

    /// End of chunk `k`, counted from the newest chunk.
    pub open spec fn chunk_end(self, k: int) -> int {
        self.end - k * MAX_SCAN_PERIOD
    }

    /// Start of chunk `k`: one period before its end, but never before `start`.
    pub open spec fn chunk_start(self, k: int) -> int {
        if self.end - (k + 1) * MAX_SCAN_PERIOD > self.start {
            self.end - (k + 1) * MAX_SCAN_PERIOD
        } else {
            self.start as int
        }
    }

    /// Whole percent of the range that is covered once chunk `k` is done.
    pub open spec fn chunk_percent(self, k: int) -> int {
        100 * (self.end - self.chunk_start(k)) / self.span()
    }

    /// Chunk `k` with its cumulative percent.
    pub open spec fn chunk(self, k: int) -> (ScanRange, u8) {
        (
            ScanRange { start: self.chunk_start(k) as i64, end: self.chunk_end(k) as i64 },
            self.chunk_percent(k) as u8,
        )
    }

    /// All chunks of the range, newest first.
    pub open spec fn chunks(self) -> Seq<(ScanRange, u8)> {
        Seq::new(self.chunk_count() as nat, |k: int| self.chunk(k))
    }

    /// The range `[start, end)`.
    pub fn new(start: i64, end: i64) -> (r: ScanRange)
        ensures
            r == (ScanRange { start, end }),
    {
        ScanRange { start, end }
    }

    /// Whether `end` is not before `start`.
    pub fn is_ordered(&self) -> (b: bool)
        ensures
            b == (self.start <= self.end),
    {
        self.start <= self.end
    }

    /// Number of chunks that [`ScanRange::iter`] yields.
    pub fn count(&self) -> (n: u64)
        ensures
            n == self.chunk_count(),
    {
        if self.end <= self.start {
            return 0;
        }
        let span: u128 = (self.end as i128 - self.start as i128) as u128;
        let n: u128 = (span + (MAX_SCAN_PERIOD as u128) - 1) / (MAX_SCAN_PERIOD as u128);
        n as u64
    }

    /// An iterator over the chunks, positioned before the newest chunk.
    pub fn iter(&self) -> (it: ScanRangeIter)
        ensures
            it.range() == *self,
            it.remaining() == self.chunks(),
    {
        let it = ScanRangeIter { range: *self, index: 0 };
        assert(self.chunks().skip(0) =~= self.chunks());
        it
    }

    /// Bounds that every chunk index obeys.
    pub proof fn lemma_chunk_bounds(self, k: int)
        requires
            0 <= k < self.chunk_count(),
        ensures
            self.start <= self.chunk_start(k) < self.chunk_end(k) <= self.end,
            self.chunk_end(k) - self.chunk_start(k) <= MAX_SCAN_PERIOD,
            0 <= self.chunk_percent(k) <= 100,
            k * MAX_SCAN_PERIOD < self.span(),
            self.chunk(k).0.start == self.chunk_start(k),
            self.chunk(k).0.end == self.chunk_end(k),
            self.chunk(k).1 == self.chunk_percent(k),
    {
        let p = MAX_SCAN_PERIOD as int;
        let s = self.span();
        let n = self.chunk_count();
        lemma_fundamental_div_mod(s + p - 1, p);
        assert(p * n <= s + p - 1);
        assert(k * p <= (n - 1) * p) by (nonlinear_arith)
            requires
                k <= n - 1,
                p > 0,
        ;
        assert((n - 1) * p == p * n - p) by (nonlinear_arith);
        assert(k * p < s);
        assert((k + 1) * p == k * p + p) by (nonlinear_arith);
        let covered = self.end - self.chunk_start(k);
        assert(0 < covered <= s);
        lemma_div_is_ordered(0, 100 * covered, s);
        lemma_div_is_ordered(100 * covered, 100 * s, s);
        lemma_div_multiples_vanish(100, s);
        assert(100 * s == s * 100) by (nonlinear_arith);
        assert(0int / s == 0) by (nonlinear_arith)
            requires
                s > 0,
        ;
    }

    /// Percents never decrease along the chunks.
    pub proof fn lemma_percent_monotonic(self, i: int, j: int)
        requires
            0 <= i <= j < self.chunk_count(),
        ensures
            self.chunks()[i].1 <= self.chunks()[j].1,
    {
        let p = MAX_SCAN_PERIOD as int;
        self.lemma_chunk_bounds(i);
        self.lemma_chunk_bounds(j);
        assert((i + 1) * p <= (j + 1) * p) by (nonlinear_arith)
            requires
                i <= j,
                p > 0,
        ;
        assert(self.chunk_start(j) <= self.chunk_start(i));
        lemma_div_is_ordered(
            100 * (self.end - self.chunk_start(i)),
            100 * (self.end - self.chunk_start(j)),
            self.span(),
        );
    }

    /// A chunk reports one hundred percent exactly when it is the last one.
    pub proof fn lemma_percent_full_iff_last(self, k: int)
        requires
            0 <= k < self.chunk_count(),
        ensures
            self.chunks()[k].1 == 100 <==> k == self.chunk_count() - 1,
    {
        let p = MAX_SCAN_PERIOD as int;
        let s = self.span();
        let n = self.chunk_count();
        self.lemma_chunk_bounds(k);
        lemma_fundamental_div_mod(s + p - 1, p);
        assert(p * n == n * p) by (nonlinear_arith);
        assert((k + 1) * p == k * p + p) by (nonlinear_arith);
        if k == n - 1 {
            assert(n * p >= s);
            assert(self.chunk_start(k) == self.start);
            lemma_div_multiples_vanish(100, s);
            assert(100 * s == s * 100) by (nonlinear_arith);
        } else {
            self.lemma_chunk_bounds(k + 1);
            assert((k + 1) * p < s);
            let covered = self.end - self.chunk_start(k);
            assert(covered < s);
            lemma_fundamental_div_mod(100 * covered, s);
            if 100 * covered / s >= 100 {
                assert(s * (100 * covered / s) >= s * 100) by (nonlinear_arith)
                    requires
                        100 * covered / s >= 100,
                        s > 0,
                ;
                assert(false);
            }
        }
    }

    /// The chunks tile the range: the newest ends at `end`, each next chunk
    /// ends where the one before it starts, and the oldest starts at `start`.
    pub proof fn lemma_chunks_tile(self)
        ensures
            self.chunks().len() == self.chunk_count(),
            self.chunk_count() > 0 <==> self.start < self.end,
            self.chunk_count() > 0 ==> self.chunks()[0].0.end == self.end,
            self.chunk_count() > 0 ==> self.chunks()[self.chunk_count() - 1].0.start == self.start,
            forall|k: int|
                0 <= k < self.chunk_count() ==> (#[trigger] self.chunks()[k]).0.start
                    < self.chunks()[k].0.end,
            forall|k: int|
                0 <= k < self.chunk_count() - 1 ==> (#[trigger] self.chunks()[k]).0.start
                    == self.chunks()[k + 1].0.end,
    {
        let p = MAX_SCAN_PERIOD as int;
        let s = self.span();
        let n = self.chunk_count();
        lemma_fundamental_div_mod(s + p - 1, p);
        assert(p * n == n * p) by (nonlinear_arith);
        if s == 0 {
            assert((p - 1) / p == 0) by (nonlinear_arith)
                requires
                    p > 1,
            ;
        } else {
            lemma_div_is_ordered(p, s + p - 1, p);
            assert(p / p == 1) by (nonlinear_arith)
                requires
                    p > 0,
            ;
        }
        if n > 0 {
            self.lemma_chunk_bounds(0);
            self.lemma_chunk_bounds(n - 1);
            assert(((n - 1) + 1) * p == n * p);
        }
        assert forall|k: int| 0 <= k < n implies (#[trigger] self.chunks()[k]).0.start
            < self.chunks()[k].0.end by {
            self.lemma_chunk_bounds(k);
        }
        assert forall|k: int| 0 <= k < n - 1 implies (#[trigger] self.chunks()[k]).0.start
            == self.chunks()[k + 1].0.end by {
            self.lemma_chunk_bounds(k);
            self.lemma_chunk_bounds(k + 1);
        }
    }

    /// The walk goes one way: each chunk starts no later than the one before
    /// it, and none starts after the end of the range. So the start of the
    /// chunk that was scanned last, which a run records as its progress, only
    /// ever moves from the end of the range towards its start.
    pub proof fn lemma_starts_fall(self, i: int, j: int)
        requires
            0 <= i <= j < self.chunk_count(),
        ensures
            self.chunks()[j].0.start <= self.chunks()[i].0.start < self.end,
    {
        let p = MAX_SCAN_PERIOD as int;
        self.lemma_chunk_bounds(i);
        self.lemma_chunk_bounds(j);
        assert((i + 1) * p <= (j + 1) * p) by (nonlinear_arith)
            requires
                i <= j,
                p > 0,
        ;
    }

    /// Every instant of the range lies in exactly one chunk.
    pub proof fn lemma_chunks_partition(self, t: int)
        requires
            self.contains(t),
        ensures
            exists|k: int|
                0 <= k < self.chunk_count() && (#[trigger] self.chunks()[k]).0.contains(t),
            forall|i: int, j: int|
                0 <= i < self.chunk_count() && 0 <= j < self.chunk_count()
                    && (#[trigger] self.chunks()[i]).0.contains(t)
                    && (#[trigger] self.chunks()[j]).0.contains(t) ==> i == j,
    {
        let p = MAX_SCAN_PERIOD as int;
        let s = self.span();
        let n = self.chunk_count();
        let d = self.end - 1 - t;
        let k = d / p;
        lemma_fundamental_div_mod(d, p);
        lemma_fundamental_div_mod(s + p - 1, p);
        lemma_div_is_ordered(0, d, p);
        lemma_div_is_ordered(d, s + p - 1, p);
        assert(0int / p == 0) by (nonlinear_arith)
            requires
                p > 0,
        ;
        assert(p * k == k * p) by (nonlinear_arith);
        assert(p * n == n * p) by (nonlinear_arith);
        assert((k + 1) * p == k * p + p) by (nonlinear_arith);
        if k >= n {
            assert(k * p >= n * p) by (nonlinear_arith)
                requires
                    k >= n,
                    p > 0,
            ;
            assert(false);
        }
        self.lemma_chunk_bounds(k);
        assert(self.chunks()[k].0.contains(t));
        assert forall|i: int, j: int|
            0 <= i < n && 0 <= j < n && (#[trigger] self.chunks()[i]).0.contains(t) && (
            #[trigger] self.chunks()[j]).0.contains(t) implies i == j by {
            self.lemma_chunk_bounds(i);
            self.lemma_chunk_bounds(j);
            if i < j {
                assert((i + 1) * p <= j * p) by (nonlinear_arith)
                    requires
                        i + 1 <= j,
                        p > 0,
                ;
            }
            if j < i {
                assert((j + 1) * p <= i * p) by (nonlinear_arith)
                    requires
                        j + 1 <= i,
                        p > 0,
                ;
            }
        }
    }
}

/// A position in the chunks of a range.
#[derive(Clone, Copy, Debug)]
pub struct ScanRangeIter {
    range: ScanRange,
    index: u64,
}

impl ScanRangeIter {
    /// The range being walked.
    pub closed spec fn range(self) -> ScanRange {
        self.range
    }

    /// The chunks not yet yielded, newest first.
    pub closed spec fn remaining(self) -> Seq<(ScanRange, u8)> {
        if self.index <= self.range.chunk_count() {
            self.range.chunks().skip(self.index as int)
        } else {
            Seq::empty()
        }
    }

    /// Yields the next chunk with its cumulative percent, or `None` once the
    /// range is exhausted.
    pub fn next(&mut self) -> (item: Option<(ScanRange, u8)>)
        ensures
            final(self).range() == old(self).range(),
            old(self).remaining().len() == 0 ==> item is None && final(self).remaining()
                == old(self).remaining(),
            old(self).remaining().len() > 0 ==> item == Some(old(self).remaining()[0])
                && final(self).remaining() == old(self).remaining().drop_first(),
    {
        let n = self.range.count();
        if self.index >= n {
            return None;
        }
        let k = self.index;
        proof {
            self.range.lemma_chunk_bounds(k as int);
            assert((k + 1) * MAX_SCAN_PERIOD == k * MAX_SCAN_PERIOD + MAX_SCAN_PERIOD)
                by (nonlinear_arith);
        }
        let start = self.range.start as i128;
        let end = self.range.end as i128;
        let span: u128 = (end - start) as u128;
        let back: i128 = (k as i128) * (MAX_SCAN_PERIOD as i128);
        let chunk_end: i128 = end - back;
        let chunk_start: i128 = if chunk_end - (MAX_SCAN_PERIOD as i128) > start {
            chunk_end - (MAX_SCAN_PERIOD as i128)
        } else {
            start
        };
        let covered: u128 = (end - chunk_start) as u128;
        let percent: u128 = 100 * covered / span;
        let item = (ScanRange { start: chunk_start as i64, end: chunk_end as i64 }, percent as u8);
        self.index = k + 1;
        proof {
            let rest = old(self).remaining();
            assert(rest[0] == self.range.chunks()[k as int]);
            assert(self.remaining() =~= rest.drop_first());
        }
        Some(item)
    }
}

} // verus!
