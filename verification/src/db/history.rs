//! The history of completed scans, newest first.

use crate::db::Store;
use crate::models::ScanCompleted;
use crate::page::{Page, PageResult};
use crate::seqs::{lemma_filter_prefix, lemma_filter_suffix, slice_of};
use vstd::prelude::*;

verus! {

impl ScanCompleted {
    /// Whether this scan stands before `other` in the history: it started
    /// later, or at the same time with the higher id.
    pub open spec fn newer_than(&self, other: &ScanCompleted) -> bool {
        self.started_at > other.started_at || (self.started_at == other.started_at && self.id
            > other.id)
    }
}

/// Whether `s` runs from newer to older with nothing twice.
pub open spec fn newest_first(s: Seq<ScanCompleted>) -> bool {
    forall|i: int, j: int| #![trigger s[i], s[j]] 0 <= i < j < s.len() ==> s[i].newer_than(&s[j])
}

/// The listing `s` with `c` put at its place: after the scans that are newer
/// than it and before the others.
pub open spec fn place(s: Seq<ScanCompleted>, c: ScanCompleted) -> Seq<ScanCompleted> {
    s.filter(|x: ScanCompleted| x.newer_than(&c)).push(c) + s.filter(
        |x: ScanCompleted| !x.newer_than(&c),
    )
}

/// The completed scans from newest to oldest: each scan of the table put at
/// its place in turn.
pub open spec fn history(completed: Seq<ScanCompleted>) -> Seq<ScanCompleted>
    decreases completed.len(),
{
    if completed.len() == 0 {
        Seq::empty()
    } else {
        place(history(completed.drop_last()), completed.last())
    }
}

/// Putting a scan into a listing that runs newest first, at the position
/// `p` up to which the scans are newer than it.
pub proof fn lemma_place(s: Seq<ScanCompleted>, c: ScanCompleted, p: int)
    requires
        newest_first(s),
        0 <= p <= s.len(),
        forall|i: int| 0 <= i < s.len() ==> (#[trigger] s[i]).id != c.id,
        forall|i: int| 0 <= i < p ==> (#[trigger] s[i]).newer_than(&c),
        p < s.len() ==> !s[p].newer_than(&c),
    ensures
        place(s, c) == s.take(p).push(c) + s.skip(p),
        newest_first(place(s, c)),
{
    let newer = |x: ScanCompleted| x.newer_than(&c);
    let other = |x: ScanCompleted| !x.newer_than(&c);
    assert forall|i: int| p <= i < s.len() implies !newer(#[trigger] s[i]) by {
        if i > p {
            assert(s[p].newer_than(&s[i]));
        }
    }
    lemma_filter_prefix(s, newer, p);
    lemma_filter_suffix(s, other, p);
    let after = s.take(p).push(c) + s.skip(p);
    assert forall|i: int, j: int| #![trigger after[i], after[j]] 0 <= i < j < after.len() implies after[i].newer_than(
        &after[j],
    ) by {
        if j < p {
            assert(after[i] == s[i] && after[j] == s[j]);
        } else if j == p {
            assert(after[i] == s[i]);
        } else if i < p {
            assert(after[i] == s[i] && after[j] == s[j - 1]);
            if i < j - 1 {
                assert(s[i].newer_than(&s[j - 1]));
            }
        } else if i == p {
            assert(after[j] == s[j - 1]);
            assert(s[j - 1].id != c.id);
            if j - 1 > p {
                assert(s[p].newer_than(&s[j - 1]));
            }
        } else {
            assert(after[i] == s[i - 1] && after[j] == s[j - 1]);
            assert(s[i - 1].newer_than(&s[j - 1]));
        }
    }
}

/// The history holds the scans of the table, each once, from newest to
/// oldest.
pub proof fn lemma_history(completed: Seq<ScanCompleted>)
    requires
        forall|i: int, j: int|
            #![trigger completed[i], completed[j]]
            0 <= i < j < completed.len() ==> completed[i].id < completed[j].id,
    ensures
        newest_first(history(completed)),
        history(completed).len() == completed.len(),
        forall|i: int|
            0 <= i < completed.len() ==> history(completed).contains(#[trigger] completed[i]),
        forall|i: int|
            0 <= i < completed.len() ==> completed.contains(#[trigger] history(completed)[i]),
    decreases completed.len(),
{
    if completed.len() > 0 {
        let rest = completed.drop_last();
        let c = completed.last();
        let h = history(rest);
        assert forall|i: int, j: int| #![trigger rest[i], rest[j]] 0 <= i < j < rest.len() implies rest[i].id
            < rest[j].id by {
            assert(rest[i] == completed[i] && rest[j] == completed[j]);
        }
        lemma_history(rest);
        assert forall|i: int| 0 <= i < h.len() implies (#[trigger] h[i]).id != c.id by {
            assert(rest.contains(h[i]));
            let k = rest.index_of(h[i]);
            assert(rest[k] == completed[k]);
            assert(completed[k].id < completed[completed.len() - 1].id);
        }
        let p = first_not_newer(h, c, 0);
        lemma_first_not_newer(h, c, 0);
        lemma_place(h, c, p);
        let after = history(completed);
        assert(after == h.take(p).push(c) + h.skip(p));
        assert forall|i: int| 0 <= i < completed.len() implies after.contains(
            #[trigger] completed[i],
        ) by {
            if i < rest.len() {
                assert(h.contains(rest[i]));
                let k = h.index_of(rest[i]);
                if k < p {
                    assert(after[k] == h[k]);
                } else {
                    assert(after[k + 1] == h[k]);
                }
            } else {
                assert(after[p] == c);
            }
        }
        assert forall|i: int| 0 <= i < completed.len() implies completed.contains(
            #[trigger] after[i],
        ) by {
            if i == p {
                assert(completed[completed.len() - 1] == c);
            } else {
                let k = if i < p {
                    i
                } else {
                    i - 1
                };
                assert(after[i] == h[k]);
                assert(rest.contains(h[k]));
                let m = rest.index_of(h[k]);
                assert(completed[m] == rest[m]);
            }
        }
    }
}

/// The first position from `from` on whose scan is not newer than `c`.
pub open spec fn first_not_newer(s: Seq<ScanCompleted>, c: ScanCompleted, from: int) -> int
    decreases s.len() - from,
{
    if 0 <= from < s.len() && s[from].newer_than(&c) {
        first_not_newer(s, c, from + 1)
    } else {
        from
    }
}

/// Up to that position every scan from `from` on is newer than `c`.
pub proof fn lemma_first_not_newer(s: Seq<ScanCompleted>, c: ScanCompleted, from: int)
    requires
        0 <= from <= s.len(),
    ensures
        from <= first_not_newer(s, c, from) <= s.len(),
        forall|i: int| from <= i < first_not_newer(s, c, from) ==> (#[trigger] s[i]).newer_than(&c),
        first_not_newer(s, c, from) < s.len() ==> !s[first_not_newer(s, c, from)].newer_than(&c),
    decreases s.len() - from,
{
    if from < s.len() && s[from].newer_than(&c) {
        lemma_first_not_newer(s, c, from + 1);
    }
}

impl ScanCompleted {
    /// One page of the history of completed scans, newest first.
    pub fn list(store: &Store, page: Page) -> (r: PageResult<ScanCompleted>)
        requires
            store.wf(),
        ensures
            r.page == page.page,
            r.per_page == page.per_page,
            r.total_items == store@.completed.len(),
            r.total_pages == page.spec_total_pages(store@.completed.len() as int),
            r.items@ == slice_of(
                history(store@.completed),
                page.spec_offset(),
                page.spec_offset() + page.per_page,
            ),
    {
        let mut sorted: Vec<ScanCompleted> = Vec::new();
        let mut i: usize = 0;
        while i < store.completed.len()
            invariant
                store.wf(),
                i <= store.completed.len(),
                sorted@ == history(store.completed@.take(i as int)),
                sorted@.len() == i,
                newest_first(sorted@),
                forall|j: int|
                    0 <= j < sorted@.len() ==> store.completed@.take(i as int).contains(
                        #[trigger] sorted@[j],
                    ),
            decreases store.completed.len() - i,
        {
            let c = store.completed[i].clone();
            let ghost before = sorted@;
            let mut p: usize = 0;
            while p < sorted.len() && (sorted[p].started_at > c.started_at || (sorted[p].started_at
                == c.started_at && sorted[p].id > c.id))
                invariant
                    p <= sorted.len(),
                    forall|j: int| 0 <= j < p ==> (#[trigger] sorted@[j]).newer_than(&c),
                decreases sorted.len() - p,
            {
                p += 1;
            }
            proof {
                let done = store.completed@.take(i as int);
                assert forall|j: int| 0 <= j < before.len() implies (#[trigger] before[j]).id
                    != c.id by {
                    let k = done.index_of(before[j]);
                    assert(done[k] == store@.completed[k]);
                    assert(store@.completed[k].id < store@.completed[i as int].id);
                }
                lemma_place(before, c, p as int);
                let next = store.completed@.take(i + 1);
                assert(next.drop_last() =~= done);
                assert(next.last() == c);
            }
            sorted.insert(p, c);
            proof {
                let done = store.completed@.take(i as int);
                let next = store.completed@.take(i + 1);
                assert(sorted@ =~= before.take(p as int).push(c) + before.skip(p as int));
                assert forall|j: int| 0 <= j < sorted@.len() implies next.contains(
                    #[trigger] sorted@[j],
                ) by {
                    if j == p {
                        assert(next[i as int] == c);
                    } else {
                        let k = if j < p {
                            j
                        } else {
                            j - 1
                        };
                        assert(sorted@[j] == before[k]);
                        let m = done.index_of(before[k]);
                        assert(next[m] == done[m]);
                    }
                }
            }
            i += 1;
        }
        assert(store.completed@.take(i as int) =~= store.completed@);
        let total = sorted.len();
        let offset = page.offset();
        let limit = page.limit();
        let lo: usize = if offset <= total as u64 {
            offset as usize
        } else {
            total
        };
        let room: u64 = (total - lo) as u64;
        let hi: usize = if limit <= room {
            lo + limit as usize
        } else {
            total
        };
        let mut items: Vec<ScanCompleted> = Vec::new();
        let mut k: usize = lo;
        while k < hi
            invariant
                lo <= k <= hi <= sorted.len(),
                items@ == sorted@.subrange(lo as int, k as int),
            decreases hi - k,
        {
            items.push(sorted[k].clone());
            assert(sorted@.subrange(lo as int, k + 1) =~= sorted@.subrange(lo as int, k as int).push(
                sorted@[k as int],
            ));
            k += 1;
        }
        page.new_result(items, total as u64)
    }
}

} // verus!
