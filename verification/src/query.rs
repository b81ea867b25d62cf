//! Pages of the file index.
//!
//! The index is in canonical order: later start time first, and among equal
//! start times the higher camera id first. A query names a filter, a page
//! size and a position; the answer is the page of matching files at that
//! position, in canonical order, with tokens for the pages on either side.

use crate::cursor::{lemma_token_roundtrip, parse_token, token, CameraFileQueryCursor};
use crate::filter::CameraFileQueryFilter;
use crate::models::CameraFile;
use crate::seqs::{
    lemma_filter_falling, lemma_filter_pairwise, lemma_filter_prefix, lemma_filter_rising,
    lemma_filter_same, lemma_filter_suffix, lemma_filter_twice,
};
use vstd::prelude::*;

verus! {

/// A query for one page of files.
#[derive(Debug)]
pub struct CameraFileQuery<'a> {
    pub filter: &'a CameraFileQueryFilter,
    /// The most files that the page may hold.
    pub limit: u32,
    pub cursor: CameraFileQueryCursor,
}

/// One page of files.
#[derive(Debug)]
pub struct CameraFileQueryResult {
    /// The files of the page, in canonical order.
    pub files: Vec<CameraFile>,
    /// Whether a matching file comes before the page.
    pub has_before: bool,
    /// The token of the first file of the page; empty for an empty page.
    pub before: String,
    /// Whether a matching file comes after the page.
    pub has_after: bool,
    /// The token of the last file of the page; empty for an empty page.
    pub after: String,
    /// The number of files in the page.
    pub count: u32,
}

/// The files that a query may return from a position: those of `files` that
/// the filter admits and that lie on the asked side of the position, in the
/// order of `files`.
pub open spec fn window(
    files: Seq<CameraFile>,
    filter: CameraFileQueryFilter,
    cursor: CameraFileQueryCursor,
) -> Seq<CameraFile> {
    files.filter(|f: CameraFile| filter.matches(f) && cursor.admits(f))
}

/// The page at a position: the `limit` files of the window that lie nearest
/// to the position, or all of the window if it has no more.
pub open spec fn page(
    files: Seq<CameraFile>,
    filter: CameraFileQueryFilter,
    cursor: CameraFileQueryCursor,
    limit: int,
) -> Seq<CameraFile> {
    let w = window(files, filter, cursor);
    if w.len() <= limit {
        w
    } else if cursor is Before {
        w.skip(w.len() - limit)
    } else {
        w.take(limit)
    }
}

/// Whether a matching file comes after the page. Towards older files the
/// window tells: it holds more than the page. A page before a position ends
/// at the position, so every matching file that the position does not admit
/// comes after the page: the file at the position, and the files after it.
pub open spec fn has_after(
    files: Seq<CameraFile>,
    filter: CameraFileQueryFilter,
    cursor: CameraFileQueryCursor,
    limit: int,
) -> bool {
    match cursor {
        CameraFileQueryCursor::Before(_) => window(
            files,
            filter,
            CameraFileQueryCursor::Start,
        ).len() > window(files, filter, cursor).len(),
        _ => window(files, filter, cursor).len() > limit,
    }
}

/// Whether a matching file comes before the page. Nothing comes before the
/// first page. A page after a position starts at the position, so every
/// matching file that the position does not admit comes before the page: the
/// file at the position, and the files before it. Towards newer files the
/// window tells: it holds more than the page.
pub open spec fn has_before(
    files: Seq<CameraFile>,
    filter: CameraFileQueryFilter,
    cursor: CameraFileQueryCursor,
    limit: int,
) -> bool {
    match cursor {
        CameraFileQueryCursor::Start => false,
        CameraFileQueryCursor::After(_) => window(
            files,
            filter,
            CameraFileQueryCursor::Start,
        ).len() > window(files, filter, cursor).len(),
        CameraFileQueryCursor::Before(_) => window(files, filter, cursor).len() > limit,
    }
}

/// The token of the first file of a page; empty for an empty page.
pub open spec fn before_token(page: Seq<CameraFile>) -> Seq<char> {
    if page.len() == 0 {
        Seq::empty()
    } else {
        token(page.first().camera_id, page.first().start_time)
    }
}

/// The token of the last file of a page; empty for an empty page.
pub open spec fn after_token(page: Seq<CameraFile>) -> Seq<char> {
    if page.len() == 0 {
        Seq::empty()
    } else {
        token(page.last().camera_id, page.last().start_time)
    }
}

impl CameraFileQueryResult {
    /// Whether this is the answer to the query on the index `files`.
    pub open spec fn answers(
        &self,
        files: Seq<CameraFile>,
        filter: CameraFileQueryFilter,
        cursor: CameraFileQueryCursor,
        limit: int,
    ) -> bool {
        &&& self.files@ == page(files, filter, cursor, limit)
        &&& self.has_before == has_before(files, filter, cursor, limit)
        &&& self.has_after == has_after(files, filter, cursor, limit)
        &&& self.before@ == before_token(self.files@)
        &&& self.after@ == after_token(self.files@)
        &&& self.count == self.files@.len()
    }
}

/// The files that a walk towards older files gathers in up to `n` pages:
/// the page at `cursor`, then, as long as a page reports older files, the
/// page after the file that its `after` token names.
pub open spec fn walk_forward(
    files: Seq<CameraFile>,
    filter: CameraFileQueryFilter,
    cursor: CameraFileQueryCursor,
    limit: int,
    n: nat,
) -> Seq<CameraFile>
    decreases n,
{
    if n == 0 {
        Seq::empty()
    } else {
        let p = page(files, filter, cursor, limit);
        if has_after(files, filter, cursor, limit) {
            p + walk_forward(
                files,
                filter,
                CameraFileQueryCursor::After(parse_token(after_token(p)).unwrap()),
                limit,
                (n - 1) as nat,
            )
        } else {
            p
        }
    }
}

/// The files that a walk towards newer files gathers in up to `n` pages:
/// the page at `cursor`, then, as long as a page reports newer files, the
/// page before the file that its `before` token names.
pub open spec fn walk_backward(
    files: Seq<CameraFile>,
    filter: CameraFileQueryFilter,
    cursor: CameraFileQueryCursor,
    limit: int,
    n: nat,
) -> Seq<CameraFile>
    decreases n,
{
    if n == 0 {
        Seq::empty()
    } else {
        let p = page(files, filter, cursor, limit);
        if has_before(files, filter, cursor, limit) {
            walk_backward(
                files,
                filter,
                CameraFileQueryCursor::Before(parse_token(before_token(p)).unwrap()),
                limit,
                (n - 1) as nat,
            ) + p
        } else {
            p
        }
    }
}

/// The window at a position is the part of all matching files that lies on
/// the asked side of the position.
pub proof fn lemma_window_of_all(
    files: Seq<CameraFile>,
    filter: CameraFileQueryFilter,
    cursor: CameraFileQueryCursor,
)
    ensures
        window(files, filter, cursor) == window(files, filter, CameraFileQueryCursor::Start).filter(
            |f: CameraFile| cursor.admits(f),
        ),
{
    let all = |f: CameraFile| filter.matches(f) && CameraFileQueryCursor::Start.admits(f);
    let side = |f: CameraFile| cursor.admits(f);
    let both = |f: CameraFile| filter.matches(f) && cursor.admits(f);
    lemma_filter_twice(files, all, side);
    lemma_filter_same(files, |f: CameraFile| all(f) && side(f), both);
}

/// In an index in canonical order, the window after a matching file is
/// everything that follows it among the matching files, and the window
/// before it is everything that precedes it: no file is left out and none
/// comes twice.
pub proof fn lemma_window_around(files: Seq<CameraFile>, filter: CameraFileQueryFilter, m: int)
    requires
        CameraFile::sorted(files),
        0 <= m < window(files, filter, CameraFileQueryCursor::Start).len(),
    ensures
        ({
            let all = window(files, filter, CameraFileQueryCursor::Start);
            let key = (all[m].camera_id, all[m].start_time);
            &&& window(files, filter, CameraFileQueryCursor::After(key)) == all.skip(m + 1)
            &&& window(files, filter, CameraFileQueryCursor::Before(key)) == all.take(m)
        }),
{
    let all = window(files, filter, CameraFileQueryCursor::Start);
    let key = (all[m].camera_id, all[m].start_time);
    let after = CameraFileQueryCursor::After(key);
    let before = CameraFileQueryCursor::Before(key);
    lemma_filter_pairwise(
        files,
        |f: CameraFile| filter.matches(f) && CameraFileQueryCursor::Start.admits(f),
        |a: CameraFile, b: CameraFile| a.before(&b),
    );
    lemma_window_of_all(files, filter, after);
    lemma_window_of_all(files, filter, before);
    assert forall|i: int| 0 <= i < all.len() implies (after.admits(#[trigger] all[i]) <==> i > m)
        && (before.admits(all[i]) <==> i < m) by {
        if i < m {
            assert(all[i].before(&all[m]));
        }
        if i > m {
            assert(all[m].before(&all[i]));
        }
    }
    lemma_filter_suffix(all, |f: CameraFile| after.admits(f), m + 1);
    lemma_filter_prefix(all, |f: CameraFile| before.admits(f), m);
}

/// The forward walk from the matching file at rank `s - 1`, or from the
/// start when `s` is zero, gathers every matching file from rank `s` on,
/// in order, each once.
pub proof fn lemma_walk_forward_from(
    files: Seq<CameraFile>,
    filter: CameraFileQueryFilter,
    cursor: CameraFileQueryCursor,
    limit: int,
    n: nat,
    s: int,
)
    requires
        CameraFile::sorted(files),
        limit >= 1,
        0 <= s <= window(files, filter, CameraFileQueryCursor::Start).len(),
        s == 0 ==> cursor == CameraFileQueryCursor::Start,
        s > 0 ==> cursor == CameraFileQueryCursor::After(
            (
                window(files, filter, CameraFileQueryCursor::Start)[s - 1].camera_id,
                window(files, filter, CameraFileQueryCursor::Start)[s - 1].start_time,
            ),
        ),
        n > window(files, filter, CameraFileQueryCursor::Start).len() - s,
    ensures
        walk_forward(files, filter, cursor, limit, n) == window(
            files,
            filter,
            CameraFileQueryCursor::Start,
        ).skip(s),
    decreases n,
{
    let all = window(files, filter, CameraFileQueryCursor::Start);
    if s > 0 {
        lemma_window_around(files, filter, s - 1);
    }
    let w = window(files, filter, cursor);
    assert(w =~= all.skip(s));
    let p = page(files, filter, cursor, limit);
    if has_after(files, filter, cursor, limit) {
        assert(p == w.take(limit));
        let last = p.last();
        assert(last == all[s + limit - 1]);
        lemma_token_roundtrip(last.camera_id, last.start_time);
        let next = CameraFileQueryCursor::After(parse_token(after_token(p)).unwrap());
        lemma_walk_forward_from(files, filter, next, limit, (n - 1) as nat, s + limit);
        assert(w.take(limit) + all.skip(s + limit) =~= all.skip(s));
    }
}

/// Pagination, forward: the walk from the first page along the `after`
/// tokens, until a page reports no older files, gathers every matching file,
/// in order, each once.
pub proof fn lemma_walk_forward(
    files: Seq<CameraFile>,
    filter: CameraFileQueryFilter,
    limit: int,
    n: nat,
)
    requires
        CameraFile::sorted(files),
        limit >= 1,
        n > window(files, filter, CameraFileQueryCursor::Start).len(),
    ensures
        walk_forward(files, filter, CameraFileQueryCursor::Start, limit, n) == window(
            files,
            filter,
            CameraFileQueryCursor::Start,
        ),
{
    lemma_walk_forward_from(files, filter, CameraFileQueryCursor::Start, limit, n, 0);
    let all = window(files, filter, CameraFileQueryCursor::Start);
    assert(all.skip(0) =~= all);
}

/// The backward walk from the matching file at rank `m`, along the `before`
/// tokens, gathers every matching file before rank `m`, in order, each once.
pub proof fn lemma_walk_backward_from(
    files: Seq<CameraFile>,
    filter: CameraFileQueryFilter,
    limit: int,
    n: nat,
    m: int,
)
    requires
        CameraFile::sorted(files),
        limit >= 1,
        0 <= m < window(files, filter, CameraFileQueryCursor::Start).len(),
        n > m,
    ensures
        walk_backward(
            files,
            filter,
            CameraFileQueryCursor::Before(
                (
                    window(files, filter, CameraFileQueryCursor::Start)[m].camera_id,
                    window(files, filter, CameraFileQueryCursor::Start)[m].start_time,
                ),
            ),
            limit,
            n,
        ) == window(files, filter, CameraFileQueryCursor::Start).take(m),
        walk_backward(
            files,
            filter,
            CameraFileQueryCursor::Before(
                (
                    window(files, filter, CameraFileQueryCursor::Start)[m].camera_id,
                    window(files, filter, CameraFileQueryCursor::Start)[m].start_time,
                ),
            ),
            limit,
            n,
        ) + window(files, filter, CameraFileQueryCursor::Start).skip(m) == window(
            files,
            filter,
            CameraFileQueryCursor::Start,
        ),
    decreases n,
{
    let all = window(files, filter, CameraFileQueryCursor::Start);
    let cursor = CameraFileQueryCursor::Before((all[m].camera_id, all[m].start_time));
    lemma_window_around(files, filter, m);
    let w = window(files, filter, cursor);
    assert(w == all.take(m));
    let p = page(files, filter, cursor, limit);
    if has_before(files, filter, cursor, limit) {
        assert(p == w.skip(w.len() - limit));
        let first = p.first();
        assert(first == all[m - limit]);
        lemma_token_roundtrip(first.camera_id, first.start_time);
        lemma_walk_backward_from(files, filter, limit, (n - 1) as nat, m - limit);
        assert(all.take(m - limit) + w.skip(w.len() - limit) =~= all.take(m));
    }
    assert(all.take(m) + all.skip(m) =~= all);
}

/// The position of the last page of a walk towards older files that starts
/// at `cursor` and takes up to `n` steps along the `after` tokens: the first
/// position on the way whose page reports no matching file after it.
pub open spec fn last_forward(
    files: Seq<CameraFile>,
    filter: CameraFileQueryFilter,
    cursor: CameraFileQueryCursor,
    limit: int,
    n: nat,
) -> CameraFileQueryCursor
    decreases n,
{
    if n > 0 && has_after(files, filter, cursor, limit) {
        last_forward(
            files,
            filter,
            CameraFileQueryCursor::After(
                parse_token(after_token(page(files, filter, cursor, limit))).unwrap(),
            ),
            limit,
            (n - 1) as nat,
        )
    } else {
        cursor
    }
}

/// Where the forward walk ends: at the start when all matching files fit in
/// one page, else right after the matching file at rank `s - 1` for the rank
/// `s` that the lemma returns; the page there holds every matching file from
/// rank `s` on, at least one, and reports none after it.
pub proof fn lemma_last_forward_from(
    files: Seq<CameraFile>,
    filter: CameraFileQueryFilter,
    cursor: CameraFileQueryCursor,
    limit: int,
    n: nat,
    s: int,
) -> (last: int)
    requires
        CameraFile::sorted(files),
        limit >= 1,
        0 <= s <= window(files, filter, CameraFileQueryCursor::Start).len(),
        s == 0 ==> cursor == CameraFileQueryCursor::Start,
        s > 0 ==> s < window(files, filter, CameraFileQueryCursor::Start).len() && cursor
            == CameraFileQueryCursor::After(
            (
                window(files, filter, CameraFileQueryCursor::Start)[s - 1].camera_id,
                window(files, filter, CameraFileQueryCursor::Start)[s - 1].start_time,
            ),
        ),
        n > window(files, filter, CameraFileQueryCursor::Start).len() - s,
    ensures
        s <= last <= window(files, filter, CameraFileQueryCursor::Start).len(),
        last == 0 ==> last_forward(files, filter, cursor, limit, n)
            == CameraFileQueryCursor::Start,
        last > 0 ==> last < window(files, filter, CameraFileQueryCursor::Start).len()
            && last_forward(files, filter, cursor, limit, n) == CameraFileQueryCursor::After(
            (
                window(files, filter, CameraFileQueryCursor::Start)[last - 1].camera_id,
                window(files, filter, CameraFileQueryCursor::Start)[last - 1].start_time,
            ),
        ),
        !has_after(files, filter, last_forward(files, filter, cursor, limit, n), limit),
        page(files, filter, last_forward(files, filter, cursor, limit, n), limit) == window(
            files,
            filter,
            CameraFileQueryCursor::Start,
        ).skip(last),
    decreases n,
{
    let all = window(files, filter, CameraFileQueryCursor::Start);
    if s > 0 {
        lemma_window_around(files, filter, s - 1);
    }
    let w = window(files, filter, cursor);
    assert(w =~= all.skip(s));
    let p = page(files, filter, cursor, limit);
    if has_after(files, filter, cursor, limit) {
        assert(p == w.take(limit));
        let end = p.last();
        assert(end == all[s + limit - 1]);
        lemma_token_roundtrip(end.camera_id, end.start_time);
        let next = CameraFileQueryCursor::After(parse_token(after_token(p)).unwrap());
        lemma_last_forward_from(files, filter, next, limit, (n - 1) as nat, s + limit)
    } else {
        s
    }
}

/// Pagination, backward: from the last page of the forward walk, the walk
/// along the `before` tokens, for as long as a page reports a matching file
/// before it, gathers every matching file, in order, each once: the same
/// files as the forward walk.
pub proof fn lemma_walk_backward(
    files: Seq<CameraFile>,
    filter: CameraFileQueryFilter,
    limit: int,
    n: nat,
    m: nat,
)
    requires
        CameraFile::sorted(files),
        limit >= 1,
        n > window(files, filter, CameraFileQueryCursor::Start).len(),
        m > window(files, filter, CameraFileQueryCursor::Start).len(),
    ensures
        walk_backward(
            files,
            filter,
            last_forward(files, filter, CameraFileQueryCursor::Start, limit, n),
            limit,
            m,
        ) == window(files, filter, CameraFileQueryCursor::Start),
        walk_backward(
            files,
            filter,
            last_forward(files, filter, CameraFileQueryCursor::Start, limit, n),
            limit,
            m,
        ) == walk_forward(files, filter, CameraFileQueryCursor::Start, limit, n),
{
    let all = window(files, filter, CameraFileQueryCursor::Start);
    let start = CameraFileQueryCursor::Start;
    lemma_walk_forward(files, filter, limit, n);
    let s = lemma_last_forward_from(files, filter, start, limit, n, 0);
    let cursor = last_forward(files, filter, start, limit, n);
    let p = page(files, filter, cursor, limit);
    if s == 0 {
        assert(all.skip(0) =~= all);
    } else {
        lemma_window_around(files, filter, s - 1);
        assert(window(files, filter, cursor).len() == all.len() - s);
        assert(has_before(files, filter, cursor, limit));
        assert(p.first() == all[s]);
        lemma_token_roundtrip(all[s].camera_id, all[s].start_time);
        lemma_walk_backward_from(files, filter, limit, (m - 1) as nat, s);
        assert(all.take(s) + all.skip(s) =~= all);
    }
}

/// In an index in canonical order the window at a position is one stretch
/// of all matching files: all of them from the start, their end after a
/// position, their beginning before a position.
pub proof fn lemma_window_stretch(
    files: Seq<CameraFile>,
    filter: CameraFileQueryFilter,
    cursor: CameraFileQueryCursor,
)
    requires
        CameraFile::sorted(files),
    ensures
        ({
            let all = window(files, filter, CameraFileQueryCursor::Start);
            let w = window(files, filter, cursor);
            &&& CameraFile::sorted(all)
            &&& w.len() <= all.len()
            &&& w == match cursor {
                CameraFileQueryCursor::Start => all,
                CameraFileQueryCursor::After(_) => all.skip(all.len() - w.len()),
                CameraFileQueryCursor::Before(_) => all.take(w.len() as int),
            }
        }),
{
    let all = window(files, filter, CameraFileQueryCursor::Start);
    let side = |f: CameraFile| cursor.admits(f);
    lemma_filter_pairwise(
        files,
        |f: CameraFile| filter.matches(f) && CameraFileQueryCursor::Start.admits(f),
        |a: CameraFile, b: CameraFile| a.before(&b),
    );
    lemma_window_of_all(files, filter, cursor);
    match cursor {
        CameraFileQueryCursor::Start => {
            crate::seqs::lemma_filter_all(all, side);
        },
        CameraFileQueryCursor::After(_) => {
            assert forall|i: int, j: int|
                #![trigger all[i], all[j]]
                0 <= i < j < all.len() && side(all[i]) implies side(all[j]) by {
                assert(all[i].before(&all[j]));
            }
            lemma_filter_rising(all, side);
        },
        CameraFileQueryCursor::Before(_) => {
            assert forall|i: int, j: int|
                #![trigger all[i], all[j]]
                0 <= i < j < all.len() && side(all[j]) implies side(all[i]) by {
                assert(all[i].before(&all[j]));
            }
            lemma_filter_falling(all, side);
        },
    }
}

/// What the two flags of an answer tell, for a page that holds a file: a
/// matching file comes before the page exactly when one comes before the
/// first file of the page in canonical order, and a matching file comes
/// after the page exactly when one comes after its last file. The flags
/// look at the page that is returned, not at the position that was asked.
pub proof fn lemma_flags(
    files: Seq<CameraFile>,
    filter: CameraFileQueryFilter,
    cursor: CameraFileQueryCursor,
    limit: int,
)
    requires
        CameraFile::sorted(files),
        limit >= 0,
        page(files, filter, cursor, limit).len() > 0,
    ensures
        has_before(files, filter, cursor, limit) <==> exists|i: int|
            #![trigger window(files, filter, CameraFileQueryCursor::Start)[i]]
            0 <= i < window(files, filter, CameraFileQueryCursor::Start).len() && window(
                files,
                filter,
                CameraFileQueryCursor::Start,
            )[i].before(&page(files, filter, cursor, limit).first()),
        has_after(files, filter, cursor, limit) <==> exists|i: int|
            #![trigger window(files, filter, CameraFileQueryCursor::Start)[i]]
            0 <= i < window(files, filter, CameraFileQueryCursor::Start).len() && page(
                files,
                filter,
                cursor,
                limit,
            ).last().before(&window(files, filter, CameraFileQueryCursor::Start)[i]),
{
    let all = window(files, filter, CameraFileQueryCursor::Start);
    let w = window(files, filter, cursor);
    let p = page(files, filter, cursor, limit);
    lemma_window_stretch(files, filter, cursor);
    // the page is the stretch of all matching files from rank `a` to rank `b`
    let a: int = if cursor is Before {
        w.len() - p.len()
    } else {
        all.len() - w.len()
    };
    let b: int = a + p.len();
    assert(0 <= a < b <= all.len());
    assert(p =~= all.subrange(a, b));
    assert(p.first() == all[a]);
    assert(p.last() == all[b - 1]);
    assert(has_before(files, filter, cursor, limit) <==> a > 0);
    assert(has_after(files, filter, cursor, limit) <==> b < all.len());
    let first = all[a];
    let last = all[b - 1];
    assert forall|i: int| #![trigger all[i]] 0 <= i < all.len() implies (all[i].before(&first)
        <==> i < a) by {
        if i < a {
            assert(all[i].before(&all[a]));
        }
        if a < i {
            assert(all[a].before(&all[i]));
        }
    }
    assert forall|i: int| #![trigger all[i]] 0 <= i < all.len() implies (last.before(&all[i])
        <==> i > b - 1) by {
        if i < b - 1 {
            assert(all[i].before(&all[b - 1]));
        }
        if b - 1 < i {
            assert(all[b - 1].before(&all[i]));
        }
    }
    if a > 0 {
        assert(all[0].before(&all[a]));
    }
    if b < all.len() {
        assert(all[b - 1].before(&all[all.len() - 1]));
    }
}

} // verus!
