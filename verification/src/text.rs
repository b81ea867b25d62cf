//! Search for a quoted tag in serialized text, on UTF-8 bytes.

use vstd::prelude::*;
use vstd::slice::*;

verus! {

/// Whether `needle` stands in `hay` at offset `i`.
pub open spec fn occurs_at(hay: Seq<u8>, needle: Seq<u8>, i: int) -> bool {
    0 <= i && i + needle.len() <= hay.len() && hay.subrange(i, i + needle.len()) == needle
}

/// Whether `needle` stands somewhere in `hay`.
pub open spec fn occurs(hay: Seq<u8>, needle: Seq<u8>) -> bool {
    exists|i: int| occurs_at(hay, needle, i)
}

/// The tag between double quotes, as it stands in serialized text.
pub open spec fn quoted(tag: Seq<u8>) -> Seq<u8> {
    seq![34u8] + tag + seq![34u8]
}

/// Whether the quoted tag stands in `hay` at offset `i`.
fn quoted_at(hay: &[u8], tag: &[u8], i: usize) -> (b: bool)
    requires
        i + tag@.len() + 2 <= hay@.len(),
    ensures
        b == occurs_at(hay@, quoted(tag@), i as int),
{
    let ghost needle = quoted(tag@);
    let ghost part = hay@.subrange(i as int, i + needle.len());
    if hay[i] != 34u8 {
        assert(part[0] != needle[0]);
        return false;
    }
    let n = tag.len();
    let mut k: usize = 0;
    while k < n
        invariant
            k <= n,
            n == tag@.len(),
            i + n + 2 <= hay@.len(),
            hay@.len() <= usize::MAX,
            needle == quoted(tag@),
            part == hay@.subrange(i as int, i + needle.len()),
            forall|j: int| 0 <= j < k ==> hay@[i + 1 + j] == tag@[j],
        decreases n - k,
    {
        if hay[i + 1 + k] != tag[k] {
            assert(part[1 + k] != needle[1 + k]);
            return false;
        }
        k += 1;
    }
    if hay[i + 1 + n] != 34u8 {
        assert(part[1 + n] != needle[1 + n]);
        return false;
    }
    assert(part =~= needle);
    true
}

/// Whether the tag stands between double quotes somewhere in `hay`.
pub fn has_tag(hay: &[u8], tag: &[u8]) -> (b: bool)
    ensures
        b == occurs(hay@, quoted(tag@)),
{
    let ghost needle = quoted(tag@);
    if tag.len() > hay.len() || hay.len() - tag.len() < 2 {
        assert forall|i: int| !occurs_at(hay@, needle, i) by {}
        return false;
    }
    let last = hay.len() - tag.len() - 2;
    let mut i: usize = 0;
    while i <= last
        invariant
            i <= last + 1,
            last + tag@.len() + 2 == hay@.len(),
            hay@.len() <= usize::MAX,
            needle == quoted(tag@),
            forall|j: int| 0 <= j < i ==> !occurs_at(hay@, needle, j),
        decreases last + 1 - i,
    {
        if quoted_at(hay, tag, i) {
            assert(occurs_at(hay@, needle, i as int));
            return true;
        }
        i += 1;
    }
    assert forall|j: int| !occurs_at(hay@, needle, j) by {}
    false
}

} // verus!
