//! Numbered pages of a listing.

use vstd::prelude::*;

verus! {

/// Which page of a listing is asked for. Pages are numbered from one; page
/// zero is read as page one.
#[derive(Clone, Copy, Debug, PartialEq, Eq, Structural)]
pub struct Page {
    pub page: u32,
    pub per_page: u32,
}

/// One page of a listing.
#[derive(Debug)]
pub struct PageResult<T> {
    pub page: u32,
    pub per_page: u32,
    /// The number of pages that hold an item.
    pub total_pages: u64,
    /// The number of items in the whole listing.
    pub total_items: u64,
    pub items: Vec<T>,
}

impl Page {
    /// The number of items that stand before the page.
    pub open spec fn spec_offset(self) -> int {
        if self.page == 0 {
            0
        } else {
            (self.page - 1) * self.per_page
        }
    }

    /// The number of pages that `total_items` items fill: `total_items /
    /// per_page`, rounded up; none when a page holds nothing.
    pub open spec fn spec_total_pages(self, total_items: int) -> int {
        if self.per_page == 0 {
            0
        } else {
            (total_items + self.per_page - 1) / (self.per_page as int)
        }
    }

    /// The page `page` of a listing with `per_page` items to a page.
    pub fn new(page: u32, per_page: u32) -> (r: Page)
        ensures
            r == (Page { page, per_page }),
    {
        Page { page, per_page }
    }

    /// The number of items that stand before the page.
    pub fn offset(&self) -> (n: u64)
        ensures
            n == self.spec_offset(),
    {
        if self.page == 0 {
            0
        } else {
            let ahead = (self.page - 1) as u64;
            assert(ahead * self.per_page <= 0xffff_ffff * 0xffff_ffff) by (nonlinear_arith)
                requires
                    ahead <= 0xffff_ffff,
                    self.per_page <= 0xffff_ffff,
            ;
            ahead * (self.per_page as u64)
        }
    }

    /// The most items that the page holds.
    pub fn limit(&self) -> (n: u64)
        ensures
            n == self.per_page,
    {
        self.per_page as u64
    }

    /// The page with its items, of a listing of `total_items` items.
    pub fn new_result<T>(&self, items: Vec<T>, total_items: u64) -> (r: PageResult<T>)
        ensures
            r.page == self.page,
            r.per_page == self.per_page,
            r.total_items == total_items,
            r.total_pages == self.spec_total_pages(total_items as int),
            r.items == items,
    {
        let total_pages = if self.per_page == 0 {
            0
        } else {
            let per = self.per_page as u64;
            let whole = total_items / per;
            let rest = total_items % per;
            proof {
                vstd::arithmetic::div_mod::lemma_fundamental_div_mod(total_items as int, per as int);
                lemma_round_up(total_items as int, per as int);
            }
            if rest == 0 {
                whole
            } else {
                assert(whole < u64::MAX) by (nonlinear_arith)
                    requires
                        total_items == per * whole + rest,
                        rest > 0,
                        per >= 1,
                        whole >= 0,
                        total_items <= u64::MAX,
                ;
                whole + 1
            }
        };
        PageResult {
            page: self.page,
            per_page: self.per_page,
            total_pages,
            total_items,
            items,
        }
    }
}

/// Division that rounds up, by the quotient and the remainder.
pub proof fn lemma_round_up(x: int, d: int)
    requires
        0 <= x,
        0 < d,
    ensures
        (x + d - 1) / d == if x % d == 0 {
            x / d
        } else {
            x / d + 1
        },
{
    let q = x / d;
    let r = x % d;
    vstd::arithmetic::div_mod::lemma_fundamental_div_mod(x, d);
    vstd::arithmetic::div_mod::lemma_mod_bound(x, d);
    assert(d * q == q * d) by (nonlinear_arith);
    assert((q + 1) * d == q * d + d) by (nonlinear_arith);
    if r == 0 {
        vstd::arithmetic::div_mod::lemma_fundamental_div_mod_converse(x + d - 1, d, q, d - 1);
    } else {
        vstd::arithmetic::div_mod::lemma_fundamental_div_mod_converse(x + d - 1, d, q + 1, r - 1);
    }
}

} // verus!
