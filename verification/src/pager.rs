//! Pagination parameters accepted at the boundary and the offset they denote.

use vstd::prelude::*;

verus! {

pub const DEFAULT_PAGE_SIZE: u64 = 10;

pub const MAXIMUM_PAGE_SIZE: u64 = 50;

pub const MAXIMUM_PAGE_NUM: u64 = 65535;

#[derive(Clone, Copy, Debug)]
pub struct Pager {
    pub page_num: u64,
    pub page_size: u64,
}

impl Pager {
    /// The range the boundary accepts: both fields are one-based and bounded.
    pub open spec fn wf(self) -> bool {
        &&& 1 <= self.page_num <= MAXIMUM_PAGE_NUM
        &&& 1 <= self.page_size <= MAXIMUM_PAGE_SIZE
    }

    pub fn is_valid(&self) -> (r: bool)
        ensures
            r == self.wf(),
    {
        1 <= self.page_num && self.page_num <= MAXIMUM_PAGE_NUM && 1 <= self.page_size
            && self.page_size <= MAXIMUM_PAGE_SIZE
    }

    pub fn offset(&self) -> (r: u64)
        requires
            self.wf(),
        ensures
            r == (self.page_num - 1) * self.page_size,
    {
        proof {
            assert((self.page_num - 1) * self.page_size <= 65534 * 50) by (nonlinear_arith)
                requires
                    1 <= self.page_num <= 65535,
                    1 <= self.page_size <= 50,
            ;
        }
        (self.page_num - 1) * self.page_size
    }
}

impl Default for Pager {
    fn default() -> (r: Self)
        ensures
            r.page_num == 1,
            r.page_size == DEFAULT_PAGE_SIZE,
            r.wf(),
    {
        Pager { page_num: 1, page_size: DEFAULT_PAGE_SIZE }
    }
}

} // verus!
