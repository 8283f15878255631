//! Compute tokens: a ceiling on concurrent gateway, job and actor work that the
//! workload governor can move at run time. This is the accounting; waiting for
//! a token to free up is the caller's business.
use vstd::prelude::*;

verus! {

/// Token accounting: the ceiling and the units held.
#[derive(Debug)]
pub struct ComputeTokens {
    max: usize,
    in_use: usize,
}

impl ComputeTokens {
    /// Current ceiling.
    pub closed spec fn ceiling(&self) -> usize {
        self.max
    }

    /// Units held.
    pub closed spec fn held(&self) -> usize {
        self.in_use
    }

    /// Allow up to `max_tokens` concurrent units (at least 1).
    pub fn new(max_tokens: usize) -> (t: Self)
        ensures
            t.ceiling() == (if max_tokens >= 1 { max_tokens } else { 1 }),
            t.held() == 0,
    {
        ComputeTokens { max: if max_tokens >= 1 { max_tokens } else { 1 }, in_use: 0 }
    }

    /// Current ceiling.
    pub fn max_tokens(&self) -> (m: usize)
        ensures
            m == self.ceiling(),
    {
        self.max
    }

    /// Units currently held.
    pub fn in_use(&self) -> (n: usize)
        ensures
            n == self.held(),
    {
        self.in_use
    }

    /// Move the ceiling (at least 1); held units are not taken back.
    pub fn set_max(&mut self, max_tokens: usize)
        ensures
            final(self).ceiling() == (if max_tokens >= 1 { max_tokens } else { 1 }),
            final(self).held() == old(self).held(),
    {
        self.max = if max_tokens >= 1 { max_tokens } else { 1 };
    }

    /// Reserve `weight` units (at least 1) when they fit under the ceiling;
    /// returns the units reserved, or `None` (nothing changes) when they do not fit.
    pub fn try_acquire_weighted(&mut self, weight: usize) -> (r: Option<usize>)
        ensures
            ({
                let w = if weight >= 1 { weight } else { 1 };
                if old(self).held() + w <= old(self).ceiling() {
                    &&& r == Some(w as usize)
                    &&& final(self).held() == old(self).held() + w
                    &&& final(self).ceiling() == old(self).ceiling()
                } else {
                    &&& r is None
                    &&& final(self).held() == old(self).held()
                    &&& final(self).ceiling() == old(self).ceiling()
                }
            }),
    {
        let w = if weight >= 1 { weight } else { 1 };
        if w <= self.max && self.in_use <= self.max - w {
            self.in_use = self.in_use + w;
            Some(w)
        } else {
            None
        }
    }

    /// Give back `weight` units taken by an earlier reservation.
    pub fn release(&mut self, weight: usize)
        requires
            weight <= old(self).held(),
        ensures
            final(self).held() == old(self).held() - weight,
            final(self).ceiling() == old(self).ceiling(),
    {
        self.in_use = self.in_use - weight;
    }
}

} // verus!
