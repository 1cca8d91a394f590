//! The byte accounting of the artifact cache: what its entries are charged
//! against its limit, and when it must evict before caching more.

use vstd::prelude::*;

verus! {

/// Bytes charged to a cache's entries, and the most it may hold.
pub struct CacheLedger {
    used: u64,
    limit: u64,
}

impl CacheLedger {
    /// Bytes charged so far.
    pub closed spec fn used(&self) -> nat {
        self.used as nat
    }

    /// The most bytes the cache may hold.
    pub closed spec fn limit(&self) -> nat {
        self.limit as nat
    }

    pub fn new(limit: u64) -> (r: Self)
        ensures
            r.used() == 0,
            r.limit() == limit,
    {
        CacheLedger { used: 0, limit }
    }

    /// Whether an entry of `size` bytes needs an eviction first: the cache
    /// still holds entries, and they with the new one would go over the limit.
    pub fn must_evict(&self, size: u64, has_entries: bool) -> (r: bool)
        ensures
            r == (has_entries && self.used() + size > self.limit()),
    {
        has_entries && (self.used as u128 + size as u128 > self.limit as u128)
    }

    /// Whether an entry of `size` bytes may be cached at all.
    pub fn admits(&self, size: u64) -> (r: bool)
        ensures
            r == (size <= self.limit()),
    {
        size <= self.limit
    }

    /// Charge an entry of `size` bytes.
    pub fn charge(&mut self, size: u64)
        requires
            old(self).used() + size <= u64::MAX,
        ensures
            final(self).used() == old(self).used() + size,
            final(self).limit() == old(self).limit(),
    {
        self.used = self.used + size;
    }

    /// Release an entry of `size` bytes; the charge never goes below zero.
    pub fn release(&mut self, size: u64)
        ensures
            final(self).used() == if old(self).used() >= size {
                (old(self).used() - size) as nat
            } else {
                0
            },
            final(self).limit() == old(self).limit(),
    {
        self.used = if self.used >= size {
            self.used - size
        } else {
            0
        };
    }

    /// Bytes charged so far.
    pub fn used_bytes(&self) -> (r: u64)
        ensures
            r == self.used(),
    {
        self.used
    }

    /// The most bytes the cache may hold.
    pub fn limit_bytes(&self) -> (r: u64)
        ensures
            r == self.limit(),
    {
        self.limit
    }
}

/// Releasing an entry undoes charging it.
pub proof fn lemma_release_undoes_charge(pre: CacheLedger, mid: CacheLedger, post: CacheLedger, size: u64)
    requires
        mid.used() == pre.used() + size,
        post.used() == if mid.used() >= size {
            (mid.used() - size) as nat
        } else {
            0
        },
    ensures
        post.used() == pre.used(),
{
}

/// Once no eviction is needed and the entry is admitted, charging it keeps a
/// cache that still holds entries within its limit.
pub proof fn lemma_admitted_insert_fits(pre: CacheLedger, post: CacheLedger, size: u64)
    requires
        !(pre.used() + size > pre.limit()),
        post.used() == pre.used() + size,
        post.limit() == pre.limit(),
    ensures
        post.used() <= post.limit(),
{
}

} // verus!
