//! Per-vat, per-kind translation tables (CLists).
//!
//! A CList is a bijection between kernel-global identifiers of one kind and
//! one vat's local identifiers for them. Local identifiers are allocated
//! consecutively, only on the inbound path: a vat acquires a new local handle
//! exclusively by receiving it, never by manufacturing one. The entry
//! allocated `i`-th holds local id `i`, so the table is a vector of kernel
//! identifiers indexed by local id.

use vstd::prelude::*;

use crate::kernel_types::{Error, ObjectID, PromiseID, ResolverID};

verus! {

/// A kind of kernel-global identifier that a CList can hold: it can decide
/// equality of two of its values.
pub trait KernelKey: Sized + Copy {
    /// Executable equality, agreeing with equality of the values.
    fn same(&self, other: &Self) -> (r: bool)
        ensures
            r == (*self == *other),
    ;
}

impl KernelKey for ObjectID {
    fn same(&self, other: &Self) -> (r: bool) {
        self.owner.0 == other.owner.0 && self.index.0 == other.index.0
    }
}

impl KernelKey for PromiseID {
    fn same(&self, other: &Self) -> (r: bool) {
        self.0 == other.0
    }
}

impl KernelKey for ResolverID {
    fn same(&self, other: &Self) -> (r: bool) {
        self.0 == other.0
    }
}

/// No kernel identifier occurs twice, so local id and kernel id determine
/// each other: the table is a bijection.
pub open spec fn injective<K>(s: Seq<K>) -> bool {
    forall|i: int, j: int|
        0 <= i < s.len() && 0 <= j < s.len() && s[i] == s[j] ==> i == j
}

/// The table after presenting `k` inbound: unchanged if `k` is already
/// mapped, otherwise extended by one entry for `k`.
pub open spec fn inbound_seq<K>(s: Seq<K>, k: K) -> Seq<K> {
    if s.contains(k) {
        s
    } else {
        s.push(k)
    }
}

/// The local id returned for `k` presented inbound: the existing one if `k`
/// is already mapped, otherwise the next unused local id.
pub open spec fn inbound_index<K>(s: Seq<K>, k: K) -> int {
    if s.contains(k) {
        s.index_of(k)
    } else {
        s.len() as int
    }
}

/// What an outbound lookup of local id `l` yields: the kernel id recorded
/// under `l`, or a confinement violation if the vat was never given `l`.
pub open spec fn outbound_spec<K>(s: Seq<K>, l: int) -> Result<K, Error> {
    if 0 <= l < s.len() {
        Ok(s[l])
    } else {
        Err(Error::ConfinementViolation)
    }
}

/// Round trip: a kernel id presented inbound is recovered by mapping the
/// returned local id outbound.
pub proof fn lemma_inbound_outbound_round_trip<K>(s: Seq<K>, k: K)
    requires
        injective(s),
    ensures
        outbound_spec(inbound_seq(s, k), inbound_index(s, k)) == Ok::<K, Error>(k),
{
    if s.contains(k) {
        assert(0 <= s.index_of(k) < s.len() && s[s.index_of(k)] == k);
    } else {
        assert(inbound_seq(s, k)[s.len() as int] == k);
    }
}

/// Idempotence: presenting the same kernel id inbound twice returns the same
/// local id both times and allocates nothing the second time.
pub proof fn lemma_inbound_idempotent<K>(s: Seq<K>, k: K)
    requires
        injective(s),
    ensures
        inbound_seq(inbound_seq(s, k), k) == inbound_seq(s, k),
        inbound_index(inbound_seq(s, k), k) == inbound_index(s, k),
{
    let s1 = inbound_seq(s, k);
    if s.contains(k) {
        assert(s1 == s);
    } else {
        assert(s1[s.len() as int] == k);
        assert(s1.contains(k));
        assert(inbound_seq(s1, k) == s1);
        let j = s1.index_of(k);
        assert(0 <= j < s1.len() && s1[j] == k);
        if j < s.len() {
            assert(s[j] == k);
            assert(s.contains(k));
        }
        assert(j == s.len() as int);
    }
}

/// Confinement: an outbound lookup of a local id that was never allocated
/// fails with a confinement violation; it never fabricates a kernel id.
pub proof fn lemma_outbound_confinement<K>(s: Seq<K>, l: int)
    requires
        l < 0 || l >= s.len(),
    ensures
        outbound_spec(s, l) == Err::<K, Error>(Error::ConfinementViolation),
{
}

/// The inbound path preserves the bijection.
pub proof fn lemma_inbound_preserves_injective<K>(s: Seq<K>, k: K)
    requires
        injective(s),
    ensures
        injective(inbound_seq(s, k)),
{
    if !s.contains(k) {
        let s1 = s.push(k);
        assert forall|i: int, j: int|
            0 <= i < s1.len() && 0 <= j < s1.len() && s1[i] == s1[j] implies i == j by {
            if i < s.len() && j < s.len() {
            } else if i < s.len() && j == s.len() {
                assert(s[i] == k);
            } else if i == s.len() && j < s.len() {
                assert(s[j] == k);
            }
        }
    }
}

/// One vat's table for one kind of referent. Entry `i` is the kernel id that
/// local id `i` stands for.
pub struct CList<K> {
    entries: Vec<K>,
}

impl<K: KernelKey> CList<K> {
    /// The kernel ids in local-id order.
    pub closed spec fn view(&self) -> Seq<K> {
        self.entries@
    }

    /// The table is a bijection between its kernel ids and the local ids
    /// `0 .. len`.
    pub open spec fn wf(&self) -> bool {
        injective(self@)
    }

    /// An empty table.
    pub fn new() -> (r: Self)
        ensures
            r@ == Seq::<K>::empty(),
            r.wf(),
    {
        CList { entries: Vec::new() }
    }

    /// Translate a kernel id into this vat's local id space, allocating the
    /// next unused local id on first sight. Never fails.
    pub fn map_inbound(&mut self, k: K) -> (l: usize)
        requires
            old(self).wf(),
        ensures
            final(self).wf(),
            final(self)@ == inbound_seq(old(self)@, k),
            l == inbound_index(old(self)@, k),
            l < final(self)@.len() && final(self)@[l as int] == k,
    {
        proof {
            lemma_inbound_preserves_injective(self@, k);
        }
        let n = self.entries.len();
        let mut i: usize = 0;
        while i < n
            invariant
                self@ == old(self)@,
                old(self).wf(),
                n == self.entries.len(),
                i <= n,
                forall|j: int| 0 <= j < i ==> self.entries@[j] != k,
            decreases n - i,
        {
            if self.entries[i].same(&k) {
                proof {
                    assert(self@.contains(k));
                    let x = self@.index_of(k);
                    assert(0 <= x < self@.len() && self@[x] == k);
                    assert(self@[i as int] == k);
                }
                return i;
            }
            i += 1;
        }
        proof {
            assert forall|j: int| 0 <= j < self@.len() implies self@[j] != k by {}
            assert(!self@.contains(k));
        }
        self.entries.push(k);
        n
    }

    /// Translate a vat-supplied local id back to its kernel id. A local id
    /// never given to this vat is a confinement violation: it surfaces as a
    /// typed error and never yields a fabricated kernel id.
    pub fn map_outbound(&self, l: usize) -> (r: Result<K, Error>)
        ensures
            r == outbound_spec(self@, l as int),
    {
        if l < self.entries.len() {
            Ok(self.entries[l])
        } else {
            Err(Error::ConfinementViolation)
        }
    }

    /// Pre-register a mapping at configuration time, before any message
    /// traffic. Local ids stay consecutive, so the pre-registered local id is
    /// the next unused one, and the kernel id must be new to the table:
    /// anything else would break the bijection.
    pub fn add(&mut self, k: K, l: usize)
        requires
            old(self).wf(),
            l == old(self)@.len(),
            !old(self)@.contains(k),
        ensures
            final(self).wf(),
            final(self)@ == old(self)@.push(k),
    {
        proof {
            lemma_inbound_preserves_injective(self@, k);
        }
        self.entries.push(k);
    }

    /// The number of local ids allocated so far, which is also the next
    /// unused local id.
    pub fn len(&self) -> (n: usize)
        ensures
            n == self@.len(),
    {
        self.entries.len()
    }
}

} // verus!
