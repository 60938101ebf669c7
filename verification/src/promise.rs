//! The kernel-global promise/resolver table: the single source of truth for
//! every promise's resolution state and decision authority.
//!
//! A promise and its resolver are allocated together and share one counter,
//! so entry `i` is named by both `PromiseID(i)` and `ResolverID(i)`. An entry
//! starts unresolved with exactly one decider, and is settled at most once;
//! a committed resolution is immutable. The subscriber list records every vat
//! owed a terminal notification; it survives resolution so that no vat is
//! ever notified twice.

use vstd::prelude::*;

use crate::kernel_types::{
    CapData, CapSlot, PromiseID, Resolution, ResolutionView, ResolverID, VatID,
};

verus! {

/// Resolution state of one table entry.
#[derive(Debug)]
pub enum PromiseState {
    Unresolved { decider: VatID },
    Resolved { resolution: Resolution },
}

/// Abstraction of `PromiseState`.
pub enum PromiseStateView {
    Unresolved { decider: VatID },
    Resolved { resolution: ResolutionView },
}

impl View for PromiseState {
    type V = PromiseStateView;

    open spec fn view(&self) -> PromiseStateView {
        match self {
            PromiseState::Unresolved { decider } => PromiseStateView::Unresolved {
                decider: *decider,
            },
            PromiseState::Resolved { resolution } => PromiseStateView::Resolved {
                resolution: resolution@,
            },
        }
    }
}

/// One promise: who first allocated its handle, who is owed a notification,
/// and its resolution state.
#[derive(Debug)]
pub struct Promise {
    pub allocator: VatID,
    pub subscribers: Vec<VatID>,
    pub state: PromiseState,
}

/// Abstraction of `Promise`.
pub struct PromiseView {
    pub allocator: VatID,
    pub subscribers: Seq<VatID>,
    pub state: PromiseStateView,
}

impl View for Promise {
    type V = PromiseView;

    open spec fn view(&self) -> PromiseView {
        PromiseView {
            allocator: self.allocator,
            subscribers: self.subscribers@,
            state: self.state@,
        }
    }
}

/// A promise id is a live index of the table.
pub open spec fn promise_valid(ps: Seq<PromiseView>, p: PromiseID) -> bool {
    p.0 < ps.len()
}

/// The entry is unresolved.
pub open spec fn promise_unresolved(ps: Seq<PromiseView>, p: PromiseID) -> bool {
    promise_valid(ps, p) && ps[p.0 as int].state is Unresolved
}

/// The decider of an unresolved entry.
pub open spec fn promise_decider(ps: Seq<PromiseView>, p: PromiseID) -> VatID {
    ps[p.0 as int].state->Unresolved_decider
}

/// The table after committing resolution `r` on entry `p`: only the state of
/// that entry changes; allocator and subscribers are kept.
pub open spec fn commit_spec(ps: Seq<PromiseView>, p: PromiseID, r: ResolutionView) -> Seq<
    PromiseView,
> {
    ps.update(
        p.0 as int,
        PromiseView {
            allocator: ps[p.0 as int].allocator,
            subscribers: ps[p.0 as int].subscribers,
            state: PromiseStateView::Resolved { resolution: r },
        },
    )
}

/// The table after reassigning the decider of unresolved entry `p`.
pub open spec fn reassign_spec(ps: Seq<PromiseView>, p: PromiseID, new_decider: VatID) -> Seq<
    PromiseView,
> {
    ps.update(
        p.0 as int,
        PromiseView {
            allocator: ps[p.0 as int].allocator,
            subscribers: ps[p.0 as int].subscribers,
            state: PromiseStateView::Unresolved { decider: new_decider },
        },
    )
}

/// The table after recording `v`'s interest in entry `p`.
pub open spec fn subscribe_spec(ps: Seq<PromiseView>, p: PromiseID, v: VatID) -> Seq<PromiseView> {
    if ps[p.0 as int].subscribers.contains(v) {
        ps
    } else {
        ps.update(
            p.0 as int,
            PromiseView {
                allocator: ps[p.0 as int].allocator,
                subscribers: ps[p.0 as int].subscribers.push(v),
                state: ps[p.0 as int].state,
            },
        )
    }
}

/// How the delivery engine should treat a promise target: deliver to its
/// decider, follow a reference, or give up on a settled value.
#[derive(Clone, Copy, Debug, PartialEq, Eq, Structural)]
pub enum PromiseRouting {
    Decider(VatID),
    Forwarded(CapSlot),
    Settled,
}

/// Kernel-global record of every promise's resolution state and decision
/// authority.
pub struct PromiseTable {
    entries: Vec<Promise>,
}

impl PromiseTable {
    /// The entries in allocation order; entry `i` is promise `i` and
    /// resolver `i`.
    pub closed spec fn view(&self) -> Seq<PromiseView> {
        Seq::new(self.entries@.len(), |i: int| self.entries@[i]@)
    }

    /// An empty table.
    pub fn new() -> (r: Self)
        ensures
            r@ == Seq::<PromiseView>::empty(),
    {
        let t = PromiseTable { entries: Vec::new() };
        proof {
            assert(t@ =~= Seq::<PromiseView>::empty());
        }
        t
    }

    /// The number of entries, which is also the next id to be allocated.
    pub fn len(&self) -> (n: usize)
        ensures
            n == self@.len(),
    {
        self.entries.len()
    }

    /// Create an unresolved entry and return the linked promise/resolver
    /// pair. The decider is the vat authorized to settle it; the allocator is
    /// the vat that first created the local handle. No vat is subscribed yet.
    pub fn allocate_unresolved(&mut self, decider: VatID, allocator: VatID) -> (r: (
        PromiseID,
        ResolverID,
    ))
        ensures
            r.0.0 == old(self)@.len() && r.1.0 == old(self)@.len(),
            final(self)@ == old(self)@.push(
                PromiseView {
                    allocator: allocator,
                    subscribers: Seq::<VatID>::empty(),
                    state: PromiseStateView::Unresolved { decider: decider },
                },
            ),
    {
        let n = self.entries.len();
        self.entries.push(
            Promise {
                allocator,
                subscribers: Vec::new(),
                state: PromiseState::Unresolved { decider },
            },
        );
        proof {
            assert(self@ =~= old(self)@.push(
                PromiseView {
                    allocator: allocator,
                    subscribers: Seq::<VatID>::empty(),
                    state: PromiseStateView::Unresolved { decider: decider },
                },
            ));
        }
        (PromiseID(n), ResolverID(n))
    }

    /// The vat currently authorized to settle `p`, or nothing if `p` is
    /// settled already or names no entry.
    pub fn decider_of(&self, p: PromiseID) -> (r: Option<VatID>)
        ensures
            r == (if promise_unresolved(self@, p) {
                Some(promise_decider(self@, p))
            } else {
                None::<VatID>
            }),
    {
        if p.0 < self.entries.len() {
            match &self.entries[p.0].state {
                PromiseState::Unresolved { decider } => Some(*decider),
                PromiseState::Resolved { .. } => None,
            }
        } else {
            None
        }
    }

    /// A copy of the committed resolution of `p`, or nothing if `p` is still
    /// unresolved or names no entry.
    pub fn resolution_of(&self, p: PromiseID) -> (r: Option<Resolution>)
        ensures
            match r {
                Some(res) => promise_valid(self@, p) && !promise_unresolved(self@, p)
                    && self@[p.0 as int].state == (PromiseStateView::Resolved {
                    resolution: res@,
                }),
                None => !promise_valid(self@, p) || promise_unresolved(self@, p),
            },
    {
        if p.0 < self.entries.len() {
            match &self.entries[p.0].state {
                PromiseState::Unresolved { .. } => None,
                PromiseState::Resolved { resolution } => Some(copy_resolution(resolution)),
            }
        } else {
            None
        }
    }

    /// Commit a resolution: the single Unresolved to Resolved transition of
    /// entry `r`. Callers check authority first; the entry must still be
    /// unresolved, so a committed resolution is never overwritten.
    pub fn commit(&mut self, r: ResolverID, resolution: Resolution)
        requires
            promise_unresolved(old(self)@, PromiseID(r.0)),
        ensures
            final(self)@ == commit_spec(old(self)@, PromiseID(r.0), resolution@),
    {
        let entry = &mut self.entries[r.0];
        entry.state = PromiseState::Resolved { resolution };
        proof {
            assert(self@ =~= commit_spec(old(self)@, PromiseID(r.0), resolution@));
        }
    }

    /// Reassign the decider of the unresolved entry `p`.
    pub fn reassign_decider(&mut self, p: PromiseID, new_decider: VatID)
        requires
            promise_unresolved(old(self)@, p),
        ensures
            final(self)@ == reassign_spec(old(self)@, p, new_decider),
    {
        let entry = &mut self.entries[p.0];
        entry.state = PromiseState::Unresolved { decider: new_decider };
        proof {
            assert(self@ =~= reassign_spec(old(self)@, p, new_decider));
        }
    }

    /// Record `v`'s interest in entry `p`. Returns whether `v` was newly
    /// recorded; a vat already on the list is not recorded twice, so each
    /// subscriber is owed exactly one terminal notification.
    pub fn add_subscriber(&mut self, p: PromiseID, v: VatID) -> (added: bool)
        requires
            promise_valid(old(self)@, p),
        ensures
            final(self)@ == subscribe_spec(old(self)@, p, v),
            added == !old(self)@[p.0 as int].subscribers.contains(v),
    {
        let n = self.entries[p.0].subscribers.len();
        let mut i: usize = 0;
        while i < n
            invariant
                self@ == old(self)@,
                promise_valid(self@, p),
                p.0 < self.entries@.len(),
                n == self.entries@[p.0 as int].subscribers.len(),
                i <= n,
                forall|j: int| 0 <= j < i ==> self.entries@[p.0 as int].subscribers@[j] != v,
            decreases n - i,
        {
            if self.entries[p.0].subscribers[i].0 == v.0 {
                proof {
                    assert(self.entries@[p.0 as int].subscribers@.contains(v));
                    assert(self@ =~= subscribe_spec(old(self)@, p, v));
                }
                return false;
            }
            i += 1;
        }
        proof {
            assert(!self.entries@[p.0 as int].subscribers@.contains(v));
        }
        let entry = &mut self.entries[p.0];
        entry.subscribers.push(v);
        proof {
            assert(self@ =~= subscribe_spec(old(self)@, p, v));
        }
        true
    }

    /// How a delivery targeting `p` should be routed.
    pub fn routing_of(&self, p: PromiseID) -> (r: PromiseRouting)
        requires
            promise_valid(self@, p),
        ensures
            r == (match self@[p.0 as int].state {
                PromiseStateView::Unresolved { decider } => PromiseRouting::Decider(decider),
                PromiseStateView::Resolved { resolution } => match resolution {
                    ResolutionView::Reference(s) => PromiseRouting::Forwarded(s),
                    ResolutionView::Data(_) => PromiseRouting::Settled,
                    ResolutionView::Rejection(_) => PromiseRouting::Settled,
                },
            }),
    {
        match &self.entries[p.0].state {
            PromiseState::Unresolved { decider } => PromiseRouting::Decider(*decider),
            PromiseState::Resolved { resolution } => match resolution {
                Resolution::Reference(s) => PromiseRouting::Forwarded(*s),
                Resolution::Data(_) => PromiseRouting::Settled,
                Resolution::Rejection(_) => PromiseRouting::Settled,
            },
        }
    }

    /// The number of subscribers of entry `p`.
    pub fn subscriber_count(&self, p: PromiseID) -> (n: usize)
        requires
            promise_valid(self@, p),
        ensures
            n == self@[p.0 as int].subscribers.len(),
    {
        self.entries[p.0].subscribers.len()
    }

    /// The `i`-th subscriber of entry `p`, in subscription order.
    pub fn subscriber_at(&self, p: PromiseID, i: usize) -> (v: VatID)
        requires
            promise_valid(self@, p),
            i < self@[p.0 as int].subscribers.len(),
        ensures
            v == self@[p.0 as int].subscribers[i as int],
    {
        self.entries[p.0].subscribers[i]
    }
}

/// A verified copy of an opaque byte payload.
pub fn copy_bytes(v: &Vec<u8>) -> (r: Vec<u8>)
    ensures
        r@ == v@,
{
    let mut r: Vec<u8> = Vec::new();
    let n = v.len();
    let mut i: usize = 0;
    while i < n
        invariant
            n == v.len(),
            i <= n,
            r@ == v@.take(i as int),
        decreases n - i,
    {
        r.push(v[i]);
        proof {
            assert(r@ =~= v@.take(i as int + 1));
        }
        i += 1;
    }
    proof {
        assert(v@.take(n as int) =~= v@);
    }
    r
}

/// A verified copy of a kernel-level slot list.
pub fn copy_slots(v: &Vec<CapSlot>) -> (r: Vec<CapSlot>)
    ensures
        r@ == v@,
{
    let mut r: Vec<CapSlot> = Vec::new();
    let n = v.len();
    let mut i: usize = 0;
    while i < n
        invariant
            n == v.len(),
            i <= n,
            r@ == v@.take(i as int),
        decreases n - i,
    {
        r.push(v[i]);
        proof {
            assert(r@ =~= v@.take(i as int + 1));
        }
        i += 1;
    }
    proof {
        assert(v@.take(n as int) =~= v@);
    }
    r
}

/// A verified copy of a kernel-level payload.
pub fn copy_capdata(d: &CapData) -> (r: CapData)
    ensures
        r@ == d@,
{
    CapData { body: copy_bytes(&d.body), slots: copy_slots(&d.slots) }
}

/// A verified copy of a committed resolution, so that one resolution can be
/// reported to several subscribers.
pub fn copy_resolution(r: &Resolution) -> (r2: Resolution)
    ensures
        r2@ == r@,
{
    match r {
        Resolution::Reference(s) => Resolution::Reference(*s),
        Resolution::Data(d) => Resolution::Data(copy_capdata(d)),
        Resolution::Rejection(d) => Resolution::Rejection(copy_capdata(d)),
    }
}

} // verus!
