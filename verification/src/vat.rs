//! The syscall surface: the operations a vat may invoke on the kernel,
//! executed synchronously within the calling vat's turn.
//!
//! A `VatSyscall` is a thin context naming the calling vat; it reaches the
//! shared kernel state only through a reference passed for the duration of
//! one call, so no syscall can trigger another delivery step while one is in
//! progress. Every operation either fails without touching the state, or
//! commits and appends at most to the tail of the run queue.

use vstd::prelude::*;

use crate::clist::outbound_spec;
use crate::kernel::{
    delivery_wf, kd_wf, lemma_delivery_wf_mono, lemma_promise_entry_wf_mono,
    lemma_promise_inbound_ok, lemma_resolver_inbound_ok, lemma_vd_valid_mono, notify_batch,
    promise_inbound, resolver_inbound, route_spec, vd_valid, vd_wf, KernelDataView, Route,
};
use crate::kernel_types::{
    CapSlot, DeliveryView, Error, KernelMessageView, PromiseID, ResolutionView, ResolverID,
    VatID,
};
use crate::map_outbound::{capdata_outbound, resolution_outbound, send_target_outbound};
use crate::promise::{
    promise_decider, promise_unresolved, reassign_spec, subscribe_spec, PromiseStateView,
    PromiseView,
};
use crate::vat_types::{
    OutboundVatMessageView, VatPromiseID, VatResolutionView, VatResolverID, VatSendTarget,
};

verus! {

/// The home vat of a fresh result promise: the routed destination of the
/// send's target. A target that routes nowhere leaves the sender itself as
/// decider; the delivery engine will reject the result promise when it
/// processes the delivery, so that decider is never exercised.
pub open spec fn result_decider(kd: KernelDataView, target: CapSlot, caller: VatID) -> VatID {
    match route_spec(kd.promises, target, kd.promises.len() as nat) {
        Route::ToObject(o) => o.owner,
        Route::ToPromise(_p, d) => d,
        Route::Dead => caller,
    }
}

/// State transition of allocating a result promise for a send: a fresh
/// unresolved entry whose allocator is the sender, subscribed by the sender
/// (a sender holding a result promise is owed its terminal notification),
/// and the sender's local handle on it.
pub open spec fn alloc_result_outcome(kd: KernelDataView, caller: VatID, decider: VatID) -> (
    (VatPromiseID, ResolverID),
    KernelDataView,
) {
    let pid = PromiseID(kd.promises.len() as usize);
    let rid = ResolverID(kd.promises.len() as usize);
    let entry = PromiseView {
        allocator: caller,
        subscribers: seq![caller],
        state: PromiseStateView::Unresolved { decider },
    };
    let vd = kd.vats[caller.0 as int];
    let r = promise_inbound(vd, pid);
    (
        (r.1, rid),
        KernelDataView {
            vats: kd.vats.update(caller.0 as int, r.0),
            promises: kd.promises.push(entry),
            ..kd
        },
    )
}

/// State transition and result of a send: the target and the arguments are
/// translated outbound (either can fail with a confinement violation,
/// leaving the state untouched), a result promise is allocated if asked for,
/// and exactly one delivery is appended to the run queue.
pub open spec fn send_outcome(
    kd: KernelDataView,
    caller: VatID,
    target: VatSendTarget,
    m: OutboundVatMessageView,
    want_result: bool,
) -> (Result<Option<VatPromiseID>, Error>, KernelDataView) {
    let vd = kd.vats[caller.0 as int];
    match send_target_outbound(vd, target) {
        Err(e) => (Err(e), kd),
        Ok(kt) => match capdata_outbound(vd, m.args) {
            Err(e) => (Err(e), kd),
            Ok(kargs) => {
                if want_result {
                    let decider = result_decider(kd, kt, caller);
                    let a = alloc_result_outcome(kd, caller, decider);
                    let lp = a.0.0;
                    let rid = a.0.1;
                    let kd1 = a.1;
                    let msg = KernelMessageView { name: m.name, args: kargs, resolver: Some(rid) };
                    (
                        Ok(Some(lp)),
                        KernelDataView {
                            queue: kd1.queue.push(DeliveryView::Deliver { target: kt, message: msg }),
                            ..kd1
                        },
                    )
                } else {
                    let msg = KernelMessageView { name: m.name, args: kargs, resolver: None };
                    (
                        Ok(None),
                        KernelDataView {
                            queue: kd.queue.push(DeliveryView::Deliver { target: kt, message: msg }),
                            ..kd
                        },
                    )
                }
            },
        },
    }
}

/// State transition and result of a standalone promise/resolver allocation:
/// a fresh unresolved entry decided by the caller, and the caller's local
/// handles on both capabilities.
pub open spec fn alloc_pr_outcome(kd: KernelDataView, caller: VatID) -> (
    (VatPromiseID, VatResolverID),
    KernelDataView,
) {
    let pid = PromiseID(kd.promises.len() as usize);
    let rid = ResolverID(kd.promises.len() as usize);
    let entry = PromiseView {
        allocator: caller,
        subscribers: Seq::<VatID>::empty(),
        state: PromiseStateView::Unresolved { decider: caller },
    };
    let vd = kd.vats[caller.0 as int];
    let r1 = promise_inbound(vd, pid);
    let r2 = resolver_inbound(r1.0, rid);
    (
        (r1.1, r2.1),
        KernelDataView {
            vats: kd.vats.update(caller.0 as int, r2.0),
            promises: kd.promises.push(entry),
            ..kd
        },
    )
}

/// State transition and result of a subscription: interest is recorded at
/// most once per vat; a vat subscribing to an already settled promise is
/// owed its notification at once, so one is enqueued immediately.
pub open spec fn subscribe_outcome(kd: KernelDataView, caller: VatID, vp: VatPromiseID) -> (
    Result<(), Error>,
    KernelDataView,
) {
    let vd = kd.vats[caller.0 as int];
    match outbound_spec(vd.promises, vp.0 as int) {
        Err(e) => (Err(e), kd),
        Ok(p) => {
            let entry = kd.promises[p.0 as int];
            let kd1 = KernelDataView { promises: subscribe_spec(kd.promises, p, caller), ..kd };
            if entry.subscribers.contains(caller) {
                (Ok(()), kd1)
            } else {
                match entry.state {
                    PromiseStateView::Resolved { resolution } => (
                        Ok(()),
                        KernelDataView {
                            queue: kd1.queue.push(
                                DeliveryView::Notify { vat: caller, promise: p, resolution },
                            ),
                            ..kd1
                        },
                    ),
                    PromiseStateView::Unresolved { .. } => (Ok(()), kd1),
                }
            }
        },
    }
}

/// State transition and result of a resolution operation. It succeeds if and
/// only if the caller holds the resolver and is its current decider and the
/// promise is still unresolved and the resolution's own references all map
/// outbound; then the resolution is committed exactly once and one
/// notification per subscriber is appended to the run queue, in subscription
/// order. Any failure leaves the state untouched.
pub open spec fn resolve_outcome(
    kd: KernelDataView,
    caller: VatID,
    vr: VatResolverID,
    res: VatResolutionView,
) -> (Result<(), Error>, KernelDataView) {
    let vd = kd.vats[caller.0 as int];
    match outbound_spec(vd.resolvers, vr.0 as int) {
        Err(e) => (Err(e), kd),
        Ok(krid) => {
            let p = PromiseID(krid.0);
            if !(promise_unresolved(kd.promises, p) && promise_decider(kd.promises, p)
                == caller) {
                (Err(Error::AuthorityViolation), kd)
            } else {
                match resolution_outbound(vd, res) {
                    Err(e) => (Err(e), kd),
                    Ok(kres) => (
                        Ok(()),
                        KernelDataView {
                            promises: crate::promise::commit_spec(kd.promises, p, kres),
                            queue: kd.queue + notify_batch(
                                kd.promises[p.0 as int].subscribers,
                                p,
                                kres,
                            ),
                            ..kd
                        },
                    ),
                }
            }
        },
    }
}

/// State transition and result of a forward: the decider of the caller's
/// resolver is reassigned to whoever currently decides the named promise.
/// The caller must hold and currently decide the resolver, and the named
/// promise must be held by the caller and still be undecided.
pub open spec fn forward_outcome(
    kd: KernelDataView,
    caller: VatID,
    vr: VatResolverID,
    vp: VatPromiseID,
) -> (Result<(), Error>, KernelDataView) {
    let vd = kd.vats[caller.0 as int];
    match outbound_spec(vd.resolvers, vr.0 as int) {
        Err(e) => (Err(e), kd),
        Ok(krid) => {
            let p1 = PromiseID(krid.0);
            if !(promise_unresolved(kd.promises, p1) && promise_decider(kd.promises, p1)
                == caller) {
                (Err(Error::AuthorityViolation), kd)
            } else {
                match outbound_spec(vd.promises, vp.0 as int) {
                    Err(e) => (Err(e), kd),
                    Ok(p2) => {
                        if !promise_unresolved(kd.promises, p2) {
                            (Err(Error::AuthorityViolation), kd)
                        } else {
                            (
                                Ok(()),
                                KernelDataView {
                                    promises: reassign_spec(
                                        kd.promises,
                                        p1,
                                        promise_decider(kd.promises, p2),
                                    ),
                                    ..kd
                                },
                            )
                        }
                    },
                }
            }
        },
    }
}

/// The kernel-provided capability through which one vat invokes syscalls: a
/// thin context naming the calling vat. It holds no reference of its own;
/// the kernel state is reached only through the reference passed to each
/// call.
pub struct VatSyscall {
    pub vat_id: VatID,
}

impl VatSyscall {
    /// A syscall context for the given vat.
    pub fn new(vat_id: VatID) -> (r: Self)
        ensures
            r.vat_id == vat_id,
    {
        VatSyscall { vat_id }
    }

}

/// Allocating a result promise preserves the kernel invariant.
pub(crate) proof fn lemma_alloc_wf(kd: KernelDataView, caller: VatID, decider: VatID)
    requires
        kd_wf(kd),
        kd.promises.len() <= usize::MAX as nat,
        caller.0 < kd.vats.len(),
        decider.0 < kd.vats.len(),
    ensures
        kd_wf(alloc_result_outcome(kd, caller, decider).1),
{
    let fin = alloc_result_outcome(kd, caller, decider).1;
    let nv = kd.vats.len() as int;
    let np = kd.promises.len() as int;
    let pid = PromiseID(kd.promises.len() as usize);
    assert(pid.0 as int == np);
    assert forall|i: int| 0 <= i < fin.vats.len() implies (#[trigger] fin.vats[i]).id == VatID(
        i as usize,
    ) && vd_wf(fin.vats[i]) && vd_valid(fin.vats[i], nv, np + 1) by {
        if i == caller.0 as int {
            lemma_vd_valid_mono(kd.vats[i], nv, np, np + 1);
            lemma_promise_inbound_ok(kd.vats[i], pid, nv, np + 1);
        } else {
            lemma_vd_valid_mono(kd.vats[i], nv, np, np + 1);
        }
    }
    assert forall|i: int| 0 <= i < fin.promises.len() implies crate::kernel::promise_entry_wf(
        #[trigger] fin.promises[i],
        nv,
        np + 1,
    ) by {
        if i < np {
            lemma_promise_entry_wf_mono(kd.promises[i], nv, np, np + 1);
        } else {
            assert(fin.promises[i].subscribers == seq![caller]);
            assert(crate::clist::injective(seq![caller]));
        }
    }
    assert forall|i: int| 0 <= i < fin.queue.len() implies delivery_wf(
        #[trigger] fin.queue[i],
        nv,
        np + 1,
    ) by {
        lemma_delivery_wf_mono(kd.queue[i], nv, np, np + 1);
    }
}

/// Allocating a standalone promise/resolver pair preserves the kernel
/// invariant.
pub(crate) proof fn lemma_alloc_pr_wf(kd: KernelDataView, caller: VatID)
    requires
        kd_wf(kd),
        kd.promises.len() <= usize::MAX as nat,
        caller.0 < kd.vats.len(),
    ensures
        kd_wf(alloc_pr_outcome(kd, caller).1),
{
    let fin = alloc_pr_outcome(kd, caller).1;
    let nv = kd.vats.len() as int;
    let np = kd.promises.len() as int;
    let pid = PromiseID(kd.promises.len() as usize);
    let rid = ResolverID(kd.promises.len() as usize);
    assert(pid.0 as int == np);
    assert forall|i: int| 0 <= i < fin.vats.len() implies (#[trigger] fin.vats[i]).id == VatID(
        i as usize,
    ) && vd_wf(fin.vats[i]) && vd_valid(fin.vats[i], nv, np + 1) by {
        lemma_vd_valid_mono(kd.vats[i], nv, np, np + 1);
        if i == caller.0 as int {
            lemma_promise_inbound_ok(kd.vats[i], pid, nv, np + 1);
            lemma_resolver_inbound_ok(promise_inbound(kd.vats[i], pid).0, rid, nv, np + 1);
        }
    }
    assert forall|i: int| 0 <= i < fin.promises.len() implies crate::kernel::promise_entry_wf(
        #[trigger] fin.promises[i],
        nv,
        np + 1,
    ) by {
        if i < np {
            lemma_promise_entry_wf_mono(kd.promises[i], nv, np, np + 1);
        }
    }
    assert forall|i: int| 0 <= i < fin.queue.len() implies delivery_wf(
        #[trigger] fin.queue[i],
        nv,
        np + 1,
    ) by {
        lemma_delivery_wf_mono(kd.queue[i], nv, np, np + 1);
    }
}

/// The notifications addressed at `v` about promise `p` in a queue segment.
pub open spec fn count_notifies_to(q: Seq<DeliveryView>, v: VatID, p: PromiseID) -> int
    decreases q.len(),
{
    if q.len() == 0 {
        0
    } else {
        count_notifies_to(q.drop_last(), v, p) + (match q.last() {
            DeliveryView::Notify { vat, promise, .. } => if vat == v && promise == p {
                1int
            } else {
                0int
            },
            _ => 0int,
        })
    }
}

/// A batch of notifications over distinct subscribers notifies each
/// subscriber exactly once and everyone else not at all.
proof fn lemma_batch_count(subs: Seq<VatID>, p: PromiseID, res: ResolutionView, v: VatID)
    requires
        crate::clist::injective(subs),
    ensures
        count_notifies_to(notify_batch(subs, p, res), v, p) == if subs.contains(v) {
            1int
        } else {
            0int
        },
    decreases subs.len(),
{
    if subs.len() == 0 {
        assert(!subs.contains(v));
    } else {
        let init = subs.drop_last();
        assert(forall|i: int, j: int|
            0 <= i < init.len() && 0 <= j < init.len() && init[i] == init[j] ==> i == j);
        lemma_batch_count(init, p, res, v);
        assert(notify_batch(subs, p, res).drop_last() =~= notify_batch(init, p, res));
        assert(notify_batch(subs, p, res).last() == (DeliveryView::Notify {
            vat: subs.last(),
            promise: p,
            resolution: res,
        }));
        if subs.last() == v {
            assert(subs.contains(v));
            assert forall|i: int| 0 <= i < init.len() implies init[i] != v by {
                assert(subs[i] == init[i]);
                assert(subs[subs.len() - 1] == v);
            }
            assert(!init.contains(v));
        } else {
            if subs.contains(v) {
                let w = choose|i: int| 0 <= i < subs.len() && subs[i] == v;
                assert(init[w] == v);
                assert(init.contains(v));
            }
        }
    }
}

/// Notification completeness: a successful resolution appends exactly one
/// terminal notification per subscribed vat, in subscription order, each
/// carrying the committed resolution; a vat subscribed to the promise is
/// notified exactly once and a vat that never subscribed not at all.
pub proof fn lemma_notification_completeness(
    kd: KernelDataView,
    caller: VatID,
    vr: VatResolverID,
    res: VatResolutionView,
    krid: ResolverID,
    v: VatID,
)
    requires
        kd_wf(kd),
        caller.0 < kd.vats.len(),
        outbound_spec(kd.vats[caller.0 as int].resolvers, vr.0 as int) == Ok::<ResolverID, Error>(
            krid,
        ),
        resolve_outcome(kd, caller, vr, res).0 is Ok,
    ensures
        resolve_outcome(kd, caller, vr, res).1.queue == kd.queue + notify_batch(
            kd.promises[krid.0 as int].subscribers,
            PromiseID(krid.0),
            resolution_outbound(kd.vats[caller.0 as int], res)->Ok_0,
        ),
        count_notifies_to(
            resolve_outcome(kd, caller, vr, res).1.queue.skip(kd.queue.len() as int),
            v,
            PromiseID(krid.0),
        ) == if kd.promises[krid.0 as int].subscribers.contains(v) {
            1int
        } else {
            0int
        },
{
    let p = PromiseID(krid.0);
    let subs = kd.promises[krid.0 as int].subscribers;
    let kres = resolution_outbound(kd.vats[caller.0 as int], res)->Ok_0;
    assert(resolve_outcome(kd, caller, vr, res).1.queue == kd.queue + notify_batch(
        subs,
        p,
        kres,
    ));
    assert((kd.queue + notify_batch(subs, p, kres)).skip(kd.queue.len() as int) =~= notify_batch(
        subs,
        p,
        kres,
    ));
    assert(crate::promise::promise_unresolved(kd.promises, p));
    assert(crate::kernel::promise_entry_wf(
        kd.promises[krid.0 as int],
        kd.vats.len() as int,
        kd.promises.len() as int,
    ));
    lemma_batch_count(subs, p, kres, v);
}

/// Single resolution: once a resolver has settled its promise, every later
/// resolution attempt through any handle on the same resolver fails with an
/// authority violation, and the committed resolution stands.
pub proof fn lemma_single_resolution(
    kd: KernelDataView,
    caller: VatID,
    vr: VatResolverID,
    res: VatResolutionView,
    caller2: VatID,
    vr2: VatResolverID,
    res2: VatResolutionView,
)
    requires
        resolve_outcome(kd, caller, vr, res).0 is Ok,
        outbound_spec(kd.vats[caller2.0 as int].resolvers, vr2.0 as int) == outbound_spec(
            kd.vats[caller.0 as int].resolvers,
            vr.0 as int,
        ),
    ensures
        resolve_outcome(resolve_outcome(kd, caller, vr, res).1, caller2, vr2, res2).0 == Err::<
            (),
            Error,
        >(Error::AuthorityViolation),
{
    let kd1 = resolve_outcome(kd, caller, vr, res).1;
    assert(kd1.vats == kd.vats);
    let krid = outbound_spec(kd.vats[caller.0 as int].resolvers, vr.0 as int)->Ok_0;
    let p = PromiseID(krid.0);
    assert(kd1.promises == crate::promise::commit_spec(
        kd.promises,
        p,
        resolution_outbound(kd.vats[caller.0 as int], res)->Ok_0,
    ));
    assert(kd1.promises[p.0 as int].state is Resolved);
    assert(!crate::promise::promise_unresolved(kd1.promises, p));
}

} // verus!
