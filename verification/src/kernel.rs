//! The kernel: per-vat data, the shared kernel state, and the delivery
//! engine.
//!
//! Inbound translation (kernel-global identifiers entering a vat) is where
//! local identifiers are allocated: a vat can only acquire a new handle by
//! receiving it. Inbound translation therefore never fails. The one special
//! case is an object returning home: its kernel-global index already is the
//! owning vat's export index, so the translation is the identity and touches
//! no table.

use vstd::prelude::*;

use crate::clist::{inbound_index, inbound_seq, injective, outbound_spec, CList};
use crate::kernel_types::{
    CapData, CapDataView, CapSlot, DeliveryView, Error, KernelExportID, KernelMessage,
    KernelMessageView, ObjectID, PendingDelivery, PromiseID, Resolution, ResolutionView,
    ResolverID, VatID, VatName,
};
use crate::promise::{PromiseStateView, PromiseTable, PromiseView};
use crate::dispatch::Dispatch;
use crate::vat_types::{
    InboundVatMessage, InboundVatMessageView, VatArgSlot, VatCapData, VatCapDataView,
    VatDeliverTarget, VatExportID, VatImportID, VatPromiseID, VatResolution,
    VatResolutionView, VatResolverID,
};

verus! {

/// One vat's bundle: its identity and one CList per addressable kind.
pub struct VatData {
    vat_id: VatID,
    import_clist: CList<ObjectID>,
    promise_clist: CList<PromiseID>,
    resolver_clist: CList<ResolverID>,
}

/// Abstraction of `VatData`: the vat's identity and the three tables.
pub struct VatDataView {
    pub id: VatID,
    pub imports: Seq<ObjectID>,
    pub promises: Seq<PromiseID>,
    pub resolvers: Seq<ResolverID>,
}

impl View for VatData {
    type V = VatDataView;

    closed spec fn view(&self) -> VatDataView {
        VatDataView {
            id: self.vat_id,
            imports: self.import_clist@,
            promises: self.promise_clist@,
            resolvers: self.resolver_clist@,
        }
    }
}

/// Every table of the vat is a bijection.
pub open spec fn vd_wf(vd: VatDataView) -> bool {
    injective(vd.imports) && injective(vd.promises) && injective(vd.resolvers)
}

/// One kernel-level slot entering the vat: the vat's own object comes home by
/// its export index without touching any table; another vat's object becomes
/// an import; a promise becomes a local promise handle.
pub open spec fn slot_inbound(vd: VatDataView, slot: CapSlot) -> (VatDataView, VatArgSlot) {
    match slot {
        CapSlot::Object(o) => {
            if o.owner == vd.id {
                (vd, VatArgSlot::Export(VatExportID(o.index.0)))
            } else {
                (
                    VatDataView { imports: inbound_seq(vd.imports, o), ..vd },
                    VatArgSlot::Import(VatImportID(inbound_index(vd.imports, o) as usize)),
                )
            }
        },
        CapSlot::Promise(p) => (
            VatDataView { promises: inbound_seq(vd.promises, p), ..vd },
            VatArgSlot::Promise(VatPromiseID(inbound_index(vd.promises, p) as usize)),
        ),
    }
}

/// A slot list entering the vat, translated left to right.
pub open spec fn slots_inbound(vd: VatDataView, slots: Seq<CapSlot>) -> (
    VatDataView,
    Seq<VatArgSlot>,
)
    decreases slots.len(),
{
    if slots.len() == 0 {
        (vd, Seq::<VatArgSlot>::empty())
    } else {
        let (vd1, out1) = slots_inbound(vd, slots.drop_last());
        let (vd2, a) = slot_inbound(vd1, slots.last());
        (vd2, out1.push(a))
    }
}

/// A payload entering the vat: the body is opaque and kept as it is; the
/// slots are translated in order.
pub open spec fn capdata_inbound(vd: VatDataView, d: CapDataView) -> (
    VatDataView,
    VatCapDataView,
) {
    let (vd1, s) = slots_inbound(vd, d.slots);
    (vd1, VatCapDataView { body: d.body, slots: s })
}

/// A resolver entering the vat.
pub open spec fn resolver_inbound(vd: VatDataView, r: ResolverID) -> (VatDataView, VatResolverID) {
    (
        VatDataView { resolvers: inbound_seq(vd.resolvers, r), ..vd },
        VatResolverID(inbound_index(vd.resolvers, r) as usize),
    )
}

/// A promise entering the vat by id.
pub open spec fn promise_inbound(vd: VatDataView, p: PromiseID) -> (VatDataView, VatPromiseID) {
    (
        VatDataView { promises: inbound_seq(vd.promises, p), ..vd },
        VatPromiseID(inbound_index(vd.promises, p) as usize),
    )
}

/// A whole message entering the vat: arguments first, then the optional
/// resolver.
pub open spec fn message_inbound(vd: VatDataView, m: KernelMessageView) -> (
    VatDataView,
    InboundVatMessageView,
) {
    let (vd1, args) = capdata_inbound(vd, m.args);
    match m.resolver {
        Some(kr) => {
            let (vd2, vr) = resolver_inbound(vd1, kr);
            (vd2, InboundVatMessageView { name: m.name, args: args, resolver: Some(vr) })
        },
        None => (vd1, InboundVatMessageView { name: m.name, args: args, resolver: None }),
    }
}

/// A terminal resolution entering the vat, reported in local terms.
pub open spec fn resolution_inbound(vd: VatDataView, r: ResolutionView) -> (
    VatDataView,
    VatResolutionView,
) {
    match r {
        ResolutionView::Reference(s) => {
            let (vd1, a) = slot_inbound(vd, s);
            (vd1, VatResolutionView::Reference(a))
        },
        ResolutionView::Data(d) => {
            let (vd1, a) = capdata_inbound(vd, d);
            (vd1, VatResolutionView::Data(a))
        },
        ResolutionView::Rejection(d) => {
            let (vd1, a) = capdata_inbound(vd, d);
            (vd1, VatResolutionView::Rejection(a))
        },
    }
}

/// Inbound translation preserves the bijections.
pub proof fn lemma_slot_inbound_wf(vd: VatDataView, slot: CapSlot)
    requires
        vd_wf(vd),
    ensures
        vd_wf(slot_inbound(vd, slot).0),
        slot_inbound(vd, slot).0.id == vd.id,
        slot_inbound(vd, slot).0.resolvers == vd.resolvers,
{
    match slot {
        CapSlot::Object(o) => {
            crate::clist::lemma_inbound_preserves_injective(vd.imports, o);
        },
        CapSlot::Promise(p) => {
            crate::clist::lemma_inbound_preserves_injective(vd.promises, p);
        },
    }
}

/// Translating a slot list preserves the bijections and the vat's identity.
pub proof fn lemma_slots_inbound_wf(vd: VatDataView, slots: Seq<CapSlot>)
    requires
        vd_wf(vd),
    ensures
        vd_wf(slots_inbound(vd, slots).0),
        slots_inbound(vd, slots).0.id == vd.id,
        slots_inbound(vd, slots).0.resolvers == vd.resolvers,
        slots_inbound(vd, slots).1.len() == slots.len(),
    decreases slots.len(),
{
    if slots.len() > 0 {
        lemma_slots_inbound_wf(vd, slots.drop_last());
        lemma_slot_inbound_wf(slots_inbound(vd, slots.drop_last()).0, slots.last());
    }
}

impl VatData {
    /// A fresh bundle with empty tables.
    pub fn new(vat_id: VatID) -> (r: Self)
        ensures
            r@ == (VatDataView {
                id: vat_id,
                imports: Seq::<ObjectID>::empty(),
                promises: Seq::<PromiseID>::empty(),
                resolvers: Seq::<ResolverID>::empty(),
            }),
            vd_wf(r@),
    {
        VatData {
            vat_id,
            import_clist: CList::new(),
            promise_clist: CList::new(),
            resolver_clist: CList::new(),
        }
    }

    /// The vat this bundle belongs to.
    pub fn id(&self) -> (r: VatID)
        ensures
            r == self@.id,
    {
        self.vat_id
    }

    /// Translate one argument slot into this vat's local terms, allocating on
    /// first sight. The vat's own export comes home by its index alone.
    pub fn map_inbound_arg_slot(&mut self, slot: CapSlot) -> (r: VatArgSlot)
        requires
            vd_wf(old(self)@),
        ensures
            vd_wf(final(self)@),
            final(self)@ == slot_inbound(old(self)@, slot).0,
            r == slot_inbound(old(self)@, slot).1,
    {
        proof {
            lemma_slot_inbound_wf(self@, slot);
        }
        match slot {
            CapSlot::Object(o) => {
                if o.owner.0 == self.vat_id.0 {
                    VatArgSlot::Export(VatExportID(o.index.0))
                } else {
                    VatArgSlot::Import(VatImportID(self.import_clist.map_inbound(o)))
                }
            },
            CapSlot::Promise(p) => {
                VatArgSlot::Promise(VatPromiseID(self.promise_clist.map_inbound(p)))
            },
        }
    }

    /// Translate a resolver into this vat's local terms, allocating on first
    /// sight.
    pub fn map_inbound_resolver(&mut self, krid: ResolverID) -> (r: VatResolverID)
        requires
            vd_wf(old(self)@),
        ensures
            vd_wf(final(self)@),
            final(self)@ == resolver_inbound(old(self)@, krid).0,
            r == resolver_inbound(old(self)@, krid).1,
    {
        proof {
            crate::clist::lemma_inbound_preserves_injective(self@.resolvers, krid);
        }
        VatResolverID(self.resolver_clist.map_inbound(krid))
    }

    /// Translate a promise into this vat's local terms, allocating on first
    /// sight.
    pub fn map_inbound_promise(&mut self, kpid: PromiseID) -> (r: VatPromiseID)
        requires
            vd_wf(old(self)@),
        ensures
            vd_wf(final(self)@),
            final(self)@ == promise_inbound(old(self)@, kpid).0,
            r == promise_inbound(old(self)@, kpid).1,
    {
        proof {
            crate::clist::lemma_inbound_preserves_injective(self@.promises, kpid);
        }
        VatPromiseID(self.promise_clist.map_inbound(kpid))
    }

    /// Translate a vat-supplied resolver handle back to kernel terms. A
    /// handle the vat was never given is a confinement violation.
    pub fn map_outbound_resolver(&self, vrid: VatResolverID) -> (r: Result<ResolverID, Error>)
        ensures
            r == outbound_spec(self@.resolvers, vrid.0 as int),
    {
        self.resolver_clist.map_outbound(vrid.0)
    }

    /// Translate a vat-supplied import handle back to kernel terms.
    pub fn map_outbound_import(&self, viid: VatImportID) -> (r: Result<ObjectID, Error>)
        ensures
            r == outbound_spec(self@.imports, viid.0 as int),
    {
        self.import_clist.map_outbound(viid.0)
    }

    /// Translate a vat-supplied promise handle back to kernel terms.
    pub fn map_outbound_promise_handle(&self, vpid: VatPromiseID) -> (r: Result<PromiseID, Error>)
        ensures
            r == outbound_spec(self@.promises, vpid.0 as int),
    {
        self.promise_clist.map_outbound(vpid.0)
    }

    /// Pre-register an import at configuration time; the local id is the next
    /// unused one and the object must be new to this vat.
    pub fn add_import(&mut self, o: ObjectID, l: VatImportID)
        requires
            vd_wf(old(self)@),
            l.0 == old(self)@.imports.len(),
            !old(self)@.imports.contains(o),
        ensures
            vd_wf(final(self)@),
            final(self)@ == (VatDataView { imports: old(self)@.imports.push(o), ..old(self)@ }),
    {
        proof {
            crate::clist::lemma_inbound_preserves_injective(self@.imports, o);
        }
        self.import_clist.add(o, l.0);
    }

    /// The number of import handles this vat holds; also the next unused
    /// import id.
    pub fn import_count(&self) -> (n: usize)
        ensures
            n == self@.imports.len(),
    {
        self.import_clist.len()
    }

    /// Translate a payload entering this vat: body kept, slots translated in
    /// order.
    pub fn map_inbound_capdata(&mut self, data: CapData) -> (r: VatCapData)
        requires
            vd_wf(old(self)@),
        ensures
            vd_wf(final(self)@),
            final(self)@ == capdata_inbound(old(self)@, data@).0,
            r@ == capdata_inbound(old(self)@, data@).1,
    {
        let CapData { body, slots } = data;
        let ghost all = slots@;
        let mut out: Vec<VatArgSlot> = Vec::new();
        let n = slots.len();
        let mut i: usize = 0;
        while i < n
            invariant
                vd_wf(old(self)@),
                n == slots.len(),
                i <= n,
                vd_wf(self@),
                self@ == slots_inbound(old(self)@, slots@.take(i as int)).0,
                out@ == slots_inbound(old(self)@, slots@.take(i as int)).1,
            decreases n - i,
        {
            let a = self.map_inbound_arg_slot(slots[i]);
            out.push(a);
            proof {
                assert(slots@.take(i as int + 1).drop_last() =~= slots@.take(i as int));
                assert(slots@.take(i as int + 1).last() == slots@[i as int]);
            }
            i += 1;
        }
        proof {
            assert(slots@.take(n as int) =~= slots@);
        }
        VatCapData { body, slots: out }
    }

    /// Translate a whole message entering this vat: arguments, then the
    /// optional resolver.
    pub fn map_inbound_message(&mut self, m: KernelMessage) -> (r: InboundVatMessage)
        requires
            vd_wf(old(self)@),
        ensures
            vd_wf(final(self)@),
            final(self)@ == message_inbound(old(self)@, m@).0,
            r@ == message_inbound(old(self)@, m@).1,
    {
        let KernelMessage { name, args, resolver } = m;
        let vargs = self.map_inbound_capdata(args);
        let vresolver = match resolver {
            Some(kr) => Some(self.map_inbound_resolver(kr)),
            None => None,
        };
        InboundVatMessage { name, args: vargs, resolver: vresolver }
    }

    /// Translate a terminal resolution into this vat's local terms.
    pub fn map_inbound_resolution(&mut self, r: Resolution) -> (out: VatResolution)
        requires
            vd_wf(old(self)@),
        ensures
            vd_wf(final(self)@),
            final(self)@ == resolution_inbound(old(self)@, r@).0,
            out@ == resolution_inbound(old(self)@, r@).1,
    {
        match r {
            Resolution::Reference(s) => VatResolution::Reference(self.map_inbound_arg_slot(s)),
            Resolution::Data(d) => VatResolution::Data(self.map_inbound_capdata(d)),
            Resolution::Rejection(d) => VatResolution::Rejection(self.map_inbound_capdata(d)),
        }
    }
}

// ---------------------------------------------------------------------------
// Shared kernel state and its well-formedness
// ---------------------------------------------------------------------------

/// A kernel-level slot names only live vats and live promises.
pub open spec fn slot_wf(s: CapSlot, n_vats: int, n_promises: int) -> bool {
    match s {
        CapSlot::Object(o) => o.owner.0 < n_vats,
        CapSlot::Promise(p) => p.0 < n_promises,
    }
}

/// Every slot of a payload is well-formed.
pub open spec fn capdata_wf(d: CapDataView, n_vats: int, n_promises: int) -> bool {
    forall|j: int| 0 <= j < d.slots.len() ==> slot_wf(#[trigger] d.slots[j], n_vats, n_promises)
}

/// A message's payload and optional resolver are well-formed.
pub open spec fn message_wf(m: KernelMessageView, n_vats: int, n_promises: int) -> bool {
    capdata_wf(m.args, n_vats, n_promises) && (m.resolver matches Some(r) ==> r.0 < n_promises)
}

/// A resolution's references are well-formed.
pub open spec fn resolution_wf(r: ResolutionView, n_vats: int, n_promises: int) -> bool {
    match r {
        ResolutionView::Reference(s) => slot_wf(s, n_vats, n_promises),
        ResolutionView::Data(d) => capdata_wf(d, n_vats, n_promises),
        ResolutionView::Rejection(d) => capdata_wf(d, n_vats, n_promises),
    }
}

/// A queued delivery names only live vats and promises.
pub open spec fn delivery_wf(d: DeliveryView, n_vats: int, n_promises: int) -> bool {
    match d {
        DeliveryView::Deliver { target, message } => slot_wf(target, n_vats, n_promises)
            && message_wf(message, n_vats, n_promises),
        DeliveryView::Notify { vat, promise, resolution } => vat.0 < n_vats && promise.0
            < n_promises && resolution_wf(resolution, n_vats, n_promises),
    }
}

/// Every kernel id recorded in a vat's tables is live.
pub open spec fn vd_valid(vd: VatDataView, n_vats: int, n_promises: int) -> bool {
    &&& forall|j: int| 0 <= j < vd.imports.len() ==> (#[trigger] vd.imports[j]).owner.0 < n_vats
    &&& forall|j: int| 0 <= j < vd.promises.len() ==> (#[trigger] vd.promises[j]).0 < n_promises
    &&& forall|j: int| 0 <= j < vd.resolvers.len() ==> (#[trigger] vd.resolvers[j]).0
        < n_promises
}

/// A promise entry names only live vats, its subscribers are distinct, and a
/// committed resolution is well-formed.
pub open spec fn promise_entry_wf(p: PromiseView, n_vats: int, n_promises: int) -> bool {
    &&& p.allocator.0 < n_vats
    &&& (p.state matches PromiseStateView::Unresolved { decider } ==> decider.0 < n_vats)
    &&& (p.state matches PromiseStateView::Resolved { resolution } ==> resolution_wf(
        resolution,
        n_vats,
        n_promises,
    ))
    &&& injective(p.subscribers)
    &&& forall|j: int| 0 <= j < p.subscribers.len() ==> (#[trigger] p.subscribers[j]).0 < n_vats
}

/// Abstraction of the shared kernel state.
pub struct KernelDataView {
    pub names: Seq<Seq<char>>,
    pub vats: Seq<VatDataView>,
    pub promises: Seq<PromiseView>,
    pub queue: Seq<DeliveryView>,
}

/// The kernel state invariant: one name per vat, vat `i` knows it is vat
/// `i`, every table is a bijection over live ids, every promise entry and
/// every queued delivery is well-formed.
pub open spec fn kd_wf(kd: KernelDataView) -> bool {
    &&& kd.names.len() == kd.vats.len()
    &&& forall|i: int|
        0 <= i < kd.vats.len() ==> (#[trigger] kd.vats[i]).id == VatID(i as usize)
    &&& forall|i: int| 0 <= i < kd.vats.len() ==> vd_wf(#[trigger] kd.vats[i])
    &&& forall|i: int|
        0 <= i < kd.vats.len() ==> vd_valid(
            #[trigger] kd.vats[i],
            kd.vats.len() as int,
            kd.promises.len() as int,
        )
    &&& forall|i: int|
        0 <= i < kd.promises.len() ==> promise_entry_wf(
            #[trigger] kd.promises[i],
            kd.vats.len() as int,
            kd.promises.len() as int,
        )
    &&& forall|i: int|
        0 <= i < kd.queue.len() ==> delivery_wf(
            #[trigger] kd.queue[i],
            kd.vats.len() as int,
            kd.promises.len() as int,
        )
}

/// What a dispatched vat may have done to the kernel state by the time it
/// returns: vats are neither created nor destroyed, names are fixed, and the
/// run queue has only been extended at its tail, because every syscall only
/// appends. This is the frame that keeps delivery order first-in first-out
/// across dispatch.
pub open spec fn dispatch_frame(pre: KernelDataView, post: KernelDataView) -> bool {
    &&& post.vats.len() == pre.vats.len()
    &&& post.names == pre.names
    &&& pre.queue.is_prefix_of(post.queue)
}

/// The first vat registered under a name, if any: configuration registers
/// names in order, and lookups take the earliest match.
pub open spec fn name_index(names: Seq<Seq<char>>, n: Seq<char>) -> Option<int>
    decreases names.len(),
{
    if names.len() == 0 {
        None
    } else if names[0] == n {
        Some(0)
    } else {
        match name_index(names.skip(1), n) {
            Some(i) => Some(i + 1),
            None => None,
        }
    }
}

proof fn lemma_name_index_at(names: Seq<Seq<char>>, n: Seq<char>, i: int)
    requires
        0 <= i < names.len(),
        names[i] == n,
        forall|j: int| 0 <= j < i ==> names[j] != n,
    ensures
        name_index(names, n) == Some(i),
    decreases i,
{
    if i > 0 {
        lemma_name_index_at(names.skip(1), n, i - 1);
    }
}

proof fn lemma_name_index_none(names: Seq<Seq<char>>, n: Seq<char>)
    requires
        forall|j: int| 0 <= j < names.len() ==> names[j] != n,
    ensures
        name_index(names, n) is None,
    decreases names.len(),
{
    if names.len() > 0 {
        lemma_name_index_none(names.skip(1), n);
    }
}

/// Where the delivery engine routes a kernel-level target.
#[derive(Clone, Copy, Debug, PartialEq, Eq, Structural)]
pub enum Route {
    /// An object: delivered to its owner under its home export index.
    ToObject(ObjectID),
    /// An unresolved promise: delivered to its current decider.
    ToPromise(PromiseID, VatID),
    /// A settled promise (or a reference chain that never leaves promises):
    /// the message cannot be delivered anywhere.
    Dead,
}

/// Resolve a target to its destination, following references of settled
/// promises. One unit of fuel is spent per promise hop; the table length is
/// always enough fuel unless the reference chain is cyclic, and a cycle can
/// reach no vat anyway.
pub open spec fn route_spec(ps: Seq<PromiseView>, slot: CapSlot, fuel: nat) -> Route
    decreases fuel,
{
    match slot {
        CapSlot::Object(o) => Route::ToObject(o),
        CapSlot::Promise(p) => {
            if fuel == 0 {
                Route::Dead
            } else {
                match ps[p.0 as int].state {
                    PromiseStateView::Unresolved { decider } => Route::ToPromise(p, decider),
                    PromiseStateView::Resolved { resolution } => match resolution {
                        ResolutionView::Reference(s) => route_spec(ps, s, (fuel - 1) as nat),
                        ResolutionView::Data(_) => Route::Dead,
                        ResolutionView::Rejection(_) => Route::Dead,
                    },
                }
            }
        },
    }
}

/// A route found under the kernel invariant names a live destination.
pub proof fn lemma_route_wf(ps: Seq<PromiseView>, slot: CapSlot, fuel: nat, n_vats: int)
    requires
        slot_wf(slot, n_vats, ps.len() as int),
        forall|i: int|
            0 <= i < ps.len() ==> promise_entry_wf(#[trigger] ps[i], n_vats, ps.len() as int),
    ensures
        route_spec(ps, slot, fuel) matches Route::ToObject(o) ==> o.owner.0 < n_vats,
        route_spec(ps, slot, fuel) matches Route::ToPromise(p, d) ==> p.0 < ps.len() && d.0
            < n_vats && ps[p.0 as int].state == (PromiseStateView::Unresolved { decider: d }),
    decreases fuel,
{
    match slot {
        CapSlot::Object(_) => {},
        CapSlot::Promise(p) => {
            if fuel > 0 {
                match ps[p.0 as int].state {
                    PromiseStateView::Unresolved { decider } => {},
                    PromiseStateView::Resolved { resolution } => match resolution {
                        ResolutionView::Reference(s) => {
                            lemma_route_wf(ps, s, (fuel - 1) as nat, n_vats);
                        },
                        _ => {},
                    },
                }
            }
        },
    }
}

/// The notifications owed when a promise settles: one per subscriber, in
/// subscription order, each carrying the committed resolution.
pub open spec fn notify_batch(subs: Seq<VatID>, p: PromiseID, res: ResolutionView) -> Seq<
    DeliveryView,
> {
    subs.map_values(|v: VatID| DeliveryView::Notify { vat: v, promise: p, resolution: res })
}

/// Well-formedness only bounds ids from above, so it survives growth of the
/// promise table.
pub proof fn lemma_capdata_wf_mono(d: CapDataView, n_vats: int, np: int, np2: int)
    requires
        capdata_wf(d, n_vats, np),
        np <= np2,
    ensures
        capdata_wf(d, n_vats, np2),
{
    assert forall|j: int| 0 <= j < d.slots.len() implies slot_wf(
        #[trigger] d.slots[j],
        n_vats,
        np2,
    ) by {
        assert(slot_wf(d.slots[j], n_vats, np));
    }
}

/// As `lemma_capdata_wf_mono`, for a resolution.
pub proof fn lemma_resolution_wf_mono(r: ResolutionView, n_vats: int, np: int, np2: int)
    requires
        resolution_wf(r, n_vats, np),
        np <= np2,
    ensures
        resolution_wf(r, n_vats, np2),
{
    match r {
        ResolutionView::Reference(_) => {},
        ResolutionView::Data(d) => {
            lemma_capdata_wf_mono(d, n_vats, np, np2);
        },
        ResolutionView::Rejection(d) => {
            lemma_capdata_wf_mono(d, n_vats, np, np2);
        },
    }
}

/// As `lemma_capdata_wf_mono`, for a queued delivery.
pub proof fn lemma_delivery_wf_mono(d: DeliveryView, n_vats: int, np: int, np2: int)
    requires
        delivery_wf(d, n_vats, np),
        np <= np2,
    ensures
        delivery_wf(d, n_vats, np2),
{
    match d {
        DeliveryView::Deliver { target, message } => {
            lemma_capdata_wf_mono(message.args, n_vats, np, np2);
        },
        DeliveryView::Notify { vat, promise, resolution } => {
            lemma_resolution_wf_mono(resolution, n_vats, np, np2);
        },
    }
}

/// As `lemma_capdata_wf_mono`, for a vat's tables.
pub proof fn lemma_vd_valid_mono(vd: VatDataView, n_vats: int, np: int, np2: int)
    requires
        vd_valid(vd, n_vats, np),
        np <= np2,
    ensures
        vd_valid(vd, n_vats, np2),
{
}

/// As `lemma_capdata_wf_mono`, for a promise entry.
pub proof fn lemma_promise_entry_wf_mono(p: PromiseView, n_vats: int, np: int, np2: int)
    requires
        promise_entry_wf(p, n_vats, np),
        np <= np2,
    ensures
        promise_entry_wf(p, n_vats, np2),
{
    match p.state {
        PromiseStateView::Resolved { resolution } => {
            lemma_resolution_wf_mono(resolution, n_vats, np, np2);
        },
        PromiseStateView::Unresolved { .. } => {},
    }
}

/// Inbound translation only records ids that were already live, so validity
/// of the vat's tables is preserved.
pub proof fn lemma_slot_inbound_ok(vd: VatDataView, s: CapSlot, n_vats: int, n_promises: int)
    requires
        vd_wf(vd),
        vd_valid(vd, n_vats, n_promises),
        slot_wf(s, n_vats, n_promises),
    ensures
        vd_wf(slot_inbound(vd, s).0),
        vd_valid(slot_inbound(vd, s).0, n_vats, n_promises),
        slot_inbound(vd, s).0.id == vd.id,
        slot_inbound(vd, s).0.resolvers == vd.resolvers,
{
    lemma_slot_inbound_wf(vd, s);
    match s {
        CapSlot::Object(o) => {
            assert forall|j: int|
                0 <= j < inbound_seq(vd.imports, o).len() implies (#[trigger] inbound_seq(
                vd.imports,
                o,
            )[j]).owner.0 < n_vats by {
                if j < vd.imports.len() {
                } else {
                    assert(inbound_seq(vd.imports, o)[j] == o);
                }
            }
        },
        CapSlot::Promise(p) => {
            assert forall|j: int|
                0 <= j < inbound_seq(vd.promises, p).len() implies (#[trigger] inbound_seq(
                vd.promises,
                p,
            )[j]).0 < n_promises by {
                if j < vd.promises.len() {
                } else {
                    assert(inbound_seq(vd.promises, p)[j] == p);
                }
            }
        },
    }
}

/// As `lemma_slot_inbound_ok`, for a slot list.
pub proof fn lemma_slots_inbound_ok(
    vd: VatDataView,
    slots: Seq<CapSlot>,
    n_vats: int,
    n_promises: int,
)
    requires
        vd_wf(vd),
        vd_valid(vd, n_vats, n_promises),
        forall|j: int| 0 <= j < slots.len() ==> slot_wf(#[trigger] slots[j], n_vats, n_promises),
    ensures
        vd_wf(slots_inbound(vd, slots).0),
        vd_valid(slots_inbound(vd, slots).0, n_vats, n_promises),
        slots_inbound(vd, slots).0.id == vd.id,
        slots_inbound(vd, slots).0.resolvers == vd.resolvers,
        slots_inbound(vd, slots).1.len() == slots.len(),
    decreases slots.len(),
{
    if slots.len() > 0 {
        assert(forall|j: int|
            0 <= j < slots.drop_last().len() ==> slots.drop_last()[j] == slots[j]);
        lemma_slots_inbound_ok(vd, slots.drop_last(), n_vats, n_promises);
        lemma_slot_inbound_ok(slots_inbound(vd, slots.drop_last()).0, slots.last(), n_vats, n_promises);
    }
}

/// As `lemma_slot_inbound_ok`, for a resolver.
pub proof fn lemma_resolver_inbound_ok(vd: VatDataView, r: ResolverID, n_vats: int, n_promises: int)
    requires
        vd_wf(vd),
        vd_valid(vd, n_vats, n_promises),
        r.0 < n_promises,
    ensures
        vd_wf(resolver_inbound(vd, r).0),
        vd_valid(resolver_inbound(vd, r).0, n_vats, n_promises),
        resolver_inbound(vd, r).0.id == vd.id,
{
    crate::clist::lemma_inbound_preserves_injective(vd.resolvers, r);
    assert forall|j: int|
        0 <= j < inbound_seq(vd.resolvers, r).len() implies (#[trigger] inbound_seq(
        vd.resolvers,
        r,
    )[j]).0 < n_promises by {
        if j < vd.resolvers.len() {
        } else {
            assert(inbound_seq(vd.resolvers, r)[j] == r);
        }
    }
}

/// As `lemma_slot_inbound_ok`, for a promise id.
pub proof fn lemma_promise_inbound_ok(vd: VatDataView, p: PromiseID, n_vats: int, n_promises: int)
    requires
        vd_wf(vd),
        vd_valid(vd, n_vats, n_promises),
        p.0 < n_promises,
    ensures
        vd_wf(promise_inbound(vd, p).0),
        vd_valid(promise_inbound(vd, p).0, n_vats, n_promises),
        promise_inbound(vd, p).0.id == vd.id,
        promise_inbound(vd, p).0.resolvers == vd.resolvers,
{
    lemma_slot_inbound_ok(vd, CapSlot::Promise(p), n_vats, n_promises);
    assert(promise_inbound(vd, p).0 == slot_inbound(vd, CapSlot::Promise(p)).0);
}

/// As `lemma_slot_inbound_ok`, for a whole message.
pub proof fn lemma_message_inbound_ok(
    vd: VatDataView,
    m: KernelMessageView,
    n_vats: int,
    n_promises: int,
)
    requires
        vd_wf(vd),
        vd_valid(vd, n_vats, n_promises),
        message_wf(m, n_vats, n_promises),
    ensures
        vd_wf(message_inbound(vd, m).0),
        vd_valid(message_inbound(vd, m).0, n_vats, n_promises),
        message_inbound(vd, m).0.id == vd.id,
{
    lemma_slots_inbound_ok(vd, m.args.slots, n_vats, n_promises);
    match m.resolver {
        Some(kr) => {
            lemma_resolver_inbound_ok(slots_inbound(vd, m.args.slots).0, kr, n_vats, n_promises);
        },
        None => {},
    }
}

/// As `lemma_slot_inbound_ok`, for a resolution.
pub proof fn lemma_resolution_inbound_ok(
    vd: VatDataView,
    r: ResolutionView,
    n_vats: int,
    n_promises: int,
)
    requires
        vd_wf(vd),
        vd_valid(vd, n_vats, n_promises),
        resolution_wf(r, n_vats, n_promises),
    ensures
        vd_wf(resolution_inbound(vd, r).0),
        vd_valid(resolution_inbound(vd, r).0, n_vats, n_promises),
        resolution_inbound(vd, r).0.id == vd.id,
{
    match r {
        ResolutionView::Reference(s) => {
            lemma_slot_inbound_ok(vd, s, n_vats, n_promises);
        },
        ResolutionView::Data(d) => {
            lemma_slots_inbound_ok(vd, d.slots, n_vats, n_promises);
        },
        ResolutionView::Rejection(d) => {
            lemma_slots_inbound_ok(vd, d.slots, n_vats, n_promises);
        },
    }
}

/// The shared kernel state: the vat registry, one `VatData` per vat, the
/// promise table and the run queue. Vat code reaches this state only for the
/// duration of one syscall, through the methods of `VatSyscall`.
pub struct KernelData {
    pub(crate) vat_names: Vec<VatName>,
    pub(crate) vat_data: Vec<VatData>,
    pub(crate) promises: PromiseTable,
    pub(crate) run_queue: Vec<PendingDelivery>,
}

impl View for KernelData {
    type V = KernelDataView;

    closed spec fn view(&self) -> KernelDataView {
        KernelDataView {
            names: Seq::new(self.vat_names@.len(), |i: int| self.vat_names@[i].0@),
            vats: Seq::new(self.vat_data@.len(), |i: int| self.vat_data@[i]@),
            promises: self.promises@,
            queue: Seq::new(self.run_queue@.len(), |i: int| self.run_queue@[i]@),
        }
    }
}

impl KernelData {
    /// The kernel state invariant.
    pub open spec fn wf(&self) -> bool {
        kd_wf(self@)
    }

    /// The number of registered vats.
    pub fn vat_count(&self) -> (n: usize)
        ensures
            n == self@.vats.len(),
    {
        self.vat_data.len()
    }

    /// The number of queued deliveries.
    pub fn queue_len(&self) -> (n: usize)
        ensures
            n == self@.queue.len(),
    {
        self.run_queue.len()
    }

    /// The number of promise table entries.
    pub fn promise_count(&self) -> (n: usize)
        ensures
            n == self@.promises.len(),
    {
        self.promises.len()
    }

    /// The number of import handles vat `v` holds.
    pub fn import_count(&self, v: VatID) -> (r: usize)
        requires
            v.0 < self@.vats.len(),
        ensures
            r == self@.vats[v.0 as int].imports.len(),
    {
        self.vat_data[v.0].import_count()
    }

    /// The `i`-th queued delivery, for diagnostics.
    pub fn queue_get(&self, i: usize) -> (r: Option<&PendingDelivery>)
        ensures
            match r {
                Some(pd) => i < self@.queue.len() && pd@ == self@.queue[i as int],
                None => i >= self@.queue.len(),
            },
    {
        if i < self.run_queue.len() {
            Some(&self.run_queue[i])
        } else {
            None
        }
    }

    /// The vat registered first under `name`, or nothing: naming an
    /// unregistered vat is a configuration error, never a crash.
    pub fn vat_id_for_name(&self, name: &VatName) -> (r: Option<VatID>)
        ensures
            r == (match name_index(self@.names, name.0@) {
                Some(i) => Some(VatID(i as usize)),
                None => None::<VatID>,
            }),
            r matches Some(v) ==> v.0 < self@.names.len() && name_index(self@.names, name.0@)
                == Some(v.0 as int),
    {
        let n = self.vat_names.len();
        let mut i: usize = 0;
        while i < n
            invariant
                n == self.vat_names@.len(),
                i <= n,
                forall|j: int| 0 <= j < i ==> self@.names[j] != name.0@,
            decreases n - i,
        {
            if self.vat_names[i].0 == name.0 {
                proof {
                    lemma_name_index_at(self@.names, name.0@, i as int);
                }
                return Some(VatID(i));
            }
            i += 1;
        }
        proof {
            lemma_name_index_none(self@.names, name.0@);
        }
        None
    }

    /// Resolve a kernel-level target to its destination with full fuel.
    pub fn route_target(&self, slot: CapSlot) -> (r: Route)
        requires
            kd_wf(self@),
            slot_wf(slot, self@.vats.len() as int, self@.promises.len() as int),
        ensures
            r == route_spec(self@.promises, slot, self@.promises.len() as nat),
    {
        let fuel = self.promises.len();
        route_exec(&self.promises, slot, fuel)
    }
}

/// A promise state's forwarded reference, if any, stays inside a table of
/// length `n`.
pub open spec fn ref_target_in(st: PromiseStateView, n: int) -> bool {
    match st {
        PromiseStateView::Resolved { resolution: ResolutionView::Reference(CapSlot::Promise(q)) } =>
            q.0 < n,
        _ => true,
    }
}

/// Every forwarded reference in the table stays inside the table.
pub open spec fn promise_refs_closed(ps: Seq<PromiseView>) -> bool {
    forall|i: int| 0 <= i < ps.len() ==> ref_target_in(#[trigger] ps[i].state, ps.len() as int)
}

/// Executable mirror of `route_spec`.
fn route_exec(pt: &PromiseTable, slot: CapSlot, fuel: usize) -> (r: Route)
    requires
        slot matches CapSlot::Promise(p) ==> p.0 < pt@.len(),
        promise_refs_closed(pt@),
    ensures
        r == route_spec(pt@, slot, fuel as nat),
    decreases fuel,
{
    match slot {
        CapSlot::Object(o) => Route::ToObject(o),
        CapSlot::Promise(p) => {
            if fuel == 0 {
                Route::Dead
            } else {
                match pt.routing_of(p) {
                    crate::promise::PromiseRouting::Decider(d) => Route::ToPromise(p, d),
                    crate::promise::PromiseRouting::Forwarded(s) => route_exec(
                        pt,
                        s,
                        fuel - 1,
                    ),
                    crate::promise::PromiseRouting::Settled => Route::Dead,
                }
            }
        },
    }
}

// ---------------------------------------------------------------------------
// State transitions shared by the syscalls and the delivery engine
// ---------------------------------------------------------------------------

/// State transition of rejecting a result promise whose delivery could not
/// be routed: if the promise is still unresolved it is rejected with an
/// empty payload and its subscribers are notified; a promise already settled
/// is left alone.
pub open spec fn reject_outcome(kd: KernelDataView, r: ResolverID) -> KernelDataView {
    let p = PromiseID(r.0);
    if crate::promise::promise_unresolved(kd.promises, p) {
        let reject = ResolutionView::Rejection(
            CapDataView { body: Seq::<u8>::empty(), slots: Seq::<CapSlot>::empty() },
        );
        KernelDataView {
            promises: crate::promise::commit_spec(kd.promises, p, reject),
            queue: kd.queue + notify_batch(kd.promises[p.0 as int].subscribers, p, reject),
            ..kd
        }
    } else {
        kd
    }
}

impl KernelData {
    /// Commit a resolution and enqueue one notification per subscriber, in
    /// subscription order. This is the single place where Unresolved becomes
    /// Resolved.
    pub(crate) fn commit_and_notify(&mut self, krid: ResolverID, kres: Resolution)
        requires
            old(self).wf(),
            crate::promise::promise_unresolved(old(self)@.promises, PromiseID(krid.0)),
            resolution_wf(kres@, old(self)@.vats.len() as int, old(self)@.promises.len() as int),
        ensures
            final(self).wf(),
            final(self)@ == (KernelDataView {
                promises: crate::promise::commit_spec(
                    old(self)@.promises,
                    PromiseID(krid.0),
                    kres@,
                ),
                queue: old(self)@.queue + notify_batch(
                    old(self)@.promises[krid.0 as int].subscribers,
                    PromiseID(krid.0),
                    kres@,
                ),
                ..old(self)@
            }),
    {
        let ghost kd0 = self@;
        let ghost nv = kd0.vats.len() as int;
        let ghost np = kd0.promises.len() as int;
        let p = PromiseID(krid.0);
        let ghost subs = kd0.promises[krid.0 as int].subscribers;
        let n = self.promises.subscriber_count(p);
        let mut i: usize = 0;
        while i < n
            invariant
                self.wf(),
                kd_wf(kd0),
                self@.promises == kd0.promises,
                self@.vats == kd0.vats,
                self@.names == kd0.names,
                subs == kd0.promises[krid.0 as int].subscribers,
                crate::promise::promise_unresolved(kd0.promises, p),
                p == PromiseID(krid.0),
                nv == kd0.vats.len() as int,
                np == kd0.promises.len() as int,
                resolution_wf(kres@, nv, np),
                n == subs.len(),
                i <= n,
                self@.queue == kd0.queue + notify_batch(subs.take(i as int), p, kres@),
            decreases n - i,
        {
            let v = self.promises.subscriber_at(p, i);
            let item = PendingDelivery::Notify {
                vat: v,
                promise: p,
                resolution: crate::promise::copy_resolution(&kres),
            };
            self.run_queue.push(item);
            proof {
                assert(self@.queue =~= (kd0.queue + notify_batch(
                    subs.take(i as int),
                    p,
                    kres@,
                )).push(DeliveryView::Notify { vat: v, promise: p, resolution: kres@ }));
                assert((kd0.queue + notify_batch(subs.take(i as int), p, kres@)).push(
                    DeliveryView::Notify { vat: v, promise: p, resolution: kres@ },
                ) =~= kd0.queue + notify_batch(subs.take(i as int + 1), p, kres@));
                assert(self@.vats =~= kd0.vats);
                assert(self@.names =~= kd0.names);
                assert(kd_wf(self@)) by {
                    assert forall|j: int| 0 <= j < self@.queue.len() implies delivery_wf(
                        #[trigger] self@.queue[j],
                        nv,
                        np,
                    ) by {
                        if j < kd0.queue.len() {
                        } else {
                            let b = notify_batch(subs.take(i as int + 1), p, kres@);
                            assert(self@.queue[j] == b[j - kd0.queue.len()]);
                            assert(promise_entry_wf(kd0.promises[krid.0 as int], nv, np));
                        }
                    }
                }
            }
            i += 1;
        }
        proof {
            assert(subs.take(n as int) =~= subs);
        }
        let ghost kd1 = self@;
        self.promises.commit(krid, kres);
        proof {
            assert(self@.vats =~= kd1.vats);
            assert(self@.names =~= kd1.names);
            assert(self@.queue =~= kd1.queue);
            assert(self@ == (KernelDataView {
                promises: crate::promise::commit_spec(kd0.promises, p, kres@),
                queue: kd0.queue + notify_batch(subs, p, kres@),
                ..kd0
            }));
            assert(kd_wf(self@)) by {
                assert forall|j: int| 0 <= j < self@.promises.len() implies promise_entry_wf(
                    #[trigger] self@.promises[j],
                    nv,
                    np,
                ) by {
                    if j != krid.0 as int {
                        assert(self@.promises[j] == kd0.promises[j]);
                    }
                }
            }
        }
    }

    /// Reject the result promise of an unroutable delivery with an empty
    /// payload; a promise already settled stays as it is.
    pub(crate) fn reject_unresolved(&mut self, r: ResolverID)
        requires
            old(self).wf(),
            r.0 < old(self)@.promises.len(),
        ensures
            final(self).wf(),
            final(self)@ == reject_outcome(old(self)@, r),
    {
        let p = PromiseID(r.0);
        let live = match self.promises.decider_of(p) {
            Some(_d) => true,
            None => false,
        };
        if live {
            let kres = Resolution::Rejection(CapData { body: Vec::new(), slots: Vec::new() });
            proof {
                assert(kres@ == ResolutionView::Rejection(
                    CapDataView { body: Seq::<u8>::empty(), slots: Seq::<CapSlot>::empty() },
                ));
            }
            self.commit_and_notify(r, kres);
        }
    }
}

impl crate::vat::VatSyscall {
    /// Translate a send target outbound through the calling vat's tables.
    pub fn map_outbound_target(&self, kd: &KernelData, vtarget: crate::vat_types::VatSendTarget)
        -> (r: Result<CapSlot, Error>)
        requires
            self.vat_id.0 < kd@.vats.len(),
        ensures
            r == crate::map_outbound::send_target_outbound(
                kd@.vats[self.vat_id.0 as int],
                vtarget,
            ),
    {
        let vd = &kd.vat_data[self.vat_id.0];
        match vtarget {
            crate::vat_types::VatSendTarget::Import(l) => match vd.map_outbound_import(l) {
                Ok(o) => Ok(CapSlot::Object(o)),
                Err(e) => Err(e),
            },
            crate::vat_types::VatSendTarget::Promise(l) => match vd.map_outbound_promise_handle(
                l,
            ) {
                Ok(p) => Ok(CapSlot::Promise(p)),
                Err(e) => Err(e),
            },
        }
    }

    /// Translate one argument slot outbound through the calling vat's
    /// tables.
    pub fn map_outbound_arg_slot(&self, kd: &KernelData, varg: VatArgSlot) -> (r: Result<
        CapSlot,
        Error,
    >)
        requires
            self.vat_id.0 < kd@.vats.len(),
        ensures
            r == crate::map_outbound::slot_outbound(kd@.vats[self.vat_id.0 as int], varg),
    {
        crate::map_outbound::map_outbound_slot(&kd.vat_data[self.vat_id.0], varg)
    }

    /// Allocate the result promise of a send: a fresh entry decided by the
    /// target's home vat, allocated by and subscribed to by the sender, and
    /// the sender's local handle on it.
    pub fn allocate_result_promise(&self, kd: &mut KernelData, decider: VatID) -> (r: (
        VatPromiseID,
        ResolverID,
    ))
        requires
            old(kd).wf(),
            self.vat_id.0 < old(kd)@.vats.len(),
            decider.0 < old(kd)@.vats.len(),
        ensures
            final(kd).wf(),
            old(kd)@.promises.len() <= usize::MAX as nat,
            r == crate::vat::alloc_result_outcome(old(kd)@, self.vat_id, decider).0,
            final(kd)@ == crate::vat::alloc_result_outcome(old(kd)@, self.vat_id, decider).1,
    {
        let ghost kd0 = kd@;
        let ghost nv = kd0.vats.len() as int;
        let ghost np = kd0.promises.len() as int;
        let c = self.vat_id.0;
        let (kpid, krid) = kd.promises.allocate_unresolved(decider, self.vat_id);
        let added = kd.promises.add_subscriber(kpid, self.vat_id);
        proof {
            assert(Seq::<VatID>::empty().push(self.vat_id) =~= seq![self.vat_id]);
            assert(kd@.promises =~= kd0.promises.push(
                PromiseView {
                    allocator: self.vat_id,
                    subscribers: seq![self.vat_id],
                    state: PromiseStateView::Unresolved { decider },
                },
            ));
            assert(kd@.vats =~= kd0.vats);
            lemma_vd_valid_mono(kd0.vats[c as int], nv, np, np + 1);
            lemma_promise_inbound_ok(kd0.vats[c as int], kpid, nv, np + 1);
        }
        let vd = &mut kd.vat_data[c];
        let lp = vd.map_inbound_promise(kpid);
        proof {
            let fin = crate::vat::alloc_result_outcome(kd0, self.vat_id, decider).1;
            assert(kd@.vats =~= fin.vats);
            assert(kd@.queue =~= fin.queue);
            assert(kd@.names =~= fin.names);
            assert(kd@.promises =~= fin.promises);
            assert(kd@ == fin);
            assert(kpid.0 == kd0.promises.len());
            crate::vat::lemma_alloc_wf(kd0, self.vat_id, decider);
        }
        (lp, krid)
    }

    /// Translate a send outbound, allocate its result promise if one is
    /// wanted, and append exactly one delivery to the run queue. A
    /// translation failure reports back to the caller and leaves the state
    /// untouched.
    fn do_send(
        &self,
        kd: &mut KernelData,
        vtarget: crate::vat_types::VatSendTarget,
        vmsg: crate::vat_types::OutboundVatMessage,
        send_only: bool,
    ) -> (r: Result<Option<VatPromiseID>, Error>)
        requires
            old(kd).wf(),
            self.vat_id.0 < old(kd)@.vats.len(),
        ensures
            final(kd).wf(),
            r == crate::vat::send_outcome(old(kd)@, self.vat_id, vtarget, vmsg@, !send_only).0,
            final(kd)@ == crate::vat::send_outcome(
                old(kd)@,
                self.vat_id,
                vtarget,
                vmsg@,
                !send_only,
            ).1,
    {
        let ghost kd0 = kd@;
        let ghost nv = kd0.vats.len() as int;
        let ghost np = kd0.promises.len() as int;
        let c = self.vat_id.0;
        let kt = match self.map_outbound_target(kd, vtarget) {
            Ok(k) => k,
            Err(e) => {
                return Err(e);
            },
        };
        let kmsg = match crate::map_outbound::map_outbound_message(&kd.vat_data[c], vmsg) {
            Ok(m) => m,
            Err(e) => {
                return Err(e);
            },
        };
        let ghost kargs0 = kmsg@.args;
        proof {
            crate::map_outbound::lemma_send_target_outbound_valid(kd0.vats[c as int], vtarget, nv, np);
            crate::map_outbound::lemma_capdata_outbound_valid(
                kd0.vats[c as int],
                vmsg@.args,
                nv,
                np,
            );
        }
        if send_only {
            kd.run_queue.push(PendingDelivery::Deliver { target: kt, message: kmsg });
            proof {
                let msg = KernelMessageView { name: vmsg@.name, args: kargs0, resolver: None };
                assert(kd@.queue =~= kd0.queue.push(
                    DeliveryView::Deliver { target: kt, message: msg },
                ));
                assert(kd@.vats =~= kd0.vats);
                assert(kd@.names =~= kd0.names);
                assert(kd@ == crate::vat::send_outcome(kd0, self.vat_id, vtarget, vmsg@, false).1);
                assert(kd_wf(kd@)) by {
                    assert forall|j: int| 0 <= j < kd@.queue.len() implies delivery_wf(
                        #[trigger] kd@.queue[j],
                        nv,
                        np,
                    ) by {
                        if j == kd0.queue.len() {
                            assert(kd@.queue[j] == DeliveryView::Deliver { target: kt, message: msg });
                        }
                    }
                }
            }
            Ok(None)
        } else {
            let route = kd.route_target(kt);
            proof {
                lemma_route_wf(kd0.promises, kt, np as nat, nv);
            }
            let decider = match route {
                Route::ToObject(o) => o.owner,
                Route::ToPromise(_p, d) => d,
                Route::Dead => self.vat_id,
            };
            let (lp, krid) = self.allocate_result_promise(kd, decider);
            let mut kmsg = kmsg;
            kmsg.resolver = Some(krid);
            kd.run_queue.push(PendingDelivery::Deliver { target: kt, message: kmsg });
            proof {
                let a = crate::vat::alloc_result_outcome(kd0, self.vat_id, decider);
                let msg = KernelMessageView {
                    name: vmsg@.name,
                    args: kargs0,
                    resolver: Some(a.0.1),
                };
                assert(kd@.queue =~= a.1.queue.push(
                    DeliveryView::Deliver { target: kt, message: msg },
                ));
                assert(kd@.vats =~= a.1.vats);
                assert(kd@.names =~= a.1.names);
                assert(decider == crate::vat::result_decider(kd0, kt, self.vat_id));
                assert(kd@ == crate::vat::send_outcome(kd0, self.vat_id, vtarget, vmsg@, true).1);
                assert(kd_wf(kd@)) by {
                    lemma_capdata_wf_mono(kargs0, nv, np, np + 1);
                    assert(a.1.queue == kd0.queue);
                    assert forall|j: int| 0 <= j < kd@.queue.len() implies delivery_wf(
                        #[trigger] kd@.queue[j],
                        nv,
                        np + 1,
                    ) by {
                        if j < kd0.queue.len() {
                            assert(kd@.queue[j] == a.1.queue[j]);
                            assert(delivery_wf(a.1.queue[j], nv, np + 1));
                        } else {
                            assert(kd@.queue[j] == DeliveryView::Deliver { target: kt, message: msg });
                            assert(krid.0 == np);
                        }
                    }
                }
            }
            Ok(Some(lp))
        }
    }

    /// Send a message at a target, allocating a result promise; returns the
    /// caller's local handle on the result. Fails with a confinement
    /// violation, touching nothing, if the target or an argument slot was
    /// never given to the caller.
    pub fn send(
        &self,
        kd: &mut KernelData,
        vtarget: crate::vat_types::VatSendTarget,
        vmsg: crate::vat_types::OutboundVatMessage,
    ) -> (r: Result<VatPromiseID, Error>)
        requires
            old(kd).wf(),
            self.vat_id.0 < old(kd)@.vats.len(),
        ensures
            final(kd).wf(),
            final(kd)@ == crate::vat::send_outcome(old(kd)@, self.vat_id, vtarget, vmsg@, true).1,
            r == (match crate::vat::send_outcome(old(kd)@, self.vat_id, vtarget, vmsg@, true).0 {
                Ok(o) => Ok::<VatPromiseID, Error>(o->Some_0),
                Err(e) => Err::<VatPromiseID, Error>(e),
            }),
    {
        match self.do_send(kd, vtarget, vmsg, false) {
            Ok(o) => Ok(o.unwrap()),
            Err(e) => Err(e),
        }
    }

    /// Send a message at a target fire-and-forget: no result promise is
    /// allocated.
    pub fn send_only(
        &self,
        kd: &mut KernelData,
        vtarget: crate::vat_types::VatSendTarget,
        vmsg: crate::vat_types::OutboundVatMessage,
    ) -> (r: Result<(), Error>)
        requires
            old(kd).wf(),
            self.vat_id.0 < old(kd)@.vats.len(),
        ensures
            final(kd).wf(),
            final(kd)@ == crate::vat::send_outcome(old(kd)@, self.vat_id, vtarget, vmsg@, false).1,
            r == (match crate::vat::send_outcome(old(kd)@, self.vat_id, vtarget, vmsg@, false).0 {
                Ok(_) => Ok::<(), Error>(()),
                Err(e) => Err::<(), Error>(e),
            }),
    {
        match self.do_send(kd, vtarget, vmsg, true) {
            Ok(_) => Ok(()),
            Err(e) => Err(e),
        }
    }

    /// Create a standalone unresolved promise, decided by the caller, not
    /// tied to any pending send; returns the caller's local handles on the
    /// promise and its resolver.
    pub fn allocate_promise_and_resolver(&self, kd: &mut KernelData) -> (r: (
        VatPromiseID,
        VatResolverID,
    ))
        requires
            old(kd).wf(),
            self.vat_id.0 < old(kd)@.vats.len(),
        ensures
            final(kd).wf(),
            r == crate::vat::alloc_pr_outcome(old(kd)@, self.vat_id).0,
            final(kd)@ == crate::vat::alloc_pr_outcome(old(kd)@, self.vat_id).1,
    {
        let ghost kd0 = kd@;
        let ghost nv = kd0.vats.len() as int;
        let ghost np = kd0.promises.len() as int;
        let c = self.vat_id.0;
        let (kpid, krid) = kd.promises.allocate_unresolved(self.vat_id, self.vat_id);
        proof {
            assert(kd@.promises =~= kd0.promises.push(
                PromiseView {
                    allocator: self.vat_id,
                    subscribers: Seq::<VatID>::empty(),
                    state: PromiseStateView::Unresolved { decider: self.vat_id },
                },
            ));
            assert(kd@.vats =~= kd0.vats);
            lemma_vd_valid_mono(kd0.vats[c as int], nv, np, np + 1);
            lemma_promise_inbound_ok(kd0.vats[c as int], kpid, nv, np + 1);
            lemma_resolver_inbound_ok(promise_inbound(kd0.vats[c as int], kpid).0, krid, nv, np + 1);
        }
        let vd = &mut kd.vat_data[c];
        let lp = vd.map_inbound_promise(kpid);
        let lr = vd.map_inbound_resolver(krid);
        proof {
            let fin = crate::vat::alloc_pr_outcome(kd0, self.vat_id).1;
            assert(kd@.vats =~= fin.vats);
            assert(kd@.queue =~= fin.queue);
            assert(kd@.names =~= fin.names);
            assert(kd@.promises =~= fin.promises);
            assert(kd@ == fin);
            assert(kpid.0 == kd0.promises.len());
            crate::vat::lemma_alloc_pr_wf(kd0, self.vat_id);
        }
        (lp, lr)
    }

    /// Register the caller's interest in a promise: when it settles, the
    /// caller receives exactly one terminal notification. Subscribing twice
    /// records nothing new; subscribing to a promise that already settled
    /// enqueues the owed notification at once.
    pub fn subscribe(&self, kd: &mut KernelData, id: VatPromiseID) -> (r: Result<(), Error>)
        requires
            old(kd).wf(),
            self.vat_id.0 < old(kd)@.vats.len(),
        ensures
            final(kd).wf(),
            r == crate::vat::subscribe_outcome(old(kd)@, self.vat_id, id).0,
            final(kd)@ == crate::vat::subscribe_outcome(old(kd)@, self.vat_id, id).1,
    {
        let ghost kd0 = kd@;
        let ghost nv = kd0.vats.len() as int;
        let ghost np = kd0.promises.len() as int;
        let c = self.vat_id.0;
        let p = match kd.vat_data[c].map_outbound_promise_handle(id) {
            Ok(p) => p,
            Err(e) => {
                return Err(e);
            },
        };
        let ghost subs0 = kd0.promises[p.0 as int].subscribers;
        let added = kd.promises.add_subscriber(p, self.vat_id);
        proof {
            assert(kd@.vats =~= kd0.vats);
            assert(kd@.names =~= kd0.names);
            assert(kd@.queue =~= kd0.queue);
        }
        if added {
            match kd.promises.resolution_of(p) {
                Some(res) => {
                    kd.run_queue.push(
                        PendingDelivery::Notify { vat: self.vat_id, promise: p, resolution: res },
                    );
                    proof {
                        let fin = crate::vat::subscribe_outcome(kd0, self.vat_id, id).1;
                        assert(kd@.queue =~= fin.queue);
                        assert(kd@.vats =~= fin.vats);
                        assert(kd@.names =~= fin.names);
                        assert(kd@ == fin);
                    }
                },
                None => {
                    proof {
                        let fin = crate::vat::subscribe_outcome(kd0, self.vat_id, id).1;
                        assert(kd@.vats =~= fin.vats);
                        assert(kd@.names =~= fin.names);
                        assert(kd@.queue =~= fin.queue);
                        assert(kd@ == fin);
                    }
                },
            }
        } else {
            proof {
                let fin = crate::vat::subscribe_outcome(kd0, self.vat_id, id).1;
                assert(kd@.vats =~= fin.vats);
                assert(kd@.names =~= fin.names);
                assert(kd@.queue =~= fin.queue);
                assert(kd@ == fin);
            }
        }
        proof {
            lemma_subscribe_wf(kd0, self.vat_id, id);
        }
        Ok(())
    }

    /// Settle the caller's resolver by forwarding to another reference.
    /// Valid only while the caller is the current decider; every failure
    /// leaves the state untouched.
    pub fn fulfill_to_target(&self, kd: &mut KernelData, resolver: VatResolverID, target: VatArgSlot)
        -> (r: Result<(), Error>)
        requires
            old(kd).wf(),
            self.vat_id.0 < old(kd)@.vats.len(),
        ensures
            final(kd).wf(),
            r == crate::vat::resolve_outcome(
                old(kd)@,
                self.vat_id,
                resolver,
                VatResolutionView::Reference(target),
            ).0,
            final(kd)@ == crate::vat::resolve_outcome(
                old(kd)@,
                self.vat_id,
                resolver,
                VatResolutionView::Reference(target),
            ).1,
    {
        self.resolve_with(kd, resolver, VatResolution::Reference(target))
    }

    /// Settle the caller's resolver with data. Valid only while the caller
    /// is the current decider.
    pub fn fulfill_to_data(&self, kd: &mut KernelData, resolver: VatResolverID, data: VatCapData)
        -> (r: Result<(), Error>)
        requires
            old(kd).wf(),
            self.vat_id.0 < old(kd)@.vats.len(),
        ensures
            final(kd).wf(),
            r == crate::vat::resolve_outcome(
                old(kd)@,
                self.vat_id,
                resolver,
                VatResolutionView::Data(data@),
            ).0,
            final(kd)@ == crate::vat::resolve_outcome(
                old(kd)@,
                self.vat_id,
                resolver,
                VatResolutionView::Data(data@),
            ).1,
    {
        self.resolve_with(kd, resolver, VatResolution::Data(data))
    }

    /// Settle the caller's resolver with a rejection. Valid only while the
    /// caller is the current decider.
    pub fn reject(&self, kd: &mut KernelData, resolver: VatResolverID, data: VatCapData) -> (r:
        Result<(), Error>)
        requires
            old(kd).wf(),
            self.vat_id.0 < old(kd)@.vats.len(),
        ensures
            final(kd).wf(),
            r == crate::vat::resolve_outcome(
                old(kd)@,
                self.vat_id,
                resolver,
                VatResolutionView::Rejection(data@),
            ).0,
            final(kd)@ == crate::vat::resolve_outcome(
                old(kd)@,
                self.vat_id,
                resolver,
                VatResolutionView::Rejection(data@),
            ).1,
    {
        self.resolve_with(kd, resolver, VatResolution::Rejection(data))
    }

    /// Shared body of the three resolution operations.
    fn resolve_with(&self, kd: &mut KernelData, vr: VatResolverID, res: VatResolution) -> (r:
        Result<(), Error>)
        requires
            old(kd).wf(),
            self.vat_id.0 < old(kd)@.vats.len(),
        ensures
            final(kd).wf(),
            r == crate::vat::resolve_outcome(old(kd)@, self.vat_id, vr, res@).0,
            final(kd)@ == crate::vat::resolve_outcome(old(kd)@, self.vat_id, vr, res@).1,
    {
        let ghost kd0 = kd@;
        let ghost nv = kd0.vats.len() as int;
        let ghost np = kd0.promises.len() as int;
        let c = self.vat_id.0;
        let krid = match kd.vat_data[c].map_outbound_resolver(vr) {
            Ok(k) => k,
            Err(e) => {
                return Err(e);
            },
        };
        let p = PromiseID(krid.0);
        let authorized = match kd.promises.decider_of(p) {
            Some(d) => d.0 == c,
            None => false,
        };
        if !authorized {
            return Err(Error::AuthorityViolation);
        }
        let kres = match crate::map_outbound::map_outbound_resolution(&kd.vat_data[c], res) {
            Ok(k) => k,
            Err(e) => {
                return Err(e);
            },
        };
        proof {
            crate::map_outbound::lemma_resolution_outbound_valid(kd0.vats[c as int], res@, nv, np);
        }
        kd.commit_and_notify(krid, kres);
        proof {
            assert(kd@ == crate::vat::resolve_outcome(kd0, self.vat_id, vr, res@).1);
        }
        Ok(())
    }

    /// Reassign the decider of the caller's resolver to whoever currently
    /// decides the named promise, enabling promise pipelining. Valid only
    /// while the caller is the current decider, and only towards a promise
    /// that is still undecided.
    pub fn forward(&self, kd: &mut KernelData, resolver: VatResolverID, promise: VatPromiseID)
        -> (r: Result<(), Error>)
        requires
            old(kd).wf(),
            self.vat_id.0 < old(kd)@.vats.len(),
        ensures
            final(kd).wf(),
            r == crate::vat::forward_outcome(old(kd)@, self.vat_id, resolver, promise).0,
            final(kd)@ == crate::vat::forward_outcome(old(kd)@, self.vat_id, resolver, promise).1,
    {
        let ghost kd0 = kd@;
        let ghost nv = kd0.vats.len() as int;
        let ghost np = kd0.promises.len() as int;
        let c = self.vat_id.0;
        let krid = match kd.vat_data[c].map_outbound_resolver(resolver) {
            Ok(k) => k,
            Err(e) => {
                return Err(e);
            },
        };
        let p1 = PromiseID(krid.0);
        let authorized = match kd.promises.decider_of(p1) {
            Some(d) => d.0 == c,
            None => false,
        };
        if !authorized {
            return Err(Error::AuthorityViolation);
        }
        let p2 = match crate::map_outbound::get_outbound_promise(&kd.vat_data[c], promise) {
            Ok(p) => p,
            Err(e) => {
                return Err(e);
            },
        };
        let new_decider = match kd.promises.decider_of(p2) {
            Some(d) => d,
            None => {
                return Err(Error::AuthorityViolation);
            },
        };
        kd.promises.reassign_decider(p1, new_decider);
        proof {
            let fin = crate::vat::forward_outcome(kd0, self.vat_id, resolver, promise).1;
            assert(kd@.vats =~= fin.vats);
            assert(kd@.names =~= fin.names);
            assert(kd@.queue =~= fin.queue);
            assert(kd@ == fin);
            assert(kd_wf(kd@)) by {
                assert(promise_entry_wf(kd0.promises[p2.0 as int], nv, np));
                assert forall|j: int| 0 <= j < kd@.promises.len() implies promise_entry_wf(
                    #[trigger] kd@.promises[j],
                    nv,
                    np,
                ) by {
                    if j != p1.0 as int {
                        assert(kd@.promises[j] == kd0.promises[j]);
                    }
                }
            }
        }
        Ok(())
    }
}

/// Recording a subscription preserves the kernel invariant.
proof fn lemma_subscribe_wf(kd: KernelDataView, caller: VatID, id: VatPromiseID)
    requires
        kd_wf(kd),
        caller.0 < kd.vats.len(),
    ensures
        kd_wf(crate::vat::subscribe_outcome(kd, caller, id).1),
{
    let nv = kd.vats.len() as int;
    let np = kd.promises.len() as int;
    let fin = crate::vat::subscribe_outcome(kd, caller, id).1;
    match crate::clist::outbound_spec(kd.vats[caller.0 as int].promises, id.0 as int) {
        Err(_) => {},
        Ok(p) => {
            assert(p.0 < np);
            let entry = kd.promises[p.0 as int];
            assert(promise_entry_wf(entry, nv, np));
            if !entry.subscribers.contains(caller) {
                assert(entry.subscribers.push(caller) == crate::clist::inbound_seq(
                    entry.subscribers,
                    caller,
                ));
                crate::clist::lemma_inbound_preserves_injective(entry.subscribers, caller);
            }
            assert forall|j: int| 0 <= j < fin.promises.len() implies promise_entry_wf(
                #[trigger] fin.promises[j],
                nv,
                np,
            ) by {
                if j != p.0 as int {
                    assert(fin.promises[j] == kd.promises[j]);
                }
            }
            assert forall|j: int| 0 <= j < fin.queue.len() implies delivery_wf(
                #[trigger] fin.queue[j],
                nv,
                np,
            ) by {
                if j < kd.queue.len() {
                    assert(fin.queue[j] == kd.queue[j]);
                }
            }
        },
    }
}

// ---------------------------------------------------------------------------
// The kernel and the delivery engine
// ---------------------------------------------------------------------------

/// One dispatch invocation, in the destination vat's local terms: what the
/// delivery engine handed to a vat, recorded in order.
#[allow(inconsistent_fields)]
pub enum VatEvent {
    Deliver { vat: VatID, target: VatDeliverTarget, message: InboundVatMessageView },
    NotifyFulfillToTarget { vat: VatID, promise: VatPromiseID, target: VatArgSlot },
    NotifyFulfillToData { vat: VatID, promise: VatPromiseID, data: VatCapDataView },
    NotifyReject { vat: VatID, promise: VatPromiseID, data: VatCapDataView },
}

/// The kernel-side work of one step on a non-empty queue: the head is
/// popped; a notification or a routable delivery is translated into the
/// destination vat's local terms, allocating local ids as needed, and
/// becomes the dispatch invocation; a delivery whose target routes nowhere
/// is dropped after rejecting its result promise, and nothing is dispatched.
pub open spec fn step_outcome(kd: KernelDataView) -> (KernelDataView, Option<VatEvent>) {
    let head = kd.queue[0];
    let rest = KernelDataView { queue: kd.queue.skip(1), ..kd };
    match head {
        DeliveryView::Notify { vat, promise, resolution } => {
            let vd = rest.vats[vat.0 as int];
            let a = promise_inbound(vd, promise);
            let b = resolution_inbound(a.0, resolution);
            let kd1 = KernelDataView { vats: rest.vats.update(vat.0 as int, b.0), ..rest };
            let ev = match b.1 {
                VatResolutionView::Reference(s) => VatEvent::NotifyFulfillToTarget {
                    vat,
                    promise: a.1,
                    target: s,
                },
                VatResolutionView::Data(d) => VatEvent::NotifyFulfillToData {
                    vat,
                    promise: a.1,
                    data: d,
                },
                VatResolutionView::Rejection(d) => VatEvent::NotifyReject {
                    vat,
                    promise: a.1,
                    data: d,
                },
            };
            (kd1, Some(ev))
        },
        DeliveryView::Deliver { target, message } => match route_spec(
            kd.promises,
            target,
            kd.promises.len() as nat,
        ) {
            Route::ToObject(o) => {
                let vd = rest.vats[o.owner.0 as int];
                let m = message_inbound(vd, message);
                let kd1 = KernelDataView {
                    vats: rest.vats.update(o.owner.0 as int, m.0),
                    ..rest
                };
                (
                    kd1,
                    Some(
                        VatEvent::Deliver {
                            vat: o.owner,
                            target: VatDeliverTarget::Export(VatExportID(o.index.0)),
                            message: m.1,
                        },
                    ),
                )
            },
            Route::ToPromise(p, dv) => {
                let vd = rest.vats[dv.0 as int];
                let a = promise_inbound(vd, p);
                let m = message_inbound(a.0, message);
                let kd1 = KernelDataView { vats: rest.vats.update(dv.0 as int, m.0), ..rest };
                (
                    kd1,
                    Some(
                        VatEvent::Deliver {
                            vat: dv,
                            target: VatDeliverTarget::Promise(a.1),
                            message: m.1,
                        },
                    ),
                )
            },
            Route::Dead => match message.resolver {
                Some(r) => (reject_outcome(rest, r), None),
                None => (rest, None),
            },
        },
    }
}

/// Configuration input: the vats to register, in order, each under a
/// host-facing name with its dispatch implementation. Kernel construction
/// assigns vat ids in this order.
pub struct Config<D> {
    pub vats: Vec<(VatName, D)>,
}

impl<D> Config<D> {
    /// The configured names, in registration order.
    pub open spec fn spec_names(&self) -> Seq<Seq<char>> {
        Seq::new(self.vats@.len(), |i: int| self.vats@[i].0.0@)
    }

    /// An empty configuration.
    pub fn new() -> (r: Self)
        ensures
            r.vats@.len() == 0,
    {
        Config { vats: Vec::new() }
    }

    /// Register one more vat under `name`.
    pub fn add_vat(&mut self, name: VatName, dispatch: D)
        ensures
            final(self).vats@ == old(self).vats@.push((name, dispatch)),
    {
        self.vats.push((name, dispatch));
    }
}

/// The kernel: owns the shared state and one dispatcher per vat, and drives
/// the step loop. The ghost histories record, in order, which queued
/// deliveries were processed and which dispatch invocations were made.
pub struct Kernel<D: Dispatch> {
    data: KernelData,
    dispatchers: Vec<D>,
    hist_processed: Ghost<Seq<DeliveryView>>,
    hist_events: Ghost<Seq<VatEvent>>,
}

impl<D: Dispatch> View for Kernel<D> {
    type V = KernelDataView;

    closed spec fn view(&self) -> KernelDataView {
        self.data@
    }
}

impl<D: Dispatch> Kernel<D> {
    /// The kernel invariant: the shared state is well-formed and there is
    /// exactly one dispatcher per registered vat.
    pub closed spec fn wf(&self) -> bool {
        self.data.wf() && self.dispatchers@.len() == self.data@.vats.len()
    }

    /// The queued deliveries processed so far, in processing order.
    pub closed spec fn processed(&self) -> Seq<DeliveryView> {
        self.hist_processed@
    }

    /// The dispatch invocations made so far, in order.
    pub closed spec fn events(&self) -> Seq<VatEvent> {
        self.hist_events@
    }

    /// Construct a kernel from a configuration: each named vat receives a
    /// fresh vat id in configuration order and an empty `VatData`; the
    /// promise table and the run queue start empty.
    pub fn new(cfg: Config<D>) -> (r: Self)
        ensures
            r.wf(),
            r@.names == cfg.spec_names(),
            r@.vats.len() == cfg.vats@.len(),
            forall|i: int|
                0 <= i < r@.vats.len() ==> r@.vats[i] == (VatDataView {
                    id: VatID(i as usize),
                    imports: Seq::<ObjectID>::empty(),
                    promises: Seq::<PromiseID>::empty(),
                    resolvers: Seq::<ResolverID>::empty(),
                }),
            r@.promises == Seq::<crate::promise::PromiseView>::empty(),
            r@.queue == Seq::<DeliveryView>::empty(),
            r.processed() == Seq::<DeliveryView>::empty(),
            r.events() == Seq::<VatEvent>::empty(),
    {
        let ghost names0 = cfg.spec_names();
        let mut cfg = cfg;
        let ghost total = cfg.vats@.len();
        let mut vat_names: Vec<VatName> = Vec::new();
        let mut vat_data: Vec<VatData> = Vec::new();
        let mut dispatchers: Vec<D> = Vec::new();
        while cfg.vats.len() > 0
            invariant
                vat_names@.len() == vat_data@.len(),
                vat_names@.len() == dispatchers@.len(),
                vat_names@.len() + cfg.vats@.len() == total,
                names0.len() == total,
                forall|i: int| 0 <= i < vat_names@.len() ==> vat_names@[i].0@ == names0[i],
                forall|j: int|
                    0 <= j < cfg.vats@.len() ==> (#[trigger] cfg.vats@[j]).0.0@ == names0[
                        vat_names@.len() + j],
                forall|i: int|
                    0 <= i < vat_data@.len() ==> (#[trigger] vat_data@[i])@ == (VatDataView {
                        id: VatID(i as usize),
                        imports: Seq::<ObjectID>::empty(),
                        promises: Seq::<PromiseID>::empty(),
                        resolvers: Seq::<ResolverID>::empty(),
                    }),
            decreases cfg.vats@.len(),
        {
            let n = vat_data.len();
            let ghost before = cfg.vats@;
            let (name, d) = cfg.vats.remove(0);
            vat_names.push(name);
            vat_data.push(VatData::new(VatID(n)));
            dispatchers.push(d);
            proof {
                assert(forall|j: int|
                    0 <= j < cfg.vats@.len() ==> cfg.vats@[j] == before[j + 1]);
            }
        }
        let data = KernelData {
            vat_names,
            vat_data,
            promises: PromiseTable::new(),
            run_queue: Vec::new(),
        };
        let r = Kernel {
            data,
            dispatchers,
            hist_processed: Ghost(Seq::empty()),
            hist_events: Ghost(Seq::empty()),
        };
        proof {
            assert(r@.names =~= names0);
            assert(r@.queue =~= Seq::<DeliveryView>::empty());
            assert(r@.promises =~= Seq::<crate::promise::PromiseView>::empty());
            assert(kd_wf(r@));
        }
        r
    }

    /// Read access to the shared kernel state, for diagnostics.
    pub fn data(&self) -> (r: &KernelData)
        ensures
            r@ == self@,
    {
        &self.data
    }

    /// An export returns home with the same index: translating an inbound
    /// delivery target for the owning vat is the identity and consumes no
    /// CList entry.
    pub fn map_inbound_target(&self, id: KernelExportID) -> (r: VatExportID)
        ensures
            r.0 == id.0,
    {
        VatExportID(id.0)
    }

    /// Pre-register an import at configuration time: vat `for_vat` gains
    /// import `for_id` pointing at `to_vat`'s export `to_id`. A name that
    /// resolves to no registered vat is a configuration error. The local id
    /// is the next unused one and the object must be new to that vat, as
    /// configuration wiring happens before any message traffic.
    pub fn add_import(
        &mut self,
        for_vat: &VatName,
        for_id: VatImportID,
        to_vat: &VatName,
        to_id: KernelExportID,
    ) -> (r: Result<(), Error>)
        requires
            old(self).wf(),
            match name_index(old(self)@.names, for_vat.0@) {
                Some(f) => match name_index(old(self)@.names, to_vat.0@) {
                    Some(t) => for_id.0 == old(self)@.vats[f].imports.len() && !old(
                        self,
                    )@.vats[f].imports.contains(
                        ObjectID { owner: VatID(t as usize), index: to_id },
                    ),
                    None => true,
                },
                None => true,
            },
        ensures
            final(self).wf(),
            final(self).processed() == old(self).processed(),
            final(self).events() == old(self).events(),
            match name_index(old(self)@.names, for_vat.0@) {
                Some(f) => match name_index(old(self)@.names, to_vat.0@) {
                    Some(t) => r == Ok::<(), Error>(()) && final(self)@ == (KernelDataView {
                        vats: old(self)@.vats.update(
                            f,
                            VatDataView {
                                imports: old(self)@.vats[f].imports.push(
                                    ObjectID { owner: VatID(t as usize), index: to_id },
                                ),
                                ..old(self)@.vats[f]
                            },
                        ),
                        ..old(self)@
                    }),
                    None => r == Err::<(), Error>(Error::UnknownVat) && *final(self) == *old(
                        self,
                    ),
                },
                None => r == Err::<(), Error>(Error::UnknownVat) && *final(self) == *old(self),
            },
    {
        let ghost kd0 = self.data@;
        let ghost nv = kd0.vats.len() as int;
        let ghost np = kd0.promises.len() as int;
        let f = match self.data.vat_id_for_name(for_vat) {
            Some(v) => v,
            None => {
                return Err(Error::UnknownVat);
            },
        };
        let t = match self.data.vat_id_for_name(to_vat) {
            Some(v) => v,
            None => {
                return Err(Error::UnknownVat);
            },
        };
        proof {
            lemma_name_index_bound(kd0.names, for_vat.0@);
            lemma_name_index_bound(kd0.names, to_vat.0@);
        }
        let vd = &mut self.data.vat_data[f.0];
        vd.add_import(ObjectID { owner: t, index: to_id }, for_id);
        proof {
            let fin = KernelDataView {
                vats: kd0.vats.update(
                    f.0 as int,
                    VatDataView {
                        imports: kd0.vats[f.0 as int].imports.push(
                            ObjectID { owner: t, index: to_id },
                        ),
                        ..kd0.vats[f.0 as int]
                    },
                ),
                ..kd0
            };
            assert(self.data@.vats =~= fin.vats);
            assert(self.data@.names =~= fin.names);
            assert(self.data@.queue =~= fin.queue);
            assert(self.data@ == fin);
            assert(kd_wf(self.data@)) by {
                assert forall|i: int|
                    0 <= i < self.data@.vats.len() implies vd_wf(#[trigger] self.data@.vats[i])
                    && vd_valid(self.data@.vats[i], nv, np) && self.data@.vats[i].id == VatID(
                    i as usize,
                ) by {
                    if i == f.0 as int {
                        let s1 = self.data@.vats[i].imports;
                        assert(s1 == crate::clist::inbound_seq(
                            kd0.vats[i].imports,
                            ObjectID { owner: t, index: to_id },
                        ));
                        crate::clist::lemma_inbound_preserves_injective(
                            kd0.vats[i].imports,
                            ObjectID { owner: t, index: to_id },
                        );
                        assert forall|j: int| 0 <= j < s1.len() implies (#[trigger] s1[j]).owner.0
                            < nv by {
                            if j < kd0.vats[i].imports.len() {
                            } else {
                                assert(s1[j] == ObjectID { owner: t, index: to_id });
                            }
                        }
                    }
                }
            }
        }
        Ok(())
    }

    /// Enqueue a bootstrap delivery from outside any vat, addressed at
    /// `export` of the vat registered under `name`. Used to kick off a run;
    /// an unregistered name is a configuration error.
    pub fn push(&mut self, name: &VatName, export: KernelExportID, message: KernelMessage) -> (r:
        Result<(), Error>)
        requires
            old(self).wf(),
            message_wf(
                message@,
                old(self)@.vats.len() as int,
                old(self)@.promises.len() as int,
            ),
        ensures
            final(self).wf(),
            final(self).processed() == old(self).processed(),
            final(self).events() == old(self).events(),
            match name_index(old(self)@.names, name.0@) {
                Some(i) => r == Ok::<(), Error>(()) && final(self)@ == (KernelDataView {
                    queue: old(self)@.queue.push(
                        DeliveryView::Deliver {
                            target: CapSlot::Object(
                                ObjectID { owner: VatID(i as usize), index: export },
                            ),
                            message: message@,
                        },
                    ),
                    ..old(self)@
                }),
                None => r == Err::<(), Error>(Error::UnknownVat) && *final(self) == *old(self),
            },
    {
        let ghost kd0 = self.data@;
        let v = match self.data.vat_id_for_name(name) {
            Some(v) => v,
            None => {
                return Err(Error::UnknownVat);
            },
        };
        proof {
            lemma_name_index_bound(kd0.names, name.0@);
        }
        self.data.run_queue.push(
            PendingDelivery::Deliver {
                target: CapSlot::Object(ObjectID { owner: v, index: export }),
                message,
            },
        );
        proof {
            assert(self.data@.vats =~= kd0.vats);
            assert(self.data@.names =~= kd0.names);
            assert(self.data@.queue =~= kd0.queue.push(
                DeliveryView::Deliver {
                    target: CapSlot::Object(ObjectID { owner: v, index: export }),
                    message: message@,
                },
            ));
            assert(kd_wf(self.data@)) by {
                assert forall|j: int|
                    0 <= j < self.data@.queue.len() implies delivery_wf(
                    #[trigger] self.data@.queue[j],
                    kd0.vats.len() as int,
                    kd0.promises.len() as int,
                ) by {
                    if j < kd0.queue.len() {
                        assert(self.data@.queue[j] == kd0.queue[j]);
                    }
                }
            }
        }
        Ok(())
    }

    /// Process exactly one queued delivery; an empty queue is a no-op. The
    /// head is popped and recorded in processing order, so deliveries are
    /// handled strictly first-in first-out: the rest of the queue survives
    /// as a prefix of the new queue, and anything the dispatched vat
    /// enqueues goes behind it. The kernel-side work — routing and inbound
    /// translation — is exactly `step_outcome`; what the dispatched vat then
    /// does to the state is bounded by `dispatch_frame`.
    pub fn step(&mut self)
        requires
            old(self).wf(),
        ensures
            final(self).wf(),
            old(self)@.queue.len() == 0 ==> *final(self) == *old(self),
            old(self)@.queue.len() > 0 ==> final(self).processed() == old(
                self,
            ).processed().push(old(self)@.queue[0]),
            old(self)@.queue.len() > 0 ==> old(self)@.queue.skip(1).is_prefix_of(
                final(self)@.queue,
            ),
            old(self)@.queue.len() > 0 ==> match step_outcome(old(self)@).1 {
                Some(ev) => final(self).events() == old(self).events().push(ev)
                    && dispatch_frame(step_outcome(old(self)@).0, final(self)@),
                None => final(self).events() == old(self).events() && final(self)@
                    == step_outcome(old(self)@).0,
            },
    {
        let ghost kd0 = self.data@;
        let ghost nv = kd0.vats.len() as int;
        let ghost np = kd0.promises.len() as int;
        if self.data.run_queue.len() == 0 {
            return ;
        }
        let head = self.data.run_queue.remove(0);
        let ghost head0 = head@;
        let ghost rest = KernelDataView { queue: kd0.queue.skip(1), ..kd0 };
        self.hist_processed = Ghost(self.hist_processed@.push(head0));
        proof {
            assert(kd0.queue.remove(0) =~= kd0.queue.skip(1));
            assert(self.data@.queue =~= kd0.queue.skip(1));
            assert(self.data@.vats =~= kd0.vats);
            assert(self.data@.names =~= kd0.names);
            assert(self.data@ == rest);
            assert(delivery_wf(head0, nv, np));
            assert(kd_wf(rest)) by {
                assert forall|j: int|
                    0 <= j < rest.queue.len() implies delivery_wf(
                    #[trigger] rest.queue[j],
                    nv,
                    np,
                ) by {
                    assert(rest.queue[j] == kd0.queue[j + 1]);
                }
            }
        }
        match head {
            PendingDelivery::Notify { vat, promise, resolution } => {
                let ghost res0 = resolution@;
                let vd = &mut self.data.vat_data[vat.0];
                proof {
                    lemma_promise_inbound_ok(vd@, promise, nv, np);
                    lemma_resolution_inbound_ok(
                        promise_inbound(vd@, promise).0,
                        res0,
                        nv,
                        np,
                    );
                }
                let lp = vd.map_inbound_promise(promise);
                let lres = vd.map_inbound_resolution(resolution);
                let ghost lres0 = lres@;
                let ghost mid = step_outcome(kd0).0;
                let ghost ev = (match lres0 {
                    VatResolutionView::Reference(sl) => VatEvent::NotifyFulfillToTarget {
                        vat,
                        promise: lp,
                        target: sl,
                    },
                    VatResolutionView::Data(d) => VatEvent::NotifyFulfillToData {
                        vat,
                        promise: lp,
                        data: d,
                    },
                    VatResolutionView::Rejection(d) => VatEvent::NotifyReject {
                        vat,
                        promise: lp,
                        data: d,
                    },
                });
                proof {
                    assert(self.data@.vats =~= mid.vats);
                    assert(self.data@.names =~= mid.names);
                    assert(self.data@.queue =~= mid.queue);
                    assert(self.data@ == mid);
                    assert(Some(ev) == step_outcome(kd0).1);
                    assert(kd_wf(self.data@)) by {
                        assert forall|i: int|
                            0 <= i < self.data@.vats.len() implies vd_wf(
                            #[trigger] self.data@.vats[i],
                        ) && vd_valid(self.data@.vats[i], nv, np) && self.data@.vats[i].id
                            == VatID(i as usize) by {
                            if i != vat.0 as int {
                                assert(self.data@.vats[i] == kd0.vats[i]);
                            }
                        }
                    }
                }
                self.hist_events = Ghost(self.hist_events@.push(ev));
                let sys = crate::vat::VatSyscall::new(vat);
                let disp = &mut self.dispatchers[vat.0];
                match lres {
                    VatResolution::Reference(sl) => disp.notify_fulfill_to_target(
                        &sys,
                        &mut self.data,
                        lp,
                        sl,
                    ),
                    VatResolution::Data(d) => disp.notify_fulfill_to_data(
                        &sys,
                        &mut self.data,
                        lp,
                        d,
                    ),
                    VatResolution::Rejection(d) => disp.notify_reject(
                        &sys,
                        &mut self.data,
                        lp,
                        d,
                    ),
                }
                proof {
                    assert(kd0.queue.skip(1).is_prefix_of(self.data@.queue));
                }
            },
            PendingDelivery::Deliver { target, message } => {
                let ghost msg0 = message@;
                let route = self.data.route_target(target);
                match route {
                    Route::ToObject(o) => {
                        proof {
                            lemma_route_wf(kd0.promises, target, np as nat, nv);
                            lemma_message_inbound_ok(kd0.vats[o.owner.0 as int], msg0, nv, np);
                        }
                        let vd = &mut self.data.vat_data[o.owner.0];
                        let vmsg = vd.map_inbound_message(message);
                        let ghost mid = step_outcome(kd0).0;
                        let ghost ev = VatEvent::Deliver {
                            vat: o.owner,
                            target: VatDeliverTarget::Export(VatExportID(o.index.0)),
                            message: vmsg@,
                        };
                        proof {
                            assert(self.data@.vats =~= mid.vats);
                            assert(self.data@.names =~= mid.names);
                            assert(self.data@.queue =~= mid.queue);
                            assert(self.data@ == mid);
                            assert(Some(ev) == step_outcome(kd0).1);
                            assert(kd_wf(self.data@)) by {
                                assert forall|i: int|
                                    0 <= i < self.data@.vats.len() implies vd_wf(
                                    #[trigger] self.data@.vats[i],
                                ) && vd_valid(self.data@.vats[i], nv, np)
                                    && self.data@.vats[i].id == VatID(i as usize) by {
                                    if i != o.owner.0 as int {
                                        assert(self.data@.vats[i] == kd0.vats[i]);
                                    }
                                }
                            }
                        }
                        self.hist_events = Ghost(self.hist_events@.push(ev));
                        let sys = crate::vat::VatSyscall::new(o.owner);
                        let disp = &mut self.dispatchers[o.owner.0];
                        disp.deliver(
                            &sys,
                            &mut self.data,
                            VatDeliverTarget::Export(VatExportID(o.index.0)),
                            vmsg,
                        );
                        proof {
                            assert(kd0.queue.skip(1).is_prefix_of(self.data@.queue));
                        }
                    },
                    Route::ToPromise(p, dvat) => {
                        proof {
                            lemma_route_wf(kd0.promises, target, np as nat, nv);
                            lemma_promise_inbound_ok(kd0.vats[dvat.0 as int], p, nv, np);
                            lemma_message_inbound_ok(
                                promise_inbound(kd0.vats[dvat.0 as int], p).0,
                                msg0,
                                nv,
                                np,
                            );
                        }
                        let vd = &mut self.data.vat_data[dvat.0];
                        let lp = vd.map_inbound_promise(p);
                        let vmsg = vd.map_inbound_message(message);
                        let ghost mid = step_outcome(kd0).0;
                        let ghost ev = VatEvent::Deliver {
                            vat: dvat,
                            target: VatDeliverTarget::Promise(lp),
                            message: vmsg@,
                        };
                        proof {
                            assert(self.data@.vats =~= mid.vats);
                            assert(self.data@.names =~= mid.names);
                            assert(self.data@.queue =~= mid.queue);
                            assert(self.data@ == mid);
                            assert(Some(ev) == step_outcome(kd0).1);
                            assert(kd_wf(self.data@)) by {
                                assert forall|i: int|
                                    0 <= i < self.data@.vats.len() implies vd_wf(
                                    #[trigger] self.data@.vats[i],
                                ) && vd_valid(self.data@.vats[i], nv, np)
                                    && self.data@.vats[i].id == VatID(i as usize) by {
                                    if i != dvat.0 as int {
                                        assert(self.data@.vats[i] == kd0.vats[i]);
                                    }
                                }
                            }
                        }
                        self.hist_events = Ghost(self.hist_events@.push(ev));
                        let sys = crate::vat::VatSyscall::new(dvat);
                        let disp = &mut self.dispatchers[dvat.0];
                        disp.deliver(
                            &sys,
                            &mut self.data,
                            VatDeliverTarget::Promise(lp),
                            vmsg,
                        );
                        proof {
                            assert(kd0.queue.skip(1).is_prefix_of(self.data@.queue));
                        }
                    },
                    Route::Dead => {
                        match message.resolver {
                            Some(r) => {
                                self.data.reject_unresolved(r);
                                proof {
                                    assert(self.data@ == step_outcome(kd0).0);
                                    assert(kd0.queue.skip(1).is_prefix_of(self.data@.queue)) by {
                                        assert(kd0.queue.skip(1).is_prefix_of(
                                            reject_outcome(rest, r).queue,
                                        ));
                                    }
                                }
                            },
                            None => {
                                proof {
                                    assert(self.data@ == step_outcome(kd0).0);
                                    assert(kd0.queue.skip(1).is_prefix_of(self.data@.queue));
                                }
                            },
                        }
                    },
                }
            },
        }
    }

    /// Drain the run queue: loop `step()` until the queue is empty, or
    /// until `max_steps` deliveries have been processed. A vat set that
    /// keeps enqueuing new work can keep the kernel busy forever, so the
    /// host bounds each drain with a step budget; the return value says
    /// whether the queue was empty when the call returned.
    pub fn run(&mut self, max_steps: usize) -> (drained: bool)
        requires
            old(self).wf(),
        ensures
            final(self).wf(),
            drained == (final(self)@.queue.len() == 0),
            final(self).processed().len() <= old(self).processed().len() + max_steps,
            !drained ==> final(self).processed().len() == old(self).processed().len()
                + max_steps,
    {
        let mut i: usize = 0;
        while i < max_steps
            invariant
                self.wf(),
                i <= max_steps,
                self.processed().len() == old(self).processed().len() + i,
            decreases max_steps - i,
        {
            if self.data.run_queue.len() == 0 {
                return true;
            }
            self.step();
            i += 1;
        }
        self.data.run_queue.len() == 0
    }
}

/// Self-delivery shortcut: a message addressed at an object is delivered to
/// the object's own owning vat under the object's home export index. The
/// translation of the target is the identity, so a delivery that carries no
/// argument slots and no resolver changes no CList at all: no allocation is
/// consumed.
pub proof fn lemma_self_delivery_shortcut(kd: KernelDataView, o: ObjectID, m: KernelMessageView)
    requires
        kd_wf(kd),
        kd.queue.len() > 0,
        kd.queue[0] == (DeliveryView::Deliver { target: CapSlot::Object(o), message: m }),
        m.args.slots.len() == 0,
        m.resolver is None,
    ensures
        step_outcome(kd).1 == Some(
            VatEvent::Deliver {
                vat: o.owner,
                target: VatDeliverTarget::Export(VatExportID(o.index.0)),
                message: InboundVatMessageView {
                    name: m.name,
                    args: VatCapDataView { body: m.args.body, slots: Seq::<VatArgSlot>::empty() },
                    resolver: None,
                },
            },
        ),
        step_outcome(kd).0.vats == kd.vats,
{
    assert(delivery_wf(kd.queue[0], kd.vats.len() as int, kd.promises.len() as int));
    let vd = kd.vats[o.owner.0 as int];
    assert(slots_inbound(vd, m.args.slots).0 == vd);
    assert(slots_inbound(vd, m.args.slots).1 =~= Seq::<VatArgSlot>::empty());
    assert(step_outcome(kd).0.vats =~= kd.vats);
}

/// A name that resolves does so to a registered vat.
proof fn lemma_name_index_bound(names: Seq<Seq<char>>, n: Seq<char>)
    ensures
        name_index(names, n) matches Some(i) ==> 0 <= i < names.len(),
    decreases names.len(),
{
    if names.len() > 0 && names[0] != n {
        lemma_name_index_bound(names.skip(1), n);
    }
}

} // verus!
