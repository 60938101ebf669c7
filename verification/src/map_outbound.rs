//! Outbound translation: vat-local identifiers leaving a vat on a syscall.
//!
//! Allocation happens only on the inbound path, so every outbound step is a
//! pure lookup: a vat may hand the kernel only identifiers it was actually
//! given. A local id with no mapping is a confinement violation and surfaces
//! as a typed error; it never crashes the kernel and never fabricates a
//! kernel id. A vat's own export needs no table: its kernel identity is the
//! pair of the vat and the export index itself.

use vstd::prelude::*;

use crate::clist::outbound_spec;
use crate::kernel::{capdata_wf, resolution_wf, slot_wf, vd_valid, VatData, VatDataView};
use crate::kernel_types::{
    CapData, CapDataView, CapSlot, Error, KernelMessage, KernelMessageView, ObjectID,
    PromiseID, Resolution, ResolutionView,
};
use crate::vat_types::{
    OutboundVatMessage, OutboundVatMessageView, VatArgSlot, VatCapData, VatCapDataView,
    VatPromiseID, VatResolution, VatResolutionView, VatSendTarget,
};

verus! {

/// One vat-local slot leaving the vat: an import or promise is looked up; the
/// vat's own export becomes the object owned by the vat under that index.
pub open spec fn slot_outbound(vd: VatDataView, slot: VatArgSlot) -> Result<CapSlot, Error> {
    match slot {
        VatArgSlot::Import(l) => match outbound_spec(vd.imports, l.0 as int) {
            Ok(o) => Ok(CapSlot::Object(o)),
            Err(e) => Err(e),
        },
        VatArgSlot::Export(e) => Ok(
            CapSlot::Object(
                ObjectID { owner: vd.id, index: crate::kernel_types::KernelExportID(e.0) },
            ),
        ),
        VatArgSlot::Promise(l) => match outbound_spec(vd.promises, l.0 as int) {
            Ok(p) => Ok(CapSlot::Promise(p)),
            Err(e) => Err(e),
        },
    }
}

/// A send target leaving the vat.
pub open spec fn send_target_outbound(vd: VatDataView, t: VatSendTarget) -> Result<
    CapSlot,
    Error,
> {
    match t {
        VatSendTarget::Import(l) => match outbound_spec(vd.imports, l.0 as int) {
            Ok(o) => Ok(CapSlot::Object(o)),
            Err(e) => Err(e),
        },
        VatSendTarget::Promise(l) => match outbound_spec(vd.promises, l.0 as int) {
            Ok(p) => Ok(CapSlot::Promise(p)),
            Err(e) => Err(e),
        },
    }
}

/// A slot list leaving the vat: every slot must be mapped, or the whole
/// translation fails.
pub open spec fn slots_outbound(vd: VatDataView, slots: Seq<VatArgSlot>) -> Result<
    Seq<CapSlot>,
    Error,
>
    decreases slots.len(),
{
    if slots.len() == 0 {
        Ok(Seq::<CapSlot>::empty())
    } else {
        match slots_outbound(vd, slots.drop_last()) {
            Err(e) => Err(e),
            Ok(out) => match slot_outbound(vd, slots.last()) {
                Err(e) => Err(e),
                Ok(k) => Ok(out.push(k)),
            },
        }
    }
}

/// A payload leaving the vat: opaque body kept, slots translated in order.
pub open spec fn capdata_outbound(vd: VatDataView, d: VatCapDataView) -> Result<
    CapDataView,
    Error,
> {
    match slots_outbound(vd, d.slots) {
        Err(e) => Err(e),
        Ok(s) => Ok(CapDataView { body: d.body, slots: s }),
    }
}

/// A message leaving the vat; the result resolver is attached by the send
/// path afterwards.
pub open spec fn message_outbound(vd: VatDataView, m: OutboundVatMessageView) -> Result<
    KernelMessageView,
    Error,
> {
    match capdata_outbound(vd, m.args) {
        Err(e) => Err(e),
        Ok(args) => Ok(KernelMessageView { name: m.name, args: args, resolver: None }),
    }
}

/// A terminal resolution leaving the deciding vat.
pub open spec fn resolution_outbound(vd: VatDataView, r: VatResolutionView) -> Result<
    ResolutionView,
    Error,
> {
    match r {
        VatResolutionView::Reference(s) => match slot_outbound(vd, s) {
            Err(e) => Err(e),
            Ok(k) => Ok(ResolutionView::Reference(k)),
        },
        VatResolutionView::Data(d) => match capdata_outbound(vd, d) {
            Err(e) => Err(e),
            Ok(k) => Ok(ResolutionView::Data(k)),
        },
        VatResolutionView::Rejection(d) => match capdata_outbound(vd, d) {
            Err(e) => Err(e),
            Ok(k) => Ok(ResolutionView::Rejection(k)),
        },
    }
}

/// A translation that failed on some prefix of the slots stays failed when
/// more slots follow.
proof fn lemma_slots_outbound_err_mono(vd: VatDataView, slots: Seq<VatArgSlot>, i: int, j: int)
    requires
        0 <= i <= j <= slots.len(),
        slots_outbound(vd, slots.take(i)) is Err,
    ensures
        slots_outbound(vd, slots.take(j)) == slots_outbound(vd, slots.take(i)),
    decreases j - i,
{
    if j > i {
        lemma_slots_outbound_err_mono(vd, slots, i, j - 1);
        assert(slots.take(j).drop_last() =~= slots.take(j - 1));
    }
}

/// Under the kernel invariant, whatever leaves a vat names only live ids:
/// imports and promises come from the vat's validated tables, and an export
/// names the vat itself.
pub proof fn lemma_slot_outbound_valid(
    vd: VatDataView,
    s: VatArgSlot,
    n_vats: int,
    n_promises: int,
)
    requires
        vd_valid(vd, n_vats, n_promises),
        vd.id.0 < n_vats,
    ensures
        slot_outbound(vd, s) matches Ok(k) ==> slot_wf(k, n_vats, n_promises),
{
}

/// As `lemma_slot_outbound_valid`, for a send target.
pub proof fn lemma_send_target_outbound_valid(
    vd: VatDataView,
    t: VatSendTarget,
    n_vats: int,
    n_promises: int,
)
    requires
        vd_valid(vd, n_vats, n_promises),
        vd.id.0 < n_vats,
    ensures
        send_target_outbound(vd, t) matches Ok(k) ==> slot_wf(k, n_vats, n_promises),
{
}

/// As `lemma_slot_outbound_valid`, for a slot list.
pub proof fn lemma_slots_outbound_valid(
    vd: VatDataView,
    slots: Seq<VatArgSlot>,
    n_vats: int,
    n_promises: int,
)
    requires
        vd_valid(vd, n_vats, n_promises),
        vd.id.0 < n_vats,
    ensures
        slots_outbound(vd, slots) matches Ok(out) ==> out.len() == slots.len() && forall|j: int|
            0 <= j < out.len() ==> slot_wf(#[trigger] out[j], n_vats, n_promises),
    decreases slots.len(),
{
    if slots.len() > 0 {
        lemma_slots_outbound_valid(vd, slots.drop_last(), n_vats, n_promises);
        lemma_slot_outbound_valid(vd, slots.last(), n_vats, n_promises);
        if slots_outbound(vd, slots) is Ok {
            let out = slots_outbound(vd, slots)->Ok_0;
            let prev = slots_outbound(vd, slots.drop_last())->Ok_0;
            assert(forall|j: int| 0 <= j < prev.len() ==> out[j] == prev[j]);
        }
    }
}

/// As `lemma_slot_outbound_valid`, for a payload.
pub proof fn lemma_capdata_outbound_valid(
    vd: VatDataView,
    d: VatCapDataView,
    n_vats: int,
    n_promises: int,
)
    requires
        vd_valid(vd, n_vats, n_promises),
        vd.id.0 < n_vats,
    ensures
        capdata_outbound(vd, d) matches Ok(k) ==> capdata_wf(k, n_vats, n_promises),
{
    lemma_slots_outbound_valid(vd, d.slots, n_vats, n_promises);
}

/// As `lemma_slot_outbound_valid`, for a resolution.
pub proof fn lemma_resolution_outbound_valid(
    vd: VatDataView,
    r: VatResolutionView,
    n_vats: int,
    n_promises: int,
)
    requires
        vd_valid(vd, n_vats, n_promises),
        vd.id.0 < n_vats,
    ensures
        resolution_outbound(vd, r) matches Ok(k) ==> resolution_wf(k, n_vats, n_promises),
{
    match r {
        VatResolutionView::Reference(s) => {
            lemma_slot_outbound_valid(vd, s, n_vats, n_promises);
        },
        VatResolutionView::Data(d) => {
            lemma_capdata_outbound_valid(vd, d, n_vats, n_promises);
        },
        VatResolutionView::Rejection(d) => {
            lemma_capdata_outbound_valid(vd, d, n_vats, n_promises);
        },
    }
}

/// Translate a vat-supplied promise handle outbound; a handle never given is
/// a confinement violation.
pub fn map_outbound_promise(vd: &VatData, id: VatPromiseID) -> (r: Result<PromiseID, Error>)
    ensures
        r == outbound_spec(vd@.promises, id.0 as int),
{
    vd.map_outbound_promise_handle(id)
}

/// Translate a promise handle named in a resolution operation; it must
/// already exist, exactly as an argument promise must.
pub fn get_outbound_promise(vd: &VatData, id: VatPromiseID) -> (r: Result<PromiseID, Error>)
    ensures
        r == outbound_spec(vd@.promises, id.0 as int),
{
    map_outbound_promise(vd, id)
}

/// Translate one argument slot outbound.
pub fn map_outbound_slot(vd: &VatData, slot: VatArgSlot) -> (r: Result<CapSlot, Error>)
    ensures
        r == slot_outbound(vd@, slot),
{
    match slot {
        VatArgSlot::Import(l) => match vd.map_outbound_import(l) {
            Ok(o) => Ok(CapSlot::Object(o)),
            Err(e) => Err(e),
        },
        VatArgSlot::Export(e) => Ok(
            CapSlot::Object(
                ObjectID { owner: vd.id(), index: crate::kernel_types::KernelExportID(e.0) },
            ),
        ),
        VatArgSlot::Promise(l) => match map_outbound_promise(vd, l) {
            Ok(p) => Ok(CapSlot::Promise(p)),
            Err(e) => Err(e),
        },
    }
}

/// Translate a payload outbound; fails with the slot that has no mapping.
pub fn map_outbound_capdata(vd: &VatData, data: VatCapData) -> (r: Result<CapData, Error>)
    ensures
        match r {
            Ok(k) => capdata_outbound(vd@, data@) == Ok::<CapDataView, Error>(k@),
            Err(e) => capdata_outbound(vd@, data@) == Err::<CapDataView, Error>(e),
        },
{
    let VatCapData { body, slots } = data;
    let mut out: Vec<CapSlot> = Vec::new();
    let n = slots.len();
    let mut i: usize = 0;
    while i < n
        invariant
            n == slots.len(),
            i <= n,
            data@.slots == slots@,
            data@.body == body@,
            slots_outbound(vd@, slots@.take(i as int)) == Ok::<Seq<CapSlot>, Error>(out@),
        decreases n - i,
    {
        let res = map_outbound_slot(vd, slots[i]);
        proof {
            assert(slots@.take(i as int + 1).drop_last() =~= slots@.take(i as int));
            assert(slots@.take(i as int + 1).last() == slots@[i as int]);
        }
        match res {
            Ok(k) => {
                out.push(k);
            },
            Err(e) => {
                proof {
                    assert(slots_outbound(vd@, slots@.take(i as int + 1)) == Err::<
                        Seq<CapSlot>,
                        Error,
                    >(e));
                    lemma_slots_outbound_err_mono(vd@, slots@, i as int + 1, n as int);
                    assert(slots@.take(n as int) =~= slots@);
                }
                return Err(e);
            },
        }
        i += 1;
    }
    proof {
        assert(slots@.take(n as int) =~= slots@);
    }
    Ok(CapData { body, slots: out })
}

/// Translate a whole message outbound; the resolver slot is left empty for
/// the send path to fill.
pub fn map_outbound_message(vd: &VatData, m: OutboundVatMessage) -> (r: Result<
    KernelMessage,
    Error,
>)
    ensures
        match r {
            Ok(k) => message_outbound(vd@, m@) == Ok::<KernelMessageView, Error>(k@),
            Err(e) => message_outbound(vd@, m@) == Err::<KernelMessageView, Error>(e),
        },
{
    let OutboundVatMessage { name, args } = m;
    match map_outbound_capdata(vd, args) {
        Ok(kargs) => Ok(KernelMessage { name, args: kargs, resolver: None }),
        Err(e) => Err(e),
    }
}

/// Translate a terminal resolution outbound.
pub fn map_outbound_resolution(vd: &VatData, r: VatResolution) -> (out: Result<Resolution, Error>)
    ensures
        match out {
            Ok(k) => resolution_outbound(vd@, r@) == Ok::<ResolutionView, Error>(k@),
            Err(e) => resolution_outbound(vd@, r@) == Err::<ResolutionView, Error>(e),
        },
{
    match r {
        VatResolution::Reference(s) => match map_outbound_slot(vd, s) {
            Ok(k) => Ok(Resolution::Reference(k)),
            Err(e) => Err(e),
        },
        VatResolution::Data(d) => match map_outbound_capdata(vd, d) {
            Ok(k) => Ok(Resolution::Data(k)),
            Err(e) => Err(e),
        },
        VatResolution::Rejection(d) => match map_outbound_capdata(vd, d) {
            Ok(k) => Ok(Resolution::Rejection(k)),
            Err(e) => Err(e),
        },
    }
}

} // verus!
