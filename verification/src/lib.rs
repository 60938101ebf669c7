//! A message-routing kernel enforcing object-capability isolation between
//! independent execution units ("vats").
//!
//! Each vat sees only vat-local identifiers for the objects and promises it
//! has actually been handed; the kernel mediates every cross-vat reference
//! through per-vat translation tables (CLists), tracks promise resolution
//! authority in a promise table, and moves messages through a FIFO run queue.

mod clist;
mod dispatch;
mod kernel;
mod kernel_types;
mod map_outbound;
mod promise;
mod vat;
mod vat_types;

pub use clist::{
    inbound_index, inbound_seq, injective, lemma_inbound_idempotent,
    lemma_inbound_outbound_round_trip, lemma_inbound_preserves_injective,
    lemma_outbound_confinement, outbound_spec, CList, KernelKey,
};
pub use dispatch::Dispatch;
pub use kernel::{
    capdata_inbound, capdata_wf, delivery_wf, dispatch_frame, kd_wf,
    lemma_self_delivery_shortcut, lemma_slot_inbound_wf, lemma_slots_inbound_wf, message_inbound,
    message_wf, name_index, notify_batch, promise_entry_wf, promise_inbound, reject_outcome,
    resolution_inbound, resolution_wf, resolver_inbound, route_spec, slot_inbound, slot_wf,
    slots_inbound, step_outcome, vd_valid, vd_wf, Config, Kernel, KernelData, KernelDataView,
    Route, VatData, VatDataView, VatEvent,
};
pub use kernel_types::{
    CapData, CapDataView, CapSlot, DeliveryView, Error, KernelExportID, KernelMessage,
    KernelMessageView, ObjectID, PendingDelivery, PromiseID, Resolution, ResolutionView,
    ResolverID, VatID, VatName,
};
pub use map_outbound::{
    capdata_outbound, get_outbound_promise, map_outbound_capdata, map_outbound_message,
    map_outbound_promise, map_outbound_resolution, map_outbound_slot, message_outbound,
    resolution_outbound, send_target_outbound, slot_outbound, slots_outbound,
};
pub use promise::{
    commit_spec, promise_decider, promise_unresolved, promise_valid, reassign_spec,
    subscribe_spec, Promise, PromiseState, PromiseStateView, PromiseTable, PromiseView,
};
pub use vat::{
    alloc_pr_outcome, alloc_result_outcome, count_notifies_to, forward_outcome,
    lemma_notification_completeness, lemma_single_resolution, resolve_outcome, result_decider,
    send_outcome, subscribe_outcome, VatSyscall,
};
pub use vat_types::{
    InboundVatMessage, InboundVatMessageView, OutboundVatMessage, OutboundVatMessageView,
    VatArgSlot, VatCapData, VatCapDataView, VatDeliverTarget, VatExportID, VatImportID,
    VatPromiseID, VatResolution, VatResolutionView, VatResolverID, VatSendTarget,
};
