//! The dispatch surface: the vat-provided capability that the kernel invokes
//! to hand a vat its deliveries and its promise notifications.
//!
//! Implementations live outside the kernel; the kernel relies on one frame
//! condition about them, stated as the contract of these methods: a vat
//! reaches the kernel state only through the syscall operations, and every
//! syscall either leaves the state alone or appends to the tail of the run
//! queue, preserving the kernel invariant. The contract records exactly
//! that; it claims nothing about what a vat computes.

use vstd::prelude::*;

use crate::kernel::{dispatch_frame, KernelData};
use crate::vat::VatSyscall;
use crate::vat_types::{
    InboundVatMessage, VatArgSlot, VatCapData, VatDeliverTarget, VatPromiseID,
};

verus! {

/// One vat's behavior. `deliver` runs one turn to completion,
/// synchronously; the `notify_*` methods report the terminal resolution of a
/// promise the vat subscribed to, at most once per promise.
pub trait Dispatch {
    /// One queued delivery addressed to this vat, in the vat's local terms.
    /// If a resolver is present, the vat is expected to settle the call's
    /// result on it eventually.
    fn deliver(
        &mut self,
        sys: &VatSyscall,
        kd: &mut KernelData,
        target: VatDeliverTarget,
        message: InboundVatMessage,
    )
        requires
            old(kd).wf(),
            sys.vat_id.0 < old(kd)@.vats.len(),
        ensures
            final(kd).wf(),
            dispatch_frame(old(kd)@, final(kd)@),
    ;

    /// The promise was forwarded to another reference.
    fn notify_fulfill_to_target(
        &mut self,
        sys: &VatSyscall,
        kd: &mut KernelData,
        id: VatPromiseID,
        target: VatArgSlot,
    )
        requires
            old(kd).wf(),
            sys.vat_id.0 < old(kd)@.vats.len(),
        ensures
            final(kd).wf(),
            dispatch_frame(old(kd)@, final(kd)@),
    ;

    /// The promise was fulfilled with data.
    fn notify_fulfill_to_data(
        &mut self,
        sys: &VatSyscall,
        kd: &mut KernelData,
        id: VatPromiseID,
        data: VatCapData,
    )
        requires
            old(kd).wf(),
            sys.vat_id.0 < old(kd)@.vats.len(),
        ensures
            final(kd).wf(),
            dispatch_frame(old(kd)@, final(kd)@),
    ;

    /// The promise was rejected with an error value.
    fn notify_reject(
        &mut self,
        sys: &VatSyscall,
        kd: &mut KernelData,
        id: VatPromiseID,
        data: VatCapData,
    )
        requires
            old(kd).wf(),
            sys.vat_id.0 < old(kd)@.vats.len(),
        ensures
            final(kd).wf(),
            dispatch_frame(old(kd)@, final(kd)@),
    ;
}

} // verus!
