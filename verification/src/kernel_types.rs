//! Kernel-global identifiers and message shapes.
//!
//! An object is identified forever by the pair of its owning vat and an index
//! scoped to that vat; a promise and its resolver are two capabilities over
//! one table entry and share one allocation counter, so they carry the same
//! number.

use vstd::prelude::*;

verus! {

/// Kernel-wide handle naming a vat; assigned once at kernel construction.
#[derive(Clone, Copy, Debug, PartialEq, Eq, Structural)]
pub struct VatID(pub usize);

/// Index of an exported object, scoped to its owning vat.
#[derive(Clone, Copy, Debug, PartialEq, Eq, Structural)]
pub struct KernelExportID(pub usize);

/// Kernel-global identity of an object: the owning vat plus the index the
/// owner exported it under. This pair never changes and is never reassigned.
#[derive(Clone, Copy, Debug, PartialEq, Eq, Structural)]
pub struct ObjectID {
    pub owner: VatID,
    pub index: KernelExportID,
}

/// Kernel-global identity of a promise.
#[derive(Clone, Copy, Debug, PartialEq, Eq, Structural)]
pub struct PromiseID(pub usize);

/// Kernel-global identity of the authority to settle a promise; numerically
/// linked to the promise it settles.
#[derive(Clone, Copy, Debug, PartialEq, Eq, Structural)]
pub struct ResolverID(pub usize);

/// A capability reference at the kernel level.
#[derive(Clone, Copy, Debug, PartialEq, Eq, Structural)]
pub enum CapSlot {
    Object(ObjectID),
    Promise(PromiseID),
}

/// Host-facing name of a vat, used only at configuration and bootstrap time.
#[derive(Debug)]
pub struct VatName(pub String);

/// An opaque payload plus an ordered list of capability references.
#[derive(Debug)]
pub struct CapData {
    pub body: Vec<u8>,
    pub slots: Vec<CapSlot>,
}

/// Abstraction of `CapData`: the payload bytes and the slots, in order.
pub struct CapDataView {
    pub body: Seq<u8>,
    pub slots: Seq<CapSlot>,
}

impl View for CapData {
    type V = CapDataView;

    open spec fn view(&self) -> CapDataView {
        CapDataView { body: self.body@, slots: self.slots@ }
    }
}

/// A message in kernel-global terms: a method name, arguments, and the
/// resolver of the result promise, if the sender asked for a result.
#[derive(Debug)]
pub struct KernelMessage {
    pub name: String,
    pub args: CapData,
    pub resolver: Option<ResolverID>,
}

/// Abstraction of `KernelMessage`.
pub struct KernelMessageView {
    pub name: Seq<char>,
    pub args: CapDataView,
    pub resolver: Option<ResolverID>,
}

impl View for KernelMessage {
    type V = KernelMessageView;

    open spec fn view(&self) -> KernelMessageView {
        KernelMessageView { name: self.name@, args: self.args@, resolver: self.resolver }
    }
}

/// The terminal value of a promise: forwarded to another reference, fulfilled
/// with data, or rejected with an error value.
#[derive(Debug)]
pub enum Resolution {
    Reference(CapSlot),
    Data(CapData),
    Rejection(CapData),
}

/// Abstraction of `Resolution`.
pub enum ResolutionView {
    Reference(CapSlot),
    Data(CapDataView),
    Rejection(CapDataView),
}

impl View for Resolution {
    type V = ResolutionView;

    open spec fn view(&self) -> ResolutionView {
        match self {
            Resolution::Reference(s) => ResolutionView::Reference(*s),
            Resolution::Data(d) => ResolutionView::Data(d@),
            Resolution::Rejection(d) => ResolutionView::Rejection(d@),
        }
    }
}

/// A queued unit of work: either a message to deliver to a kernel-global
/// target, or a terminal notification owed to one subscribed vat.
#[derive(Debug)]
pub enum PendingDelivery {
    Deliver { target: CapSlot, message: KernelMessage },
    Notify { vat: VatID, promise: PromiseID, resolution: Resolution },
}

/// Abstraction of `PendingDelivery`.
pub enum DeliveryView {
    Deliver { target: CapSlot, message: KernelMessageView },
    Notify { vat: VatID, promise: PromiseID, resolution: ResolutionView },
}

impl View for PendingDelivery {
    type V = DeliveryView;

    open spec fn view(&self) -> DeliveryView {
        match self {
            PendingDelivery::Deliver { target, message } => DeliveryView::Deliver {
                target: *target,
                message: message@,
            },
            PendingDelivery::Notify { vat, promise, resolution } => DeliveryView::Notify {
                vat: *vat,
                promise: *promise,
                resolution: resolution@,
            },
        }
    }
}

/// The error taxonomy of the kernel.
///
/// Violations attributable to a vat's own request are reported back to that
/// vat as recoverable failures and never abort the kernel. Internal
/// table-corruption errors have no variant here: the kernel's invariants are
/// maintained on every path, so that class of failure is excluded by
/// construction.
#[derive(Clone, Copy, Debug, PartialEq, Eq, Structural)]
pub enum Error {
    /// A vat referenced a local identifier it was never given.
    ConfinementViolation,
    /// A resolution operation was invoked by a vat that is not the current
    /// decider of the resolver, or the promise is already settled.
    AuthorityViolation,
    /// A configuration or bootstrap reference names no registered vat.
    UnknownVat,
}

} // verus!
