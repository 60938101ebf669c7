//! Vat-local identifiers and message shapes.
//!
//! A vat addresses someone else's object through an import, its own object
//! through its home export index, and a promise through a local promise id.
//! Local identifiers are meaningful only inside one vat's namespace.

use vstd::prelude::*;

verus! {

/// Vat-local handle on another vat's object.
#[derive(Clone, Copy, Debug, PartialEq, Eq, Structural)]
pub struct VatImportID(pub usize);

/// A vat's own object, addressed by its home export index.
#[derive(Clone, Copy, Debug, PartialEq, Eq, Structural)]
pub struct VatExportID(pub usize);

/// Vat-local handle on a promise.
#[derive(Clone, Copy, Debug, PartialEq, Eq, Structural)]
pub struct VatPromiseID(pub usize);

/// Vat-local handle on the authority to settle a promise.
#[derive(Clone, Copy, Debug, PartialEq, Eq, Structural)]
pub struct VatResolverID(pub usize);

/// A capability reference in one vat's local terms.
#[derive(Clone, Copy, Debug, PartialEq, Eq, Structural)]
pub enum VatArgSlot {
    Import(VatImportID),
    Export(VatExportID),
    Promise(VatPromiseID),
}

/// What a vat may address a send at: an imported object or a promise.
#[derive(Clone, Copy, Debug, PartialEq, Eq, Structural)]
pub enum VatSendTarget {
    Import(VatImportID),
    Promise(VatPromiseID),
}

/// What a delivery may be addressed at when it arrives in a vat: one of the
/// vat's own exports, or a promise the vat is the current decider of.
#[derive(Clone, Copy, Debug, PartialEq, Eq, Structural)]
pub enum VatDeliverTarget {
    Export(VatExportID),
    Promise(VatPromiseID),
}

/// An opaque payload plus an ordered list of vat-local references.
#[derive(Debug)]
pub struct VatCapData {
    pub body: Vec<u8>,
    pub slots: Vec<VatArgSlot>,
}

/// Abstraction of `VatCapData`.
pub struct VatCapDataView {
    pub body: Seq<u8>,
    pub slots: Seq<VatArgSlot>,
}

impl View for VatCapData {
    type V = VatCapDataView;

    open spec fn view(&self) -> VatCapDataView {
        VatCapDataView { body: self.body@, slots: self.slots@ }
    }
}

/// A message a vat hands to the kernel for sending.
#[derive(Debug)]
pub struct OutboundVatMessage {
    pub name: String,
    pub args: VatCapData,
}

/// Abstraction of `OutboundVatMessage`.
pub struct OutboundVatMessageView {
    pub name: Seq<char>,
    pub args: VatCapDataView,
}

impl View for OutboundVatMessage {
    type V = OutboundVatMessageView;

    open spec fn view(&self) -> OutboundVatMessageView {
        OutboundVatMessageView { name: self.name@, args: self.args@ }
    }
}

/// A message as it arrives in the destination vat, with the resolver the vat
/// should eventually settle the result on, if the sender asked for one.
#[derive(Debug)]
pub struct InboundVatMessage {
    pub name: String,
    pub args: VatCapData,
    pub resolver: Option<VatResolverID>,
}

/// Abstraction of `InboundVatMessage`.
pub struct InboundVatMessageView {
    pub name: Seq<char>,
    pub args: VatCapDataView,
    pub resolver: Option<VatResolverID>,
}

impl View for InboundVatMessage {
    type V = InboundVatMessageView;

    open spec fn view(&self) -> InboundVatMessageView {
        InboundVatMessageView { name: self.name@, args: self.args@, resolver: self.resolver }
    }
}

/// A terminal resolution in one vat's local terms.
#[derive(Debug)]
pub enum VatResolution {
    Reference(VatArgSlot),
    Data(VatCapData),
    Rejection(VatCapData),
}

/// Abstraction of `VatResolution`.
pub enum VatResolutionView {
    Reference(VatArgSlot),
    Data(VatCapDataView),
    Rejection(VatCapDataView),
}

impl View for VatResolution {
    type V = VatResolutionView;

    open spec fn view(&self) -> VatResolutionView {
        match self {
            VatResolution::Reference(s) => VatResolutionView::Reference(*s),
            VatResolution::Data(d) => VatResolutionView::Data(d@),
            VatResolution::Rejection(d) => VatResolutionView::Rejection(d@),
        }
    }
}

} // verus!
