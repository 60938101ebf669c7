use vat_kernel::{CList, Error, KernelExportID, ObjectID, PromiseID, VatID};

#[test]
fn round_trip_inbound_then_outbound() {
    let mut c: CList<PromiseID> = CList::new();
    let l = c.map_inbound(PromiseID(7));
    assert_eq!(c.map_outbound(l), Ok(PromiseID(7)));
}

#[test]
fn round_trip_many_entries() {
    let mut c: CList<ObjectID> = CList::new();
    let a = ObjectID { owner: VatID(1), index: KernelExportID(0) };
    let b = ObjectID { owner: VatID(2), index: KernelExportID(5) };
    let d = ObjectID { owner: VatID(1), index: KernelExportID(5) };
    let la = c.map_inbound(a);
    let lb = c.map_inbound(b);
    let ld = c.map_inbound(d);
    assert_eq!(c.map_outbound(la), Ok(a));
    assert_eq!(c.map_outbound(lb), Ok(b));
    assert_eq!(c.map_outbound(ld), Ok(d));
    assert_eq!(c.len(), 3);
}

#[test]
fn inbound_is_idempotent() {
    let mut c: CList<PromiseID> = CList::new();
    let l1 = c.map_inbound(PromiseID(42));
    let l2 = c.map_inbound(PromiseID(42));
    assert_eq!(l1, l2);
    assert_eq!(c.len(), 1);
}

#[test]
fn inbound_allocates_consecutively() {
    let mut c: CList<PromiseID> = CList::new();
    assert_eq!(c.map_inbound(PromiseID(10)), 0);
    assert_eq!(c.map_inbound(PromiseID(20)), 1);
    assert_eq!(c.map_inbound(PromiseID(10)), 0);
    assert_eq!(c.map_inbound(PromiseID(30)), 2);
}

#[test]
fn outbound_unknown_local_id_is_confinement_violation() {
    let c: CList<PromiseID> = CList::new();
    assert_eq!(c.map_outbound(0), Err(Error::ConfinementViolation));
    let mut c2: CList<PromiseID> = CList::new();
    let _ = c2.map_inbound(PromiseID(3));
    assert_eq!(c2.map_outbound(1), Err(Error::ConfinementViolation));
}

#[test]
fn add_pre_registers_a_mapping() {
    let mut c: CList<ObjectID> = CList::new();
    let o = ObjectID { owner: VatID(0), index: KernelExportID(0) };
    c.add(o, 0);
    assert_eq!(c.map_outbound(0), Ok(o));
    let l = c.map_inbound(o);
    assert_eq!(l, 0);
    assert_eq!(c.len(), 1);
}
