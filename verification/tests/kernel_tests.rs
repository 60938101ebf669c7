use std::cell::RefCell;
use std::rc::Rc;

use vat_kernel::{
    CapData, Config, Dispatch, Error, InboundVatMessage, Kernel, KernelData, KernelExportID,
    KernelMessage, OutboundVatMessage, VatArgSlot, VatCapData, VatDeliverTarget, VatExportID,
    VatID, VatImportID, VatName, VatPromiseID, VatResolverID, VatSendTarget, VatSyscall,
};

#[derive(Debug, Clone, PartialEq)]
enum Ev {
    Delivered { target: VatDeliverTarget, name: String, n_slots: usize, has_resolver: bool },
    NotifiedData { promise: VatPromiseID, body: Vec<u8> },
    NotifiedTarget { promise: VatPromiseID },
    NotifiedReject { promise: VatPromiseID, body: Vec<u8> },
}

type Log = Rc<RefCell<Vec<Ev>>>;

/// What a test vat does when a delivery arrives; notifications are always
/// just recorded.
enum Behavior {
    /// Record the delivery and do nothing else.
    Inert,
    /// Fulfill the delivery's resolver with this payload, within the turn.
    FulfillWith(Vec<u8>),
    /// Send "ping" through import 0 and keep the result promise handle.
    SendPing(Rc<RefCell<Option<VatPromiseID>>>),
    /// Fulfill the delivery's resolver twice, recording both outcomes.
    DoubleFulfill(Rc<RefCell<Vec<Result<(), Error>>>>),
    /// Send through an import handle this vat was never given.
    SendThroughUnknownImport(Rc<RefCell<Vec<Result<VatPromiseID, Error>>>>),
    /// On "start": allocate a promise/resolver pair, subscribe to the
    /// promise, and send it as a gift through import 0. On "finish":
    /// fulfill the kept resolver with the payload [7].
    Orchestrate(Rc<RefCell<Option<VatResolverID>>>),
    /// Subscribe twice to the promise found in the first argument slot.
    SubscribeToGift,
    /// Send "pipelined" at the promise found in the first argument slot.
    PipelineSendToGift,
    /// Send "late" at the gifted promise, keeping the result promise.
    SendToGiftKeepResult(Rc<RefCell<Option<VatPromiseID>>>),
    /// Allocate a pair, settle the promise at once, then gift it.
    GiftSettledPromise,
    /// Exercise forward: allocate two pairs, forward the first resolver to
    /// the second promise, settle the second, retry the forward, settle the
    /// first; record every outcome.
    ForwardProbe(Rc<RefCell<Vec<Result<(), Error>>>>),
}

struct TestVat {
    log: Log,
    behavior: Behavior,
}

impl Dispatch for TestVat {
    fn deliver(
        &mut self,
        sys: &VatSyscall,
        kd: &mut KernelData,
        target: VatDeliverTarget,
        message: InboundVatMessage,
    ) {
        self.log.borrow_mut().push(Ev::Delivered {
            target,
            name: message.name.clone(),
            n_slots: message.args.slots.len(),
            has_resolver: message.resolver.is_some(),
        });
        match &self.behavior {
            Behavior::Inert => {}
            Behavior::FulfillWith(payload) => {
                if let Some(r) = message.resolver {
                    let data = VatCapData { body: payload.clone(), slots: vec![] };
                    assert_eq!(sys.fulfill_to_data(kd, r, data), Ok(()));
                }
            }
            Behavior::SendPing(cell) => {
                let msg = OutboundVatMessage {
                    name: String::from("ping"),
                    args: VatCapData { body: vec![], slots: vec![] },
                };
                let p = sys.send(kd, VatSendTarget::Import(VatImportID(0)), msg).unwrap();
                *cell.borrow_mut() = Some(p);
            }
            Behavior::DoubleFulfill(results) => {
                if let Some(r) = message.resolver {
                    let first = sys.fulfill_to_data(
                        kd,
                        r,
                        VatCapData { body: vec![1], slots: vec![] },
                    );
                    let second = sys.fulfill_to_data(
                        kd,
                        r,
                        VatCapData { body: vec![2], slots: vec![] },
                    );
                    results.borrow_mut().push(first);
                    results.borrow_mut().push(second);
                }
            }
            Behavior::SendThroughUnknownImport(results) => {
                let msg = OutboundVatMessage {
                    name: String::from("oops"),
                    args: VatCapData { body: vec![], slots: vec![] },
                };
                let r = sys.send(kd, VatSendTarget::Import(VatImportID(99)), msg);
                results.borrow_mut().push(r);
            }
            Behavior::Orchestrate(resolver_cell) => {
                if message.name == "start" {
                    let (p, r) = sys.allocate_promise_and_resolver(kd);
                    *resolver_cell.borrow_mut() = Some(r);
                    assert_eq!(sys.subscribe(kd, p), Ok(()));
                    let gift = OutboundVatMessage {
                        name: String::from("gift"),
                        args: VatCapData { body: vec![], slots: vec![VatArgSlot::Promise(p)] },
                    };
                    assert_eq!(
                        sys.send_only(kd, VatSendTarget::Import(VatImportID(0)), gift),
                        Ok(())
                    );
                } else if message.name == "finish" {
                    let r = resolver_cell.borrow_mut().take().unwrap();
                    assert_eq!(
                        sys.fulfill_to_data(kd, r, VatCapData { body: vec![7], slots: vec![] }),
                        Ok(())
                    );
                }
            }
            Behavior::SubscribeToGift => {
                if let Some(VatArgSlot::Promise(lp)) = message.args.slots.first() {
                    assert_eq!(sys.subscribe(kd, *lp), Ok(()));
                    // subscribing again records nothing new
                    assert_eq!(sys.subscribe(kd, *lp), Ok(()));
                }
            }
            Behavior::PipelineSendToGift => {
                if let Some(VatArgSlot::Promise(lp)) = message.args.slots.first() {
                    let msg = OutboundVatMessage {
                        name: String::from("pipelined"),
                        args: VatCapData { body: vec![], slots: vec![] },
                    };
                    assert_eq!(sys.send_only(kd, VatSendTarget::Promise(*lp), msg), Ok(()));
                }
            }
            Behavior::SendToGiftKeepResult(cell) => {
                if let Some(VatArgSlot::Promise(lp)) = message.args.slots.first() {
                    let msg = OutboundVatMessage {
                        name: String::from("late"),
                        args: VatCapData { body: vec![], slots: vec![] },
                    };
                    let p = sys.send(kd, VatSendTarget::Promise(*lp), msg).unwrap();
                    *cell.borrow_mut() = Some(p);
                }
            }
            Behavior::GiftSettledPromise => {
                let (p, r) = sys.allocate_promise_and_resolver(kd);
                assert_eq!(
                    sys.fulfill_to_data(kd, r, VatCapData { body: vec![3], slots: vec![] }),
                    Ok(())
                );
                let gift = OutboundVatMessage {
                    name: String::from("gift"),
                    args: VatCapData { body: vec![], slots: vec![VatArgSlot::Promise(p)] },
                };
                assert_eq!(sys.send_only(kd, VatSendTarget::Import(VatImportID(0)), gift), Ok(()));
            }
            Behavior::ForwardProbe(results) => {
                let (_p1, r1) = sys.allocate_promise_and_resolver(kd);
                let (p2, r2) = sys.allocate_promise_and_resolver(kd);
                results.borrow_mut().push(sys.forward(kd, r1, p2));
                results
                    .borrow_mut()
                    .push(sys.fulfill_to_data(kd, r2, VatCapData { body: vec![5], slots: vec![] }));
                results.borrow_mut().push(sys.forward(kd, r1, p2));
                results
                    .borrow_mut()
                    .push(sys.fulfill_to_data(kd, r1, VatCapData { body: vec![6], slots: vec![] }));
            }
        }
    }

    fn notify_fulfill_to_target(
        &mut self,
        _sys: &VatSyscall,
        _kd: &mut KernelData,
        id: VatPromiseID,
        _target: VatArgSlot,
    ) {
        self.log.borrow_mut().push(Ev::NotifiedTarget { promise: id });
    }

    fn notify_fulfill_to_data(
        &mut self,
        _sys: &VatSyscall,
        _kd: &mut KernelData,
        id: VatPromiseID,
        data: VatCapData,
    ) {
        self.log.borrow_mut().push(Ev::NotifiedData { promise: id, body: data.body });
    }

    fn notify_reject(
        &mut self,
        _sys: &VatSyscall,
        _kd: &mut KernelData,
        id: VatPromiseID,
        data: VatCapData,
    ) {
        self.log.borrow_mut().push(Ev::NotifiedReject { promise: id, body: data.body });
    }
}

fn name(s: &str) -> VatName {
    VatName(String::from(s))
}

fn plain_message(method: &str) -> KernelMessage {
    KernelMessage {
        name: String::from(method),
        args: CapData { body: vec![], slots: vec![] },
        resolver: None,
    }
}

fn new_log() -> Log {
    Rc::new(RefCell::new(vec![]))
}

#[test]
fn fifo_ordering_three_deliveries() {
    let log = new_log();
    let mut cfg = Config::new();
    cfg.add_vat(name("a"), TestVat { log: log.clone(), behavior: Behavior::Inert });
    let mut kernel = Kernel::new(cfg);
    assert_eq!(kernel.push(&name("a"), KernelExportID(0), plain_message("m1")), Ok(()));
    assert_eq!(kernel.push(&name("a"), KernelExportID(1), plain_message("m2")), Ok(()));
    assert_eq!(kernel.push(&name("a"), KernelExportID(2), plain_message("m3")), Ok(()));
    assert_eq!(kernel.data().queue_len(), 3);
    kernel.step();
    kernel.step();
    kernel.step();
    let got = log.borrow().clone();
    assert_eq!(
        got,
        vec![
            Ev::Delivered {
                target: VatDeliverTarget::Export(VatExportID(0)),
                name: String::from("m1"),
                n_slots: 0,
                has_resolver: false,
            },
            Ev::Delivered {
                target: VatDeliverTarget::Export(VatExportID(1)),
                name: String::from("m2"),
                n_slots: 0,
                has_resolver: false,
            },
            Ev::Delivered {
                target: VatDeliverTarget::Export(VatExportID(2)),
                name: String::from("m3"),
                n_slots: 0,
                has_resolver: false,
            },
        ]
    );
    assert_eq!(kernel.data().queue_len(), 0);
}

#[test]
fn step_on_empty_queue_is_a_no_op() {
    let log = new_log();
    let mut cfg = Config::new();
    cfg.add_vat(name("a"), TestVat { log: log.clone(), behavior: Behavior::Inert });
    let mut kernel = Kernel::new(cfg);
    kernel.step();
    assert!(log.borrow().is_empty());
    assert_eq!(kernel.data().queue_len(), 0);
}

#[test]
fn self_delivery_uses_home_index_and_no_clist_entry() {
    let log = new_log();
    let mut cfg = Config::new();
    cfg.add_vat(name("a"), TestVat { log: log.clone(), behavior: Behavior::Inert });
    let mut kernel = Kernel::new(cfg);
    assert_eq!(kernel.push(&name("a"), KernelExportID(17), plain_message("solo")), Ok(()));
    kernel.step();
    let got = log.borrow().clone();
    assert_eq!(
        got,
        vec![Ev::Delivered {
            target: VatDeliverTarget::Export(VatExportID(17)),
            name: String::from("solo"),
            n_slots: 0,
            has_resolver: false,
        }]
    );
    // the delivery consumed no import-table entry and no promise allocation
    assert_eq!(kernel.data().import_count(VatID(0)), 0);
    assert_eq!(kernel.data().promise_count(), 0);
}

#[test]
fn push_to_unknown_vat_fails_with_unknown_vat() {
    let log = new_log();
    let mut cfg = Config::new();
    cfg.add_vat(name("a"), TestVat { log: log.clone(), behavior: Behavior::Inert });
    let mut kernel = Kernel::new(cfg);
    assert_eq!(
        kernel.push(&name("nobody"), KernelExportID(0), plain_message("m")),
        Err(Error::UnknownVat)
    );
    assert_eq!(kernel.data().queue_len(), 0);
}

#[test]
fn add_import_with_unknown_vat_fails_with_unknown_vat() {
    let log = new_log();
    let mut cfg = Config::new();
    cfg.add_vat(name("a"), TestVat { log: log.clone(), behavior: Behavior::Inert });
    let mut kernel = Kernel::new(cfg);
    assert_eq!(
        kernel.add_import(&name("a"), VatImportID(0), &name("nobody"), KernelExportID(0)),
        Err(Error::UnknownVat)
    );
    assert_eq!(
        kernel.add_import(&name("nobody"), VatImportID(0), &name("a"), KernelExportID(0)),
        Err(Error::UnknownVat)
    );
}

#[test]
fn end_to_end_ping_and_fulfill() {
    // vat alice exports an object at index 0; vat bob is pre-wired with an
    // import pointing at it. bob sends ping; alice receives it under its
    // home index with a resolver and fulfills with data; bob gets exactly
    // one matching notification on its result promise.
    let alice_log = new_log();
    let bob_log = new_log();
    let result_promise = Rc::new(RefCell::new(None));
    let payload = vec![1u8, 2, 3];
    let mut cfg = Config::new();
    cfg.add_vat(
        name("alice"),
        TestVat { log: alice_log.clone(), behavior: Behavior::FulfillWith(payload.clone()) },
    );
    cfg.add_vat(
        name("bob"),
        TestVat { log: bob_log.clone(), behavior: Behavior::SendPing(result_promise.clone()) },
    );
    let mut kernel = Kernel::new(cfg);
    assert_eq!(
        kernel.add_import(&name("bob"), VatImportID(0), &name("alice"), KernelExportID(0)),
        Ok(())
    );
    assert_eq!(kernel.push(&name("bob"), KernelExportID(0), plain_message("go")), Ok(()));

    kernel.step(); // bob's turn: sends ping
    assert_eq!(*result_promise.borrow(), Some(VatPromiseID(0)));
    kernel.step(); // alice's turn: receives ping, fulfills
    assert_eq!(
        alice_log.borrow().clone(),
        vec![Ev::Delivered {
            target: VatDeliverTarget::Export(VatExportID(0)),
            name: String::from("ping"),
            n_slots: 0,
            has_resolver: true,
        }]
    );
    kernel.step(); // bob's notification
    let bob_events = bob_log.borrow().clone();
    assert_eq!(bob_events.len(), 2);
    assert_eq!(bob_events[1], Ev::NotifiedData { promise: VatPromiseID(0), body: payload });
    // no further notifications arrive
    kernel.step();
    assert_eq!(bob_log.borrow().len(), 2);
    assert_eq!(kernel.data().queue_len(), 0);
}

#[test]
fn run_drains_the_queue() {
    let alice_log = new_log();
    let bob_log = new_log();
    let result_promise = Rc::new(RefCell::new(None));
    let mut cfg = Config::new();
    cfg.add_vat(
        name("alice"),
        TestVat { log: alice_log.clone(), behavior: Behavior::FulfillWith(vec![9]) },
    );
    cfg.add_vat(
        name("bob"),
        TestVat { log: bob_log.clone(), behavior: Behavior::SendPing(result_promise.clone()) },
    );
    let mut kernel = Kernel::new(cfg);
    kernel.add_import(&name("bob"), VatImportID(0), &name("alice"), KernelExportID(0)).unwrap();
    kernel.push(&name("bob"), KernelExportID(0), plain_message("go")).unwrap();
    assert!(kernel.run(100));
    assert_eq!(kernel.data().queue_len(), 0);
    assert_eq!(bob_log.borrow().len(), 2);
}

#[test]
fn second_resolution_fails_with_authority_violation() {
    let alice_log = new_log();
    let bob_log = new_log();
    let results = Rc::new(RefCell::new(vec![]));
    let result_promise = Rc::new(RefCell::new(None));
    let mut cfg = Config::new();
    cfg.add_vat(
        name("alice"),
        TestVat { log: alice_log.clone(), behavior: Behavior::DoubleFulfill(results.clone()) },
    );
    cfg.add_vat(
        name("bob"),
        TestVat { log: bob_log.clone(), behavior: Behavior::SendPing(result_promise.clone()) },
    );
    let mut kernel = Kernel::new(cfg);
    kernel.add_import(&name("bob"), VatImportID(0), &name("alice"), KernelExportID(0)).unwrap();
    kernel.push(&name("bob"), KernelExportID(0), plain_message("go")).unwrap();
    kernel.step(); // bob sends
    kernel.step(); // alice fulfills twice
    assert_eq!(
        results.borrow().clone(),
        vec![Ok(()), Err(Error::AuthorityViolation)]
    );
    kernel.step(); // bob is notified once, with the first resolution
    let bob_events = bob_log.borrow().clone();
    assert_eq!(bob_events.len(), 2);
    assert_eq!(bob_events[1], Ev::NotifiedData { promise: VatPromiseID(0), body: vec![1] });
    assert_eq!(kernel.data().queue_len(), 0);
}

#[test]
fn send_through_unknown_import_is_confinement_violation() {
    let log = new_log();
    let results = Rc::new(RefCell::new(vec![]));
    let mut cfg = Config::new();
    cfg.add_vat(
        name("a"),
        TestVat { log: log.clone(), behavior: Behavior::SendThroughUnknownImport(results.clone()) },
    );
    let mut kernel = Kernel::new(cfg);
    kernel.push(&name("a"), KernelExportID(0), plain_message("go")).unwrap();
    kernel.step();
    assert_eq!(results.borrow().clone(), vec![Err(Error::ConfinementViolation)]);
    // the failed send enqueued nothing and allocated nothing
    assert_eq!(kernel.data().queue_len(), 0);
    assert_eq!(kernel.data().promise_count(), 0);
}

#[test]
fn notification_completeness_for_two_subscribers() {
    // alice allocates a promise, subscribes, and gifts the promise to bob,
    // who subscribes twice; carol never subscribes. Resolving the promise
    // notifies alice and bob exactly once each, and carol not at all.
    let alice_log = new_log();
    let bob_log = new_log();
    let carol_log = new_log();
    let resolver_cell = Rc::new(RefCell::new(None));
    let mut cfg = Config::new();
    cfg.add_vat(
        name("alice"),
        TestVat { log: alice_log.clone(), behavior: Behavior::Orchestrate(resolver_cell.clone()) },
    );
    cfg.add_vat(name("bob"), TestVat { log: bob_log.clone(), behavior: Behavior::SubscribeToGift });
    cfg.add_vat(name("carol"), TestVat { log: carol_log.clone(), behavior: Behavior::Inert });
    let mut kernel = Kernel::new(cfg);
    kernel.add_import(&name("alice"), VatImportID(0), &name("bob"), KernelExportID(0)).unwrap();
    kernel.push(&name("alice"), KernelExportID(0), plain_message("start")).unwrap();
    kernel.step(); // alice allocates, subscribes, gifts
    kernel.step(); // bob receives the gift and subscribes (twice)
    kernel.push(&name("alice"), KernelExportID(0), plain_message("finish")).unwrap();
    kernel.step(); // alice resolves: one notification per subscriber enqueued
    assert_eq!(kernel.data().queue_len(), 2);
    kernel.step(); // alice's notification (subscribed first)
    kernel.step(); // bob's notification
    let alice_notifies: Vec<Ev> = alice_log
        .borrow()
        .iter()
        .filter(|e| matches!(e, Ev::NotifiedData { .. }))
        .cloned()
        .collect();
    let bob_notifies: Vec<Ev> = bob_log
        .borrow()
        .iter()
        .filter(|e| matches!(e, Ev::NotifiedData { .. }))
        .cloned()
        .collect();
    assert_eq!(alice_notifies.len(), 1);
    assert_eq!(bob_notifies.len(), 1);
    assert!(matches!(&alice_notifies[0], Ev::NotifiedData { body, .. } if body == &vec![7u8]));
    assert!(matches!(&bob_notifies[0], Ev::NotifiedData { body, .. } if body == &vec![7u8]));
    assert!(carol_log.borrow().is_empty());
    assert_eq!(kernel.data().queue_len(), 0);
}

#[test]
fn forward_reassigns_decider_and_respects_settlement() {
    let log = new_log();
    let results = Rc::new(RefCell::new(vec![]));
    let mut cfg = Config::new();
    cfg.add_vat(
        name("a"),
        TestVat { log: log.clone(), behavior: Behavior::ForwardProbe(results.clone()) },
    );
    let mut kernel = Kernel::new(cfg);
    kernel.push(&name("a"), KernelExportID(0), plain_message("go")).unwrap();
    kernel.step();
    assert_eq!(
        results.borrow().clone(),
        vec![
            Ok(()),                          // forward while both are undecided
            Ok(()),                          // settling the forwarded-to promise
            Err(Error::AuthorityViolation),  // forwarding towards a settled promise
            Ok(()),                          // the forwarded resolver still settles its own promise
        ]
    );
}

#[test]
fn pipelined_send_routes_to_current_decider() {
    // bob sends at a promise he was gifted before it settles; the kernel
    // routes the call to the promise's current decider, alice, who receives
    // it addressed at her local promise handle
    let alice_log = new_log();
    let bob_log = new_log();
    let resolver_cell = Rc::new(RefCell::new(None));
    let mut cfg = Config::new();
    cfg.add_vat(
        name("alice"),
        TestVat { log: alice_log.clone(), behavior: Behavior::Orchestrate(resolver_cell.clone()) },
    );
    cfg.add_vat(
        name("bob"),
        TestVat { log: bob_log.clone(), behavior: Behavior::PipelineSendToGift },
    );
    let mut kernel = Kernel::new(cfg);
    kernel.add_import(&name("alice"), VatImportID(0), &name("bob"), KernelExportID(0)).unwrap();
    kernel.push(&name("alice"), KernelExportID(0), plain_message("start")).unwrap();
    kernel.step(); // alice allocates and gifts
    kernel.step(); // bob sends at the gifted promise
    kernel.step(); // the pipelined call reaches alice, the decider
    let alice_events = alice_log.borrow().clone();
    assert_eq!(alice_events.len(), 2);
    assert_eq!(
        alice_events[1],
        Ev::Delivered {
            target: VatDeliverTarget::Promise(VatPromiseID(0)),
            name: String::from("pipelined"),
            n_slots: 0,
            has_resolver: false,
        }
    );
}

#[test]
fn send_to_settled_promise_rejects_result() {
    // alice settles a promise with data before gifting it; bob's later call
    // at that promise cannot be delivered anywhere, so bob's result promise
    // is rejected with an empty payload
    let alice_log = new_log();
    let bob_log = new_log();
    let result_cell = Rc::new(RefCell::new(None));
    let mut cfg = Config::new();
    cfg.add_vat(
        name("alice"),
        TestVat { log: alice_log.clone(), behavior: Behavior::GiftSettledPromise },
    );
    cfg.add_vat(
        name("bob"),
        TestVat {
            log: bob_log.clone(),
            behavior: Behavior::SendToGiftKeepResult(result_cell.clone()),
        },
    );
    let mut kernel = Kernel::new(cfg);
    kernel.add_import(&name("alice"), VatImportID(0), &name("bob"), KernelExportID(0)).unwrap();
    kernel.push(&name("alice"), KernelExportID(0), plain_message("start")).unwrap();
    assert!(kernel.run(100));
    let p = result_cell.borrow().unwrap();
    let bob_rejects: Vec<Ev> = bob_log
        .borrow()
        .iter()
        .filter(|e| matches!(e, Ev::NotifiedReject { .. }))
        .cloned()
        .collect();
    assert_eq!(bob_rejects, vec![Ev::NotifiedReject { promise: p, body: vec![] }]);
}

#[test]
fn gift_slot_arrives_as_local_promise() {
    // the promise gifted by alice crosses the boundary and arrives in bob's
    // namespace as a freshly allocated local promise handle
    let alice_log = new_log();
    let bob_log = new_log();
    let resolver_cell = Rc::new(RefCell::new(None));
    let mut cfg = Config::new();
    cfg.add_vat(
        name("alice"),
        TestVat { log: alice_log.clone(), behavior: Behavior::Orchestrate(resolver_cell.clone()) },
    );
    cfg.add_vat(name("bob"), TestVat { log: bob_log.clone(), behavior: Behavior::SubscribeToGift });
    let mut kernel = Kernel::new(cfg);
    kernel.add_import(&name("alice"), VatImportID(0), &name("bob"), KernelExportID(0)).unwrap();
    kernel.push(&name("alice"), KernelExportID(0), plain_message("start")).unwrap();
    kernel.step();
    kernel.step();
    let bob_events = bob_log.borrow().clone();
    assert_eq!(bob_events.len(), 1);
    assert_eq!(
        bob_events[0],
        Ev::Delivered {
            target: VatDeliverTarget::Export(VatExportID(0)),
            name: String::from("gift"),
            n_slots: 1,
            has_resolver: false,
        }
    );
}
