//! End-to-end scenarios over the IPC core.

use redshirt_core::ids::{EncodedMessage, InterfaceHash, MessageId, Pid, ThreadId};
use redshirt_core::ipc::{Core, CoreAction, CoreRunOutcome};
use redshirt_core::wire::{
    build_interface_message, build_process_destroyed_message, build_response_message,
};

fn new_core() -> Core {
    Core::new().build()
}

fn spawn(core: &mut Core) -> (Pid, ThreadId) {
    core.execute()
}

fn resume_value(actions: &[CoreAction]) -> Option<u32> {
    for a in actions {
        if let CoreAction::Resume { value, .. } = a {
            return *value;
        }
    }
    None
}

fn written_frame(actions: &[CoreAction]) -> Option<Vec<u8>> {
    for a in actions {
        if let CoreAction::WriteMemory { data, .. } = a {
            if data.len() > 8 {
                return Some(data.clone());
            }
        }
    }
    None
}

#[test]
fn handler_before_emit() {
    // A handler registers; an emitter then sends two bytes; the handler's
    // `next_message` receives the exact wire frame with index zero.
    let mut core = new_core();
    let (hpid, _htid) = spawn(&mut core);
    let (epid, etid) = spawn(&mut core);
    let iface = InterfaceHash([0xaa; 32]);

    let (res, _) = core.set_interface_handler(iface.clone(), hpid);
    assert!(res.is_ok());

    let (actions, mid) = core.emit_message(
        etid,
        iface.clone(),
        None,
        EncodedMessage(vec![0x01, 0x02]),
        false,
    );
    assert!(mid.is_none());
    assert_eq!(resume_value(&actions), Some(0));
    let _ = core.wake_process(hpid);

    let htid = pick_thread(&core, hpid);
    let actions = core.next_message(htid, vec![1], 0x100, 0x200, 1024, true);
    let frame = written_frame(&actions).unwrap();
    let expected = build_interface_message(
        &iface,
        None,
        epid,
        0,
        &EncodedMessage(vec![0x01, 0x02]),
    )
    .into_bytes();
    assert_eq!(frame, expected);
    assert_eq!(resume_value(&actions), Some(expected.len() as u32));
}

fn pick_thread(core: &Core, pid: Pid) -> ThreadId {
    for t in &core.threads {
        if t.pid == pid {
            return t.tid;
        }
    }
    panic!();
}

#[test]
fn empty_wait_without_block_resumes_zero() {
    let mut core = new_core();
    let (_pid, tid) = spawn(&mut core);
    let actions = core.next_message(tid, vec![], 0, 0, 0, false);
    assert_eq!(actions.len(), 1);
    assert_eq!(resume_value(&actions), Some(0));
}

#[test]
fn empty_wait_with_block_parks_forever() {
    let mut core = new_core();
    let (_pid, tid) = spawn(&mut core);
    let actions = core.next_message(tid, vec![], 0, 0, 0, true);
    assert!(actions.is_empty());
    // The thread is parked; nothing can ever match an empty list.
    let woken = core.wake_process(_pid);
    assert!(woken.is_empty());
}

#[test]
fn oversize_read_keeps_message_queued() {
    // A queued message larger than the buffer resumes the caller with the
    // needed size and stays queued; no memory is written.
    let mut core = new_core();
    let (hpid, _) = spawn(&mut core);
    let (_epid, etid) = spawn(&mut core);
    let iface = InterfaceHash([0xcc; 32]);
    core.set_interface_handler(iface.clone(), hpid).0.unwrap();

    let body = vec![0x55; 2000 - 53];
    let (_a, _m) = core.emit_message(etid, iface.clone(), None, EncodedMessage(body.clone()), false);

    let htid = pick_thread(&core, hpid);
    let actions = core.next_message(htid, vec![1], 0x10, 0x20, 100, true);
    assert_eq!(actions.len(), 1);
    assert_eq!(resume_value(&actions), Some(2000));

    // With a large enough buffer the message is delivered.
    let actions = core.next_message(htid, vec![1], 0x10, 0x20, 2000, true);
    let frame = written_frame(&actions).unwrap();
    assert_eq!(frame.len(), 2000);
}

#[test]
fn duplicate_ids_match_first_slot() {
    // `msg_ids` holding the same id twice: the first occurrence is chosen
    // as `index_in_list`.
    let mut core = new_core();
    let (hpid, _) = spawn(&mut core);
    let (_epid, etid) = spawn(&mut core);
    let iface = InterfaceHash([0xdd; 32]);
    core.set_interface_handler(iface.clone(), hpid).0.unwrap();

    let (actions, mid) = core.emit_message(
        etid,
        iface.clone(),
        Some(0x40),
        EncodedMessage(vec![1]),
        false,
    );
    let m = mid.unwrap();
    assert_eq!(resume_value(&actions), Some(0));

    // The handler answers the message.
    let htid = pick_thread(&core, hpid);
    let actions = core.next_message(htid, vec![1], 0x10, 0x20, 1024, true);
    assert!(written_frame(&actions).is_some());
    let _ = core.answer_message(m, Ok(EncodedMessage(vec![0x0f])));
    let _ = core.wake_process(_epid);

    let actions = core.next_message(etid, vec![m.0, m.0], 0x10, 0x20, 1024, true);
    let frame = written_frame(&actions).unwrap();
    let expected = build_response_message(m, 0, Ok(&EncodedMessage(vec![0x0f]))).into_bytes();
    assert_eq!(frame, expected);
}

#[test]
fn request_response_round_trip() {
    // An emitter asks for an answer; the handler answers; the emitter
    // receives exactly one matching response.
    let mut core = new_core();
    let (hpid, _) = spawn(&mut core);
    let (epid, etid) = spawn(&mut core);
    let iface = InterfaceHash([0xee; 32]);
    core.set_interface_handler(iface.clone(), hpid).0.unwrap();

    let (actions, mid) = core.emit_message(
        etid,
        iface.clone(),
        Some(0x40),
        EncodedMessage(vec![9, 9]),
        false,
    );
    let m = mid.unwrap();
    // The allocated id is written back to the caller before it resumes.
    assert!(matches!(
        &actions[0],
        CoreAction::WriteMemory { address: 0x40, data, .. } if data == &m.0.to_le_bytes().to_vec()
    ));
    assert_eq!(resume_value(&actions), Some(0));

    let htid = pick_thread(&core, hpid);
    let actions = core.next_message(htid, vec![1], 0x10, 0x20, 1024, true);
    let frame = written_frame(&actions).unwrap();
    let expected =
        build_interface_message(&iface, Some(m), epid, 0, &EncodedMessage(vec![9, 9])).into_bytes();
    assert_eq!(frame, expected);

    let _ = core.answer_message(m, Ok(EncodedMessage(vec![0xff])));
    let actions = core.next_message(etid, vec![m.0, 0, 0], 0x10, 0x20, 1024, true);
    let frame = written_frame(&actions).unwrap();
    let expected = build_response_message(m, 0, Ok(&EncodedMessage(vec![0xff]))).into_bytes();
    assert_eq!(frame, expected);

    // Exactly once: a second wait finds nothing.
    let actions = core.next_message(etid, vec![m.0], 0x10, 0x20, 1024, false);
    assert_eq!(resume_value(&actions), Some(0));
}

#[test]
fn handler_death_cancels_in_flight() {
    // The handler dies before answering: the emitter receives an error
    // response for its outstanding message.
    let mut core = new_core();
    let (hpid, _) = spawn(&mut core);
    let (_epid, etid) = spawn(&mut core);
    let iface = InterfaceHash([0xab; 32]);
    core.set_interface_handler(iface.clone(), hpid).0.unwrap();

    let (_actions, mid) = core.emit_message(
        etid,
        iface.clone(),
        Some(0x40),
        EncodedMessage(vec![5]),
        false,
    );
    let m = mid.unwrap();

    let _woken = core.process_finished(hpid);
    match core.run() {
        CoreRunOutcome::ProgramFinished { pid, unhandled_messages, .. } => {
            assert_eq!(pid, hpid);
            assert_eq!(unhandled_messages, vec![m]);
        },
        _ => panic!(),
    }

    let actions = core.next_message(etid, vec![m.0], 0x10, 0x20, 1024, true);
    let frame = written_frame(&actions).unwrap();
    let expected = build_response_message(m, 0, Err(())).into_bytes();
    assert_eq!(frame, expected);
}

#[test]
fn emitter_death_notifies_used_interface_handlers() {
    // The emitter dies: the handler of the interface it used receives a
    // process-destroyed notification.
    let mut core = new_core();
    let (hpid, _) = spawn(&mut core);
    let (epid, etid) = spawn(&mut core);
    let iface = InterfaceHash([0xba; 32]);
    core.set_interface_handler(iface.clone(), hpid).0.unwrap();

    let (_a, _m) = core.emit_message(etid, iface.clone(), None, EncodedMessage(vec![3]), false);

    // The handler drains the interface message first.
    let htid = pick_thread(&core, hpid);
    let actions = core.next_message(htid, vec![1], 0x10, 0x20, 1024, true);
    assert!(written_frame(&actions).is_some());

    let _woken = core.process_finished(epid);
    let actions = core.next_message(htid, vec![1], 0x10, 0x20, 1024, true);
    let frame = written_frame(&actions).unwrap();
    let expected = build_process_destroyed_message(epid, 0).into_bytes();
    assert_eq!(frame, expected);
}

#[test]
fn emit_without_handler_fails_without_delay() {
    let mut core = new_core();
    let (_pid, tid) = spawn(&mut core);
    let iface = InterfaceHash([0x01; 32]);
    let (actions, mid) = core.emit_message(tid, iface, None, EncodedMessage(vec![]), false);
    assert!(mid.is_none());
    assert_eq!(resume_value(&actions), Some(1));
}

#[test]
fn emit_before_handler_with_delay() {
    // The emitter parks on the unregistered interface; registration flushes
    // its message to the new handler and resumes it with success.
    let mut core = new_core();
    let (epid, etid) = spawn(&mut core);
    let (hpid, _) = spawn(&mut core);
    let iface = InterfaceHash([0xbb; 32]);

    let (actions, mid) = core.emit_message(
        etid,
        iface.clone(),
        None,
        EncodedMessage(vec![4, 4]),
        true,
    );
    assert!(actions.is_empty());
    assert!(mid.is_none());
    match core.run() {
        CoreRunOutcome::ThreadWaitUnavailableInterface { tid, interface } => {
            assert_eq!(tid, etid);
            assert_eq!(interface, iface);
        },
        _ => panic!(),
    }

    let (res, actions) = core.set_interface_handler(iface.clone(), hpid);
    assert!(res.is_ok());
    assert_eq!(resume_value(&actions), Some(0));

    let htid = pick_thread(&core, hpid);
    let actions = core.next_message(htid, vec![1], 0x10, 0x20, 1024, true);
    let frame = written_frame(&actions).unwrap();
    let expected =
        build_interface_message(&iface, None, epid, 0, &EncodedMessage(vec![4, 4])).into_bytes();
    assert_eq!(frame, expected);
}

#[test]
fn interface_registered_only_once() {
    let mut core = new_core();
    let (p1, _) = spawn(&mut core);
    let (p2, _) = spawn(&mut core);
    let iface = InterfaceHash([0x77; 32]);
    assert!(core.set_interface_handler(iface.clone(), p1).0.is_ok());
    assert!(core.set_interface_handler(iface.clone(), p2).0.is_err());
}

#[test]
fn cancelled_message_drops_later_answer() {
    let mut core = new_core();
    let (hpid, _) = spawn(&mut core);
    let (epid, etid) = spawn(&mut core);
    let iface = InterfaceHash([0x88; 32]);
    core.set_interface_handler(iface.clone(), hpid).0.unwrap();

    let (_a, mid) = core.emit_message(
        etid,
        iface.clone(),
        Some(0x40),
        EncodedMessage(vec![6]),
        false,
    );
    let m = mid.unwrap();

    // The handler receives the message, but the emitter cancels it.
    let htid = pick_thread(&core, hpid);
    let _ = core.next_message(htid, vec![1], 0x10, 0x20, 1024, true);
    core.cancel_message(epid, m);

    // The late answer is silently dropped.
    let woke = core.answer_message(m, Ok(EncodedMessage(vec![1])));
    assert!(woke.is_none());
    let actions = core.next_message(etid, vec![m.0], 0x10, 0x20, 1024, false);
    assert_eq!(resume_value(&actions), Some(0));
}

#[test]
fn answering_unknown_id_is_benign() {
    let mut core = new_core();
    let woke = core.answer_message(MessageId(0x1234), Err(()));
    assert!(woke.is_none());
}

#[test]
fn fifo_order_per_process_queue() {
    // Two matching messages: the earlier-enqueued one is delivered first.
    let mut core = new_core();
    let (hpid, _) = spawn(&mut core);
    let (_e1, t1) = spawn(&mut core);
    let (_e2, t2) = spawn(&mut core);
    let iface = InterfaceHash([0x99; 32]);
    core.set_interface_handler(iface.clone(), hpid).0.unwrap();

    let _ = core.emit_message(t1, iface.clone(), None, EncodedMessage(vec![1]), false);
    let _ = core.emit_message(t2, iface.clone(), None, EncodedMessage(vec![2]), false);

    let htid = pick_thread(&core, hpid);
    let first = core.next_message(htid, vec![1], 0x10, 0x20, 1024, true);
    let second = core.next_message(htid, vec![1], 0x10, 0x20, 1024, true);
    let f1 = written_frame(&first).unwrap();
    let f2 = written_frame(&second).unwrap();
    assert_eq!(f1[f1.len() - 1], 1);
    assert_eq!(f2[f2.len() - 1], 2);
}
