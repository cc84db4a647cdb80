//! The system layer: registration handling, loader tracking, extrinsic
//! decoding and the native-programs registry.

use redshirt_core::ids::{EncodedMessage, InterfaceHash, MessageId, Pid};
use redshirt_core::ipc::CoreRunOutcome;
use redshirt_core::native::NativeProgramsCollection;
use redshirt_core::parser::{
    assemble_payload, parse_buffer_descriptors, parse_extrinsic_emit_answer,
    parse_extrinsic_emit_message, parse_extrinsic_emit_message_error,
    parse_extrinsic_next_message,
};
use redshirt_core::system::{ModuleHash, SystemBuilder, SystemRunOutcome};

fn register_request(hash: [u8; 32]) -> EncodedMessage {
    let mut bytes = vec![0u8];
    bytes.extend_from_slice(&hash);
    EncodedMessage(bytes)
}

#[test]
fn registration_through_the_system() {
    // A process registers an interface by messaging the reserved pid that
    // handles the `interface` interface; a second registration fails.
    let iface_iface = InterfaceHash([0x01; 32]);
    let loader = InterfaceHash([0x02; 32]);
    let mut system = SystemBuilder::new(iface_iface, loader).build();

    let (hpid, _htid) = system.core.execute();
    let event = CoreRunOutcome::ReservedPidInterfaceMessage {
        pid: hpid,
        message_id: None,
        interface: InterfaceHash([0x01; 32]),
        message: register_request([0xaa; 32]),
    };
    match system.handle_core_event(event) {
        SystemRunOutcome::Idle => {},
        _ => panic!(),
    }
    // The registry now routes the interface to the registering process.
    let (p2, _t2) = system.core.execute();
    assert!(system
        .core
        .set_interface_handler(InterfaceHash([0xaa; 32]), p2)
        .0
        .is_err());
}

#[test]
fn loader_registration_starts_queued_loads() {
    let iface_iface = InterfaceHash([0x01; 32]);
    let loader = InterfaceHash([0x02; 32]);
    let mut builder = SystemBuilder::new(iface_iface, loader);
    builder.with_main_program(ModuleHash([0x42; 32]));
    let mut system = builder.build();

    let (lpid, _ltid) = system.core.execute();
    let event = CoreRunOutcome::ReservedPidInterfaceMessage {
        pid: lpid,
        message_id: None,
        interface: InterfaceHash([0x01; 32]),
        message: register_request([0x02; 32]),
    };
    let _ = system.handle_core_event(event);
    assert_eq!(system.loader_pid, lpid.0);

    system.resume_loading();
    assert!(system.programs_to_load.is_empty());
    assert_eq!(system.loading_programs.len(), 1);

    // The loader's response creates a process for the loaded program.
    let id = system.loading_programs[0];
    let event = CoreRunOutcome::MessageResponse {
        message_id: id,
        response: Ok(EncodedMessage(vec![7, 7, 7])),
    };
    match system.handle_core_event(event) {
        SystemRunOutcome::ProgramLoaded { bytes, .. } => {
            assert_eq!(bytes, EncodedMessage(vec![7, 7, 7]));
        },
        _ => panic!(),
    }
}

#[test]
fn malformed_registration_is_answered_with_an_error() {
    let iface_iface = InterfaceHash([0x01; 32]);
    let loader = InterfaceHash([0x02; 32]);
    let mut system = SystemBuilder::new(iface_iface, loader).build();
    let (pid, _tid) = system.core.execute();
    let event = CoreRunOutcome::ReservedPidInterfaceMessage {
        pid,
        message_id: None,
        interface: InterfaceHash([0x01; 32]),
        message: EncodedMessage(vec![9, 9]),
    };
    match system.handle_core_event(event) {
        SystemRunOutcome::Idle => {},
        _ => panic!(),
    }
}

#[test]
fn next_message_decoding() {
    let mut bytes = Vec::new();
    bytes.extend_from_slice(&5u64.to_le_bytes());
    bytes.extend_from_slice(&1u64.to_le_bytes());
    let w = parse_extrinsic_next_message(0x100, 2, 0x200, 64, 1, &bytes).unwrap();
    assert_eq!(w.msg_ids, vec![5, 1]);
    assert_eq!(w.msg_ids_ptr, 0x100);
    assert_eq!(w.out_pointer, 0x200);
    assert_eq!(w.out_size, 64);
    assert!(w.block);

    // The id list is capped.
    let too_many = vec![0u8; 8 * 513];
    assert!(parse_extrinsic_next_message(0, 513, 0, 0, 0, &too_many).is_err());
}

#[test]
fn emit_message_decoding() {
    let mut descriptors = Vec::new();
    descriptors.extend_from_slice(&0x1000u32.to_le_bytes());
    descriptors.extend_from_slice(&3u32.to_le_bytes());
    let pairs = parse_buffer_descriptors(&descriptors, 1);
    assert_eq!(pairs, vec![(0x1000, 3)]);

    let chunks = vec![vec![1, 2], vec![3]];
    let m = parse_extrinsic_emit_message(&[0x0c; 32], &chunks, 1, 0, 0x500).unwrap();
    assert_eq!(m.interface, InterfaceHash([0x0c; 32]));
    assert_eq!(m.message, EncodedMessage(vec![1, 2, 3]));
    assert_eq!(m.message_id_write, Some(0x500));
    assert!(!m.allow_delay);

    // The gathered payload is capped.
    let big = vec![vec![0u8; 16 * 1024 * 1024], vec![0u8; 1]];
    assert!(assemble_payload(&big).is_err());
}

#[test]
fn answer_and_error_decoding() {
    let id_bytes = 0xfeedu64.to_le_bytes();
    let a = parse_extrinsic_emit_answer(&id_bytes, vec![1, 2, 3]).unwrap();
    assert_eq!(a.message_id, MessageId(0xfeed));
    assert_eq!(a.response, EncodedMessage(vec![1, 2, 3]));

    assert_eq!(parse_extrinsic_emit_message_error(&id_bytes), MessageId(0xfeed));
}

#[test]
fn native_registry_dispatch() {
    let mut reg = NativeProgramsCollection::new();
    assert!(reg.push(Pid(10)).is_ok());
    assert!(reg.push(Pid(11)).is_ok());
    assert!(reg.push(Pid(10)).is_err());

    // An intercepted registration routes inbound messages to the program.
    let iface = InterfaceHash([0x33; 32]);
    reg.note_emit(Pid(11), Some(iface.clone()), Some(MessageId(500)));
    assert_eq!(reg.interface_handler(&iface), Some(Pid(11)));
    assert_eq!(reg.interface_handler(&InterfaceHash([0x44; 32])), None);

    // A response is claimed once.
    assert_eq!(reg.message_response(MessageId(500)), Some(Pid(11)));
    assert_eq!(reg.message_response(MessageId(500)), None);
}
