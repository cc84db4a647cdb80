//! Round trips and error cases of the wire format.

use redshirt_core::ids::EncodedMessage;
use redshirt_core::wire::{
    build_interface_message, build_process_destroyed_message, build_response_message,
    decode_interface_message, decode_message, decode_process_destroyed_message,
    decode_response_message, DecodedMessage,
};

#[test]
fn interface_message_encode_decode() {
    let interface_hash = From::from([0xca; 32]);
    let message_id = Some(From::from(0x0123456789abcdefu64));
    let pid = From::from(0xfedcba9876543210u64);
    let index_in_list = 0xdeadbeef;
    let message = EncodedMessage(vec![8, 7, 9]);

    let mut int_msg = build_interface_message(&interface_hash, message_id, pid, 0xf00baa, &message);
    int_msg.set_index_in_list(index_in_list);

    let decoded = decode_interface_message(&int_msg.into_bytes()).unwrap();
    assert_eq!(decoded.interface, interface_hash);
    assert_eq!(decoded.message_id, message_id);
    assert_eq!(decoded.emitter_pid, pid);
    assert_eq!(decoded.index_in_list, index_in_list);
    assert_eq!(decoded.actual_data, message);
}

#[test]
fn response_message_encode_decode() {
    let message_id = From::from(0x0123456789abcdefu64);
    let index_in_list = 0xdeadbeef;
    let message = EncodedMessage(vec![8, 7, 9]);

    let mut resp_msg = build_response_message(message_id, 0xf00baa, Ok(&message));
    resp_msg.set_index_in_list(index_in_list);
    assert_eq!(resp_msg.message_id(), message_id);

    let decoded = decode_response_message(&resp_msg.into_bytes()).unwrap();
    assert_eq!(decoded.message_id, message_id);
    assert_eq!(decoded.index_in_list, index_in_list);
    assert_eq!(decoded.actual_data, Ok(message));
}

#[test]
fn response_message_err_encode_decode() {
    let message_id = From::from(0xa123456789abcdefu64);
    let index_in_list = 0xdeadbeef;

    let mut resp_msg = build_response_message(message_id, 0xf00baa, Err(()));
    resp_msg.set_index_in_list(index_in_list);
    assert_eq!(resp_msg.message_id(), message_id);

    let decoded = decode_response_message(&resp_msg.into_bytes()).unwrap();
    assert_eq!(decoded.message_id, message_id);
    assert_eq!(decoded.index_in_list, index_in_list);
    assert_eq!(decoded.actual_data, Err(()));
}

#[test]
fn process_destroyed_message_encode_decode() {
    let pid = From::from(0xfedcba9876543210u64);
    let index_in_list = 0xdeadbeef;

    let mut destr_msg = build_process_destroyed_message(pid, 0xf00baa);
    destr_msg.set_index_in_list(index_in_list);

    let decoded = decode_process_destroyed_message(&destr_msg.into_bytes()).unwrap();
    assert_eq!(decoded.pid, pid);
    assert_eq!(decoded.index_in_list, index_in_list);
}

#[test]
fn interface_message_exact_bytes() {
    let interface_hash = From::from([0x11; 32]);
    let pid = From::from(0x0102030405060708u64);
    let message = EncodedMessage(vec![0xaa, 0xbb]);

    let bytes = build_interface_message(&interface_hash, None, pid, 5, &message).into_bytes();
    assert_eq!(bytes.len(), 1 + 32 + 8 + 8 + 4 + 2);
    assert_eq!(bytes[0], 0);
    assert_eq!(&bytes[1..33], &[0x11; 32]);
    // Message id 0 stands for "no answer expected".
    assert_eq!(&bytes[33..41], &[0; 8]);
    // Little-endian emitter pid.
    assert_eq!(&bytes[41..49], &[8, 7, 6, 5, 4, 3, 2, 1]);
    // Little-endian index in list.
    assert_eq!(&bytes[49..53], &[5, 0, 0, 0]);
    assert_eq!(&bytes[53..], &[0xaa, 0xbb]);
}

#[test]
fn response_message_exact_bytes() {
    let message_id = From::from(0x0102030405060708u64);
    let message = EncodedMessage(vec![0xcc]);
    let bytes = build_response_message(message_id, 7, Ok(&message)).into_bytes();
    assert_eq!(bytes, vec![1, 8, 7, 6, 5, 4, 3, 2, 1, 7, 0, 0, 0, 0, 0xcc]);

    let err_bytes = build_response_message(message_id, 7, Err(())).into_bytes();
    assert_eq!(err_bytes, vec![1, 8, 7, 6, 5, 4, 3, 2, 1, 7, 0, 0, 0, 1]);
}

#[test]
fn decode_rejects_malformed_frames() {
    assert!(decode_message(&[]).is_err());
    assert!(decode_message(&[3]).is_err());
    // Too short for an interface message.
    assert!(decode_interface_message(&[0; 52]).is_err());
    // Wrong tag.
    assert!(decode_interface_message(&[1; 53]).is_err());
    // Too short for a response.
    assert!(decode_response_message(&[1; 13]).is_err());
    // An error response carries no payload.
    assert!(decode_response_message(&[1, 0, 0, 0, 0, 0, 0, 0, 0, 0, 0, 0, 0, 1, 9]).is_err());
    // A process-destroyed frame is exactly thirteen bytes.
    assert!(decode_process_destroyed_message(&[2; 14]).is_err());
}

#[test]
fn decode_message_dispatches_on_tag() {
    let pid = From::from(77u64);
    let bytes = build_process_destroyed_message(pid, 0).into_bytes();
    match decode_message(&bytes).unwrap() {
        DecodedMessage::ProcessDestroyed(d) => assert_eq!(d.pid, pid),
        _ => panic!(),
    }
}
