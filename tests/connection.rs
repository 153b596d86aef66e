use ptnet::connection::{
    decode_message_result, decode_server_message, encode_message, frame_kind, read_magic, server_message_iobs,
    FrameKind, Message, MessageResultCode, ProtocolError, SharedState, MAGIC_MESSAGE, MAGIC_RESULT,
    MAGIC_SERVER_MESSAGE, PORT_AUTO,
};
use ptnet::wire::{Header, FC, BIT_PRM};

#[test]
fn result_correlation() {
    let mut state: SharedState<&'static str> = SharedState::new();
    for _ in 0..7 {
        state.reserve_id();
    }
    let msg = Message { port: PORT_AUTO, header: Header { c: 0x44, address: [1, 2, 3, 4, 5, 6] }, payload: vec![9, 8] };
    let (id, frame) = state.prepare_send(&msg).unwrap();
    assert_eq!(id, 7);
    assert_eq!(&frame[2..4], &[7, 0]);
    assert!(state.register(id, "waiter-7").is_none());
    let next = state.reserve_id();
    assert_eq!(next, 8);

    let r = decode_message_result(&[7, 0, 0, 0]);
    assert_eq!(r.msg_id, 7);
    assert_eq!(r.result_code(), Some(MessageResultCode::Delivered));
    assert_eq!(state.take(r.msg_id), Some("waiter-7"));
    // a second result for the same id finds no waiter
    assert_eq!(state.take(r.msg_id), None);
}

#[test]
fn ids_wrap() {
    let mut state: SharedState<u8> = SharedState::new();
    let mut last = 0;
    for _ in 0..65537u32 {
        last = state.reserve_id();
    }
    assert_eq!(last, 0);
}

#[test]
fn registering_an_id_again_displaces_the_old_waiter() {
    let mut state: SharedState<u32> = SharedState::new();
    assert_eq!(state.register(3, 30), None);
    assert_eq!(state.register(4, 40), None);
    assert_eq!(state.register(3, 31), Some(30));
    assert_eq!(state.take(4), Some(40));
    assert_eq!(state.take(3), Some(31));
}

#[test]
fn request_frame_layout() {
    let msg = Message { port: PORT_AUTO, header: Header { c: 0x44, address: [1, 2, 3, 4, 5, 6] }, payload: vec![0xAA, 0xBB] };
    let f = encode_message(0x0102, &msg).unwrap();
    assert_eq!(f, vec![0x34, 0x12, 0x02, 0x01, 0xFF, 0xFF, 0xFF, 0xFF, 0x44, 1, 2, 3, 4, 5, 6, 2, 0xAA, 0xBB]);
    let long = Message { port: 1, header: Header { c: 0, address: [0; 6] }, payload: vec![0; 256] };
    assert_eq!(encode_message(0, &long).unwrap_err(), ProtocolError::PayloadTooLong);
    assert_eq!(read_magic(&f[0..2]), MAGIC_MESSAGE);
}

#[test]
fn unknown_magic_is_protocol_error() {
    assert_eq!(frame_kind(MAGIC_RESULT), Ok(FrameKind::Result));
    assert_eq!(frame_kind(MAGIC_SERVER_MESSAGE), Ok(FrameKind::ServerMessage));
    assert_eq!(frame_kind(0xBEEF), Err(ProtocolError::UnknownMagic(0xBEEF)));
    assert_eq!(frame_kind(MAGIC_MESSAGE), Err(ProtocolError::UnknownMagic(MAGIC_MESSAGE)));
}

#[test]
fn server_message_objects() {
    let (port, header, len) = decode_server_message(&[0xFF, 0xFF, 0xFF, 0xFF, BIT_PRM | 3, 1, 2, 3, 4, 5, 6, 10]);
    assert_eq!(port, -1);
    assert_eq!(len, 10);
    assert!(header.prm());
    assert_eq!(header.fc(), Some(FC::PrmSendConfirm));
    let payload: &[u8] = &[0, 3, 34, 0x15, 50, 0x10, 0x20, 0x30, 0x40, 0x50];
    let iobs = server_message_iobs(&header, payload);
    assert_eq!(iobs.len(), 5);
    assert_eq!(iobs[4].ioa, 54);
    // a secondary message is not parsed
    let sec = Header { c: 0, address: [0; 6] };
    assert!(server_message_iobs(&sec, payload).is_empty());
    // the first error stops parsing; what came before is kept
    let broken: &[u8] = &[0, 3, 34, 0x12, 50, 0x10];
    assert_eq!(server_message_iobs(&header, broken).len(), 1);
}

#[test]
fn result_codes() {
    assert_eq!(decode_message_result(&[1, 0, 3, 0]).result_code(), Some(MessageResultCode::LinkDown));
    assert_eq!(decode_message_result(&[1, 0, 9, 0]).result_code(), None);
}
