use solo_pc::error::ServerError;
use solo_pc::server::{
    call_reply, is_registered, plan_dispatch, route_message, AppError, Dispatch, Message, Route, MESSAGE_CAPACITY,
};

fn reply(r: Result<Route, ServerError>) -> (u32, u8, Vec<u8>) {
    match r {
        Ok(Route::Reply(resp)) => (resp.channel, resp.command, resp.payload),
        _ => panic!("expected a reply"),
    }
}

#[test]
fn init_allocates_channel_and_echoes_nonce() {
    let mut last = 0u32;
    let nonce = [1u8, 2, 3, 4, 5, 6, 7, 8];
    let (ch, cmd, payload) = reply(route_message(&mut last, 0xffff_ffff, 0x06, &nonce));
    assert_eq!(last, 1);
    assert_eq!(ch, 0xffff_ffff);
    assert_eq!(cmd, 0x86);
    assert_eq!(payload, vec![1, 2, 3, 4, 5, 6, 7, 8, 0, 0, 0, 1, 2, 0, 0, 0, 4]);

    let (_, _, payload) = reply(route_message(&mut last, 0xffff_ffff, 0x06, &nonce));
    assert_eq!(last, 2);
    assert_eq!(&payload[8..12], &[0, 0, 0, 2]);
}

#[test]
fn init_with_short_nonce_sends_zeros() {
    let mut last = 41u32;
    let (_, _, payload) = reply(route_message(&mut last, 0xffff_ffff, 0x06, &[9, 9, 9]));
    assert_eq!(last, 42);
    assert_eq!(payload, vec![0, 0, 0, 0, 0, 0, 0, 0, 0, 0, 0, 42, 2, 0, 0, 0, 4]);
}

#[test]
fn channel_allocation_skips_zero() {
    let mut last = u32::MAX;
    let _ = route_message(&mut last, 0xffff_ffff, 0x06, &[0; 8]);
    assert_eq!(last, 1);
}

#[test]
fn ping_echoes_payload() {
    let mut last = 5u32;
    let data: Vec<u8> = (0..300).map(|i| i as u8).collect();
    let (ch, cmd, payload) = reply(route_message(&mut last, 77, 0x01, &data));
    assert_eq!((ch, cmd), (77, 0x81));
    assert_eq!(payload, data);
    assert_eq!(last, 5);
}

#[test]
fn known_commands_go_to_the_application() {
    let mut last = 0u32;
    for cmd in [0x03u8, 0x04, 0x08, 0x10, 0x11, 0x12, 0x3b, 0x3f, 0x40, 0x7f] {
        assert!(matches!(route_message(&mut last, 1, cmd, &[]), Ok(Route::Dispatch)));
    }
    assert_eq!(last, 0);
}

#[test]
fn unknown_command_is_an_error() {
    let mut last = 0u32;
    for cmd in [0x00u8, 0x02, 0x05, 0x20, 0x3e] {
        assert_eq!(
            route_message(&mut last, 1, cmd, &[]).err(),
            Some(ServerError::UnknownCommand(cmd))
        );
    }
}

#[test]
fn unregistered_command_gets_invalid_command_error() {
    match plan_dispatch(3, 0x10, &[0x03, 0x11], &[1, 2, 3]) {
        Ok(Dispatch::Reply(resp)) => {
            assert_eq!((resp.channel, resp.command), (3, 0xbf));
            assert_eq!(resp.payload, vec![0x01]);
        }
        _ => panic!("expected an error reply"),
    }
}

#[test]
fn registration_lookup() {
    assert!(is_registered(0x10, &[0x03, 0x10]));
    assert!(!is_registered(0x11, &[0x03, 0x10]));
    assert!(!is_registered(0x01, &[]));
}

#[test]
fn oversized_request_is_refused() {
    let data = vec![0u8; MESSAGE_CAPACITY + 1];
    assert_eq!(plan_dispatch(3, 0x10, &[0x10], &data).err(), Some(ServerError::RequestTooLarge));
}

#[test]
fn request_is_copied_into_a_message() {
    let data: Vec<u8> = (0..MESSAGE_CAPACITY).map(|i| i as u8).collect();
    match plan_dispatch(3, 0x10, &[0x03, 0x10, 0x11], &data) {
        Ok(Dispatch::Call(m)) => assert_eq!(m.as_slice(), &data[..]),
        _ => panic!("expected a call"),
    }
}

#[test]
fn application_response_is_sent_back() {
    let mut response: Message = heapless::Vec::new();
    response.extend_from_slice(&[0x00, 0xa1, 0x01]).unwrap();
    let r = call_reply(9, 0x10, Ok(()), &response);
    assert_eq!((r.channel, r.command), (9, 0x90));
    assert_eq!(r.payload, vec![0x00, 0xa1, 0x01]);
}

#[test]
fn application_errors_become_error_codes() {
    let response: Message = heapless::Vec::new();
    for (e, code) in [
        (AppError::InvalidCommand, 0x01u8),
        (AppError::InvalidLength, 0x03),
        (AppError::NoResponse, 0x7f),
    ] {
        let r = call_reply(9, 0x10, Err(e), &response);
        assert_eq!((r.channel, r.command), (9, 0xbf));
        assert_eq!(r.payload, vec![code]);
    }
}
