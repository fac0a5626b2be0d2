use solo_pc::error::ServerError;
use solo_pc::exchange::{Action, Event, Exchange};
use solo_pc::frame::{send_response, PACKET_SIZE};
use solo_pc::server::{AppError, Message};

/// Feed framed packets until the exchange asks for something else.
fn feed(exchange: &mut Exchange, last: &mut u32, packets: Vec<Vec<u8>>) -> Action {
    let n = packets.len();
    for (i, pkt) in packets.into_iter().enumerate() {
        assert!(!exchange.packet_exhausts_sequence(&pkt));
        let action = exchange.step(last, Event::PacketRead(pkt));
        if i + 1 < n {
            assert!(matches!(action, Action::ReadPacket), "packet {i}");
        } else {
            return action;
        }
    }
    unreachable!()
}

#[test]
fn ping_exchange_echoes() {
    let data: Vec<u8> = (0..300).map(|i| (i * 3) as u8).collect();
    let mut ex = Exchange::new();
    let mut last = 0;
    match feed(&mut ex, &mut last, send_response(0x1234, 0x81, &data)) {
        Action::Send(r) => {
            assert_eq!((r.channel, r.command), (0x1234, 0x81));
            assert_eq!(r.payload, data);
        }
        _ => panic!("expected a reply"),
    }
    assert_eq!(last, 0);
}

#[test]
fn init_exchange_allocates_channel() {
    let mut ex = Exchange::new();
    let mut last = 6;
    match feed(&mut ex, &mut last, send_response(0xffff_ffff, 0x86, &[8, 7, 6, 5, 4, 3, 2, 1])) {
        Action::Send(r) => {
            assert_eq!((r.channel, r.command), (0xffff_ffff, 0x86));
            assert_eq!(r.payload, vec![8, 7, 6, 5, 4, 3, 2, 1, 0, 0, 0, 7, 2, 0, 0, 0, 4]);
        }
        _ => panic!("expected a reply"),
    }
    assert_eq!(last, 7);
}

#[test]
fn application_exchange() {
    let request: Vec<u8> = (0..100).collect();
    let mut ex = Exchange::new();
    let mut last = 0;
    let action = feed(&mut ex, &mut last, send_response(3, 0x90, &request));
    assert!(matches!(action, Action::ListCommands));
    match ex.step(&mut last, Event::CommandsListed(vec![0x10, 0x03])) {
        Action::CallApp { command, request: m } => {
            assert_eq!(command, 0x10);
            assert_eq!(m.as_slice(), &request[..]);
        }
        _ => panic!("expected a call"),
    }
    let mut response: Message = heapless::Vec::new();
    response.extend_from_slice(&[0x00, 0xa0]).unwrap();
    match ex.step(&mut last, Event::AppReturned(Ok(()), response)) {
        Action::Send(r) => {
            assert_eq!((r.channel, r.command), (3, 0x90));
            assert_eq!(r.payload, vec![0x00, 0xa0]);
        }
        _ => panic!("expected a reply"),
    }
}

#[test]
fn application_failure_is_reported() {
    let mut ex = Exchange::new();
    let mut last = 0;
    feed(&mut ex, &mut last, send_response(3, 0x90, &[1]));
    ex.step(&mut last, Event::CommandsListed(vec![0x10]));
    match ex.step(&mut last, Event::AppReturned(Err(AppError::InvalidLength), heapless::Vec::new())) {
        Action::Send(r) => {
            assert_eq!((r.channel, r.command), (3, 0xbf));
            assert_eq!(r.payload, vec![0x03]);
        }
        _ => panic!("expected an error reply"),
    }
}

#[test]
fn unregistered_command_is_answered_with_an_error() {
    let mut ex = Exchange::new();
    let mut last = 0;
    feed(&mut ex, &mut last, send_response(3, 0x83, &[1, 2]));
    match ex.step(&mut last, Event::CommandsListed(vec![0x10])) {
        Action::Send(r) => {
            assert_eq!((r.channel, r.command), (3, 0xbf));
            assert_eq!(r.payload, vec![0x01]);
        }
        _ => panic!("expected an error reply"),
    }
}

#[test]
fn closed_connection_before_a_request() {
    let mut ex = Exchange::new();
    let mut last = 0;
    assert!(matches!(ex.step(&mut last, Event::ReadFailed), Action::Disconnected));
}

#[test]
fn failed_continuation_read() {
    let mut ex = Exchange::new();
    let mut last = 0;
    let packets = send_response(3, 0x81, &[0u8; 100]);
    let action = ex.step(&mut last, Event::PacketRead(packets[0].clone()));
    assert!(matches!(action, Action::ReadPacket));
    assert!(matches!(ex.step(&mut last, Event::ReadFailed), Action::ContinuationReadFailed));
}

#[test]
fn refused_requests() {
    let mut last = 0;
    let mut ex = Exchange::new();
    let mut pkt = vec![0u8; PACKET_SIZE];
    pkt[4] = 0x01;
    assert!(matches!(
        ex.step(&mut last, Event::PacketRead(pkt)),
        Action::Failed(ServerError::UnexpectedContinuation)
    ));

    let mut ex = Exchange::new();
    let action = ex.step(&mut last, Event::PacketRead(send_response(3, 0xa0, &[]).remove(0)));
    assert!(matches!(action, Action::Failed(ServerError::UnknownCommand(0x20))));

    let mut ex = Exchange::new();
    let action = feed(&mut ex, &mut last, send_response(3, 0x90, &vec![0u8; 7610]));
    assert!(matches!(action, Action::ListCommands));
    assert!(matches!(
        ex.step(&mut last, Event::CommandsListed(vec![0x10])),
        Action::Failed(ServerError::RequestTooLarge)
    ));
}
