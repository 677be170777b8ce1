use revtunnel::control::{
    announcement, control_next, data_next, ChannelState, ControlAction, ControlEvent, DataAction,
    DataEvent, DataState,
};
use revtunnel::framing::FrameBuffer;
use revtunnel::logger::{Bucket, LogEvent, LoggerState};
use revtunnel::packet::Packet;
use revtunnel::registry::{Registry, ServerAction, TunnelError};

/// Carries the bytes of one message from one side to the other in two reads.
fn deliver(bytes: &[u8], into: &mut FrameBuffer) -> Packet {
    let cut = bytes.len() / 2;
    assert!(into.extend(&bytes[..cut]));
    assert!(into.extend(&bytes[cut..]));
    into.next_packet().unwrap().unwrap()
}

#[test]
fn a_client_gets_its_tunnel_and_a_visitor_is_served() {
    let mut server = Registry::new(3001, vec![String::from("foo")]).unwrap();
    let control_conn = 1;
    let mut server_inbox = FrameBuffer::new();
    let mut client_inbox = FrameBuffer::new();

    // The client connects and sends Init.
    let (state, action) = control_next(ChannelState::Connecting, ControlEvent::Connected);
    assert_eq!(action, ControlAction::SendInit);
    let first = deliver(&Packet::Init.encode(), &mut server_inbox);

    // The server hands out the domain and answers Success.
    let granted = match server.accept(control_conn, &first) {
        ServerAction::Welcome(grant) => grant,
        other => panic!("{:?}", other),
    };
    assert_eq!(granted.domain, "foo");
    assert_eq!(granted.port, 3002);
    let answer = deliver(&Packet::Success(granted.domain.clone()).encode(), &mut client_inbox);
    assert_eq!(answer, Packet::Success(String::from("foo")));

    // The client acknowledges and is active.
    let (state, action) = control_next(state, ControlEvent::Received(answer));
    assert_eq!(state, ChannelState::Active);
    assert_eq!(action, ControlAction::Establish(String::from("foo")));
    let ack = deliver(&Packet::Ack.encode(), &mut server_inbox);
    assert_eq!(server.acknowledge(control_conn, Some(&ack)), Ok(3002));
    assert!(server.serves("foo"));

    // A visitor connects to the public port and waits.
    let visitor = 50;
    assert_eq!(server.enqueue(3002, visitor), Ok(control_conn));

    // The client's data connection announces the domain and is paired.
    let data_conn = 2;
    let mut data_inbox = FrameBuffer::new();
    let (data_state, action) = data_next(DataState::Connecting, &DataEvent::Connected);
    assert_eq!(action, DataAction::Announce);
    let hello = deliver(&announcement("foo").encode(), &mut data_inbox);
    match server.accept(data_conn, &hello) {
        ServerAction::Forward(session) => assert_eq!(session, visitor),
        other => panic!("{:?}", other),
    }
    let mut cue_inbox = FrameBuffer::new();
    let cue = deliver(&Packet::DataForward.encode(), &mut cue_inbox);
    let (data_state, action) = data_next(data_state, &DataEvent::Received(cue));
    assert_eq!((data_state, action), (DataState::Relaying, DataAction::Relay));

    // The observer sees the visitor's request and the target's answer go by.
    let mut observer = LoggerState::new();
    let request = b"GET /x HTTP/1.1\r\nHost: foo\r\n\r\n";
    assert_eq!(
        observer.observe(request, 1_000_000),
        Some(LogEvent::Request { line: String::from("GET /x") })
    );
    match observer.observe(b"HTTP/1.1 200 OK\r\n\r\nhello", 3_000_000) {
        Some(LogEvent::Response { elapsed, status, bucket, .. }) => {
            assert_eq!(elapsed, 2_000_000);
            assert_eq!(status, 200);
            assert_eq!(bucket, Bucket::Success);
        }
        other => panic!("{:?}", other),
    }

    // The relay ends; the data channel connects again and finds nobody waiting.
    let (data_state, action) = data_next(data_state, &DataEvent::RelayEnded);
    assert_eq!((data_state, action), (DataState::Connecting, DataAction::Reconnect));
    match server.accept(3, &announcement("foo")) {
        ServerAction::Reject(e) => assert_eq!(e, TunnelError::NoPendingSession),
        other => panic!("{:?}", other),
    }

    // The client goes away: one release, and the visitors that wait are told.
    assert_eq!(server.enqueue(3002, 51), Ok(control_conn));
    let (state, action) = control_next(state, ControlEvent::WriteFailed);
    assert_eq!((state, action), (ChannelState::Closed, ControlAction::Stop));
    let teardown = server.close(control_conn).unwrap();
    assert_eq!(teardown.grant.domain, "foo");
    assert_eq!(teardown.orphans, vec![51]);
    assert!(server.close(control_conn).is_none());
    assert!(!server.pool().is_held("foo", 3002));

    // The domain can be handed out again.
    match server.accept(4, &Packet::Init) {
        ServerAction::Welcome(grant) => assert_eq!(grant.port, 3002),
        other => panic!("{:?}", other),
    }
}
