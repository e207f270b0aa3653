use bytes::BytesMut;
use zebra::client::{Action, Event, Message, MessageOpen, Peer, State};

#[test]
fn outbound_handshake_reaches_established() {
    let mut peer = Peer { state: State::Idle };

    assert_eq!(peer.step(Event::Connect), Action::StartConnect);
    assert_eq!(peer.state, State::Connect);

    assert_eq!(peer.step(Event::Connected), Action::SendOpen);
    assert_eq!(peer.state, State::OpenSent);

    assert_eq!(peer.step(Event::Packet(Message::Open(MessageOpen::new()))), Action::SendKeepAlive);
    assert_eq!(peer.state, State::OpenConfirm);

    assert_eq!(peer.step(Event::Packet(Message::KeepAlive)), Action::Wait);
    assert_eq!(peer.state, State::Established);

    // An established session echoes keepalives.
    assert_eq!(peer.step(Event::Packet(Message::KeepAlive)), Action::SendKeepAlive);
    assert_eq!(peer.state, State::Established);
}

#[test]
fn inbound_accept_reaches_openconfirm() {
    let mut peer = Peer { state: State::Idle };
    assert_eq!(peer.step(Event::Accept), Action::SendOpen);
    assert_eq!(peer.state, State::OpenSent);
    assert_eq!(peer.step(Event::Packet(Message::Open(MessageOpen::new()))), Action::SendKeepAlive);
    assert_eq!(peer.state, State::OpenConfirm);
}

#[test]
fn notification_and_decode_failure_reset_to_idle() {
    for state in [State::Connect, State::Active, State::OpenSent, State::OpenConfirm,
        State::Established] {
        let mut peer = Peer { state };
        assert_eq!(peer.step(Event::Packet(Message::Notification)), Action::ScheduleRetry);
        assert_eq!(peer.state, State::Idle);

        let mut peer = Peer { state };
        assert_eq!(peer.step(Event::DecodeFailed), Action::ScheduleRetry);
        assert_eq!(peer.state, State::Idle);
    }
}

#[test]
fn hold_timer_tears_down_established() {
    let mut peer = Peer { state: State::Established };
    assert_eq!(peer.step(Event::HoldTimerExpired), Action::SendNotification);
    assert_eq!(peer.state, State::Idle);

    // Elsewhere the hold timer is not armed.
    let mut peer = Peer { state: State::OpenSent };
    assert_eq!(peer.step(Event::HoldTimerExpired), Action::Wait);
    assert_eq!(peer.state, State::OpenSent);
}

#[test]
fn handshake_deadline_resets_pending_states() {
    for state in [State::Connect, State::Active, State::OpenSent, State::OpenConfirm] {
        let mut peer = Peer { state };
        assert_eq!(peer.step(Event::DeadlineExpired), Action::ScheduleRetry);
        assert_eq!(peer.state, State::Idle);
    }
    let mut peer = Peer { state: State::Established };
    assert_eq!(peer.step(Event::DeadlineExpired), Action::Wait);
    assert_eq!(peer.state, State::Established);
}

#[test]
fn collision_prefers_whichever_completes() {
    // An inbound connection while the outbound attempt is pending.
    let mut peer = Peer { state: State::Idle };
    assert_eq!(peer.step(Event::Connect), Action::StartConnect);
    assert_eq!(peer.step(Event::Accept), Action::SendOpen);
    assert_eq!(peer.state, State::Active);
    assert_eq!(peer.step(Event::Packet(Message::Open(MessageOpen::new()))), Action::SendKeepAlive);
    assert_eq!(peer.state, State::OpenConfirm);
}

#[test]
fn decoder_confirms_on_peer_open() {
    let mut peer = Peer { state: State::OpenSent };
    let mut buf = BytesMut::new();
    peer.encode(Message::Open(MessageOpen::new()), &mut buf);
    peer.encode(Message::KeepAlive, &mut buf);

    // The peer's OPEN while ours is outstanding confirms the session.
    let first = peer.decode(&mut buf).unwrap();
    assert_eq!(first, Some(Message::Open(MessageOpen::new())));
    assert_eq!(peer.state, State::OpenConfirm);

    let second = peer.decode(&mut buf).unwrap();
    assert_eq!(second, Some(Message::KeepAlive));
    assert_eq!(peer.state, State::OpenConfirm);

    // Nothing left: the decoder reports that more data is needed.
    let third = peer.decode(&mut buf).unwrap();
    assert_eq!(third, None);
}
