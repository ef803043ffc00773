use buruma::client::{
    check_reply, exists_reply, frame_packet, keep_alive_decision, parse_notification,
    read_timeout_of, wrap_len_buf, Client, PingAction,
};
use buruma::codec::read_i32;
use buruma::constants::{AddWatchMode, CreateMode, EventType, KeeperState, States};
use buruma::error::{ServerErrorCode, ZKError};
use buruma::req::{RequestHeader, ACL};
use buruma::resp::{ConnectResponse, ReplyHeader, Stat, WatcherEvent};

#[test]
fn new_client_is_not_connected() {
    let c = Client::new("127.0.0.1:2181", 5000).unwrap();
    assert_eq!(c.state(), States::NotConnected);
    assert_eq!(c.session_id(), 0);
    assert_eq!(c.session_timeout(), 5000);
    assert!(c.state().is_alive());
    assert!(!c.state().is_connected());
}

#[test]
fn chroot_prefixes_every_user_path() {
    let c = Client::new("1.2.3.4:2181,5.6.7.8:2181/svc", 5000).unwrap();
    assert_eq!(c.get_path("/x"), "/svc/x");
    assert_eq!(c.get_path("x"), "/svc/x");
    let c = Client::new("127.0.0.1:2181", 5000).unwrap();
    assert_eq!(c.get_path("/x"), "/x");
}

#[test]
fn xids_start_at_one_and_strictly_increase() {
    let mut c = Client::new("127.0.0.1:2181", 5000).unwrap();
    let p1 = c.create_op("/a", None, ACL::world_acl(), CreateMode::Persistent).unwrap();
    let p2 = c.delete_op("/a", -1).unwrap();
    let p3 = c.set_op("/a", b"v", -1).unwrap();
    let x1 = p1.rh.unwrap().xid;
    let x2 = p2.rh.unwrap().xid;
    let x3 = p3.rh.unwrap().xid;
    assert_eq!(x1, 1);
    assert_eq!(x2, 2);
    assert_eq!(x3, 3);
    assert!(1 <= x1 && x1 < x2 && x2 < x3);
}

#[test]
fn invalid_paths_fail_with_an_argument_error() {
    let mut c = Client::new("127.0.0.1:2181", 5000).unwrap();
    for bad in ["", "no-slash", "/trailing/", "/bad\u{1}"] {
        match c.create_op(bad, None, ACL::world_acl(), CreateMode::Persistent) {
            Err(ZKError::PathError(_, _)) => {},
            other => panic!("expected a path error, got {:?}", other),
        }
    }
    // no XID was consumed by the refused calls
    let p = c.delete_op("/ok", -1).unwrap();
    assert_eq!(p.rh.unwrap().xid, 1);
}

#[test]
fn container_mode_selects_the_container_opcode() {
    let mut c = Client::new("127.0.0.1:2181", 5000).unwrap();
    let p = c.create_op("/c", None, ACL::world_acl(), CreateMode::Container).unwrap();
    assert_eq!(p.rh.unwrap().rtype, 19);
    let p = c.create_op("/c", None, ACL::world_acl(), CreateMode::Persistent).unwrap();
    assert_eq!(p.rh.unwrap().rtype, 1);
}

#[test]
fn frames_carry_their_length() {
    let mut c = Client::new("127.0.0.1:2181", 5000).unwrap();
    let p = c.delete_op("/a", -1).unwrap();
    let frame = frame_packet(&p);
    let (len, pos) = read_i32(&frame, 0).unwrap();
    assert_eq!(pos, 4);
    assert_eq!(len as usize, frame.len() - 4);
    let (h, _) = RequestHeader::read(&frame, 4).unwrap();
    assert_eq!(h.xid, 1);
    assert_eq!(h.rtype, 2);

    let w = wrap_len_buf(vec![9, 9]);
    assert_eq!(w, vec![0, 0, 0, 2, 9, 9]);
}

#[test]
fn handshake_response_settles_the_session() {
    let mut c = Client::new("127.0.0.1:2181", 5000).unwrap();
    c.start_connecting();
    assert_eq!(c.state(), States::Connecting);
    let resp = ConnectResponse {
        protocol_version: 0,
        time_out: 4000,
        session_id: 42,
        password: vec![7; 16],
        read_only: false,
    };
    let mut buf: Vec<u8> = Vec::new();
    resp.write(&mut buf);
    c.handle_connect_response(&buf).unwrap();
    assert_eq!(c.state(), States::Connected);
    assert_eq!(c.session_id(), 42);
    assert_eq!(c.session_timeout(), 4000);
    assert_eq!(c.password(), &vec![7; 16]);
    assert!(c.ensure_connected().is_ok());
}

#[test]
fn rejected_session_has_expired() {
    let mut c = Client::new("127.0.0.1:2181", 5000).unwrap();
    let resp = ConnectResponse {
        protocol_version: 0,
        time_out: 4000,
        session_id: 0,
        password: Vec::new(),
        read_only: false,
    };
    let mut buf: Vec<u8> = Vec::new();
    resp.write(&mut buf);
    match c.handle_connect_response(&buf) {
        Err(ZKError::ServerError(ServerErrorCode::SessionExpired, _)) => {},
        other => panic!("expected session expiry, got {:?}", other),
    }
    assert_eq!(c.state(), States::Closed);
    assert!(!c.state().is_alive());
}

#[test]
fn read_only_flag_connects_read_only() {
    let mut c = Client::new("127.0.0.1:2181", 5000).unwrap();
    let resp = ConnectResponse {
        protocol_version: 0,
        time_out: 4000,
        session_id: 9,
        password: Vec::new(),
        read_only: true,
    };
    let mut buf: Vec<u8> = Vec::new();
    resp.write(&mut buf);
    c.handle_connect_response(&buf).unwrap();
    assert_eq!(c.state(), States::ConnectedReadOnly);
    assert!(c.state().is_connected());
}

#[test]
fn truncated_handshake_is_a_protocol_error() {
    let mut c = Client::new("127.0.0.1:2181", 5000).unwrap();
    let buf: Vec<u8> = vec![0, 0];
    match c.handle_connect_response(&buf) {
        Err(ZKError::ProtocolParseError) => {},
        other => panic!("expected a protocol error, got {:?}", other),
    }
    assert_eq!(c.state(), States::Closed);
}

#[test]
fn submissions_need_a_connected_session() {
    let c = Client::new("127.0.0.1:2181", 5000).unwrap();
    match c.ensure_connected() {
        Err(ZKError::NetworkError(_)) => {},
        other => panic!("expected a network error, got {:?}", other),
    }
}

#[test]
fn reply_errors_map_to_server_errors() {
    let rh = ReplyHeader { xid: 1, zxid: 0, err: -101 };
    match check_reply(&rh, Some(1)) {
        Err(ZKError::ServerError(ServerErrorCode::NoNode, raw)) => assert_eq!(raw, -101),
        other => panic!("expected the no-node error, got {:?}", other),
    }
    let rh = ReplyHeader { xid: 2, zxid: 0, err: 0 };
    match check_reply(&rh, Some(1)) {
        Err(ZKError::ServerError(ServerErrorCode::ConnectionLoss, _)) => {},
        other => panic!("expected a lost connection, got {:?}", other),
    }
    let rh = ReplyHeader { xid: 1, zxid: 0, err: 0 };
    assert!(check_reply(&rh, Some(1)).is_ok());
    assert!(check_reply(&rh, None).is_ok());
}

#[test]
fn exists_maps_no_node_to_absent() {
    let r = exists_reply(Err(ZKError::ServerError(ServerErrorCode::NoNode, -101)));
    assert!(matches!(r, Ok(None)));
    let r = exists_reply(Err(ZKError::ServerError(ServerErrorCode::NoAuth, -102)));
    assert!(r.is_err());
    let mut buf: Vec<u8> = Vec::new();
    Stat::default().write(&mut buf);
    let r = exists_reply(Ok(buf));
    assert!(matches!(r, Ok(Some(_))));
}

#[test]
fn notifications_parse_to_events() {
    let ev = WatcherEvent { event_type: 3, keep_state: 3, path: "/w".to_string() };
    let mut buf: Vec<u8> = Vec::new();
    ev.write(&mut buf);
    let w = parse_notification(&buf).unwrap();
    assert_eq!(w.event_type, EventType::NodeDataChanged);
    assert_eq!(w.keep_state, KeeperState::SyncConnected);
    assert_eq!(w.path, "/w");

    let ev = WatcherEvent { event_type: 99, keep_state: 3, path: "/w".to_string() };
    let mut buf: Vec<u8> = Vec::new();
    ev.write(&mut buf);
    assert!(matches!(parse_notification(&buf), Err(ZKError::ProtocolParseError)));
}

#[test]
fn ping_packet_uses_the_reserved_xid() {
    let c = Client::new("127.0.0.1:2181", 5000).unwrap();
    let p = c.create_ping_request();
    let h = p.rh.unwrap();
    assert_eq!(h.xid, -2);
    assert_eq!(h.rtype, 11);
    assert!(p.req.is_none());
}

#[test]
fn keep_alive_pings_when_idle() {
    let rt = read_timeout_of(30000);
    assert_eq!(rt, 20000);
    assert_eq!(keep_alive_decision(10001, rt), PingAction::SendPing);
    assert_eq!(keep_alive_decision(10000, rt), PingAction::SendPing);
    assert_eq!(keep_alive_decision(500, rt), PingAction::Sleep(19500));
    assert_eq!(keep_alive_decision(0, 4000), PingAction::Sleep(4000));
    assert_eq!(keep_alive_decision(2000, 4000), PingAction::SendPing);
}

#[test]
fn add_watch_registers_and_frames() {
    let mut c = Client::new("127.0.0.1:2181", 5000).unwrap();
    let p = c.add_watch_op("/w", 11, AddWatchMode::PersistentRecursive).unwrap();
    assert_eq!(p.rh.unwrap().rtype, 106);
    let ev = buruma::watcher::WatchedEvent {
        keep_state: KeeperState::SyncConnected,
        event_type: EventType::NodeDataChanged,
        path: "/w/deep".to_string(),
    };
    assert_eq!(c.find_triggered(&ev), vec![11]);
}

#[test]
fn remove_watches_drops_local_entries() {
    let mut c = Client::new("127.0.0.1:2181", 5000).unwrap();
    let _ = c.getw_op("/w", Some(5)).unwrap();
    let p = c.remove_watches_op("/w", buruma::constants::WatcherType::Data).unwrap();
    assert_eq!(p.rh.unwrap().rtype, 17);
    let ev = buruma::watcher::WatchedEvent {
        keep_state: KeeperState::SyncConnected,
        event_type: EventType::NodeDataChanged,
        path: "/w".to_string(),
    };
    assert!(c.find_triggered(&ev).is_empty());
}
