use buruma::codec::{
    read_bool, read_bytes, read_i32, read_i64, read_str, read_u32, write_bool, write_bytes,
    write_i32, write_i64, write_str, write_u32,
};
use buruma::req::{
    AddWatchRequest, CheckWatchesRequest, ConnectRequest, CreateRequest, DeleteRequest,
    PathAndWatchRequest, PathRequest, RequestHeader, SetACLRequest, SetDataRequest, ACL, Scheme,
};
use buruma::resp::{
    ConnectResponse, CreateResponse, GetACLResponse, GetAllChildrenNumberResponse,
    GetChildren2Response, GetDataResponse, PathListResponse, ReplyHeader, Stat, WatcherEvent,
};
use buruma::constants::{AddWatchMode, CreateMode, EventType, KeeperState, OpCode, Perms, VersionType, WatcherType, XidType};
use buruma::error::ServerErrorCode;

#[test]
fn primitive_exact_bytes() {
    let mut b: Vec<u8> = Vec::new();
    write_u32(&mut b, 1);
    assert_eq!(b, vec![0, 0, 0, 1]);

    let mut b: Vec<u8> = Vec::new();
    write_i32(&mut b, -1);
    assert_eq!(b, vec![0xff, 0xff, 0xff, 0xff]);

    let mut b: Vec<u8> = Vec::new();
    write_i64(&mut b, 0x0102030405060708);
    assert_eq!(b, vec![1, 2, 3, 4, 5, 6, 7, 8]);

    let mut b: Vec<u8> = Vec::new();
    write_bool(&mut b, true);
    write_bool(&mut b, false);
    assert_eq!(b, vec![1, 0]);

    let mut b: Vec<u8> = Vec::new();
    write_str(&mut b, "ab");
    assert_eq!(b, vec![0, 0, 0, 2, 97, 98]);

    let mut b: Vec<u8> = Vec::new();
    write_bytes(&mut b, &[9, 8, 7]);
    assert_eq!(b, vec![0, 0, 0, 3, 9, 8, 7]);
}

#[test]
fn primitive_round_trips() {
    let mut b: Vec<u8> = Vec::new();
    write_u32(&mut b, 0xdead_beef);
    write_i32(&mut b, -42);
    write_i64(&mut b, -1);
    write_bool(&mut b, true);
    write_bytes(&mut b, b"xyz");
    write_str(&mut b, "/node");

    let (u, p) = read_u32(&b, 0).unwrap();
    assert_eq!(u, 0xdead_beef);
    let (i, p) = read_i32(&b, p).unwrap();
    assert_eq!(i, -42);
    let (l, p) = read_i64(&b, p).unwrap();
    assert_eq!(l, -1);
    let (f, p) = read_bool(&b, p).unwrap();
    assert!(f);
    let (v, p) = read_bytes(&b, p).unwrap();
    assert_eq!(v, b"xyz".to_vec());
    let (s, p) = read_str(&b, p).unwrap();
    assert_eq!(s, "/node");
    assert_eq!(p, b.len());
}

#[test]
fn short_buffers_are_refused() {
    let b: Vec<u8> = vec![0, 0];
    assert!(read_i32(&b, 0).is_none());
    assert!(read_i64(&b, 0).is_none());
    // a declared length longer than what follows is a protocol error
    let b: Vec<u8> = vec![0, 0, 0, 5, 1, 2];
    assert!(read_bytes(&b, 0).is_none());
    // the absent marker yields an empty slice
    let b: Vec<u8> = vec![0xff, 0xff, 0xff, 0xff];
    let (v, p) = read_bytes(&b, 0).unwrap();
    assert!(v.is_empty());
    assert_eq!(p, 4);
}

#[test]
fn invalid_utf8_strings_are_refused() {
    // a length-prefixed field holding bytes that are not UTF-8
    let b: Vec<u8> = vec![0, 0, 0, 2, 0xff, 0xfe];
    assert!(buruma::codec::read_str(&b, 0).is_none());
}

#[test]
fn permission_and_mode_codes_are_fixed() {
    assert_eq!(Perms::Read.code(), 1);
    assert_eq!(Perms::Write.code(), 2);
    assert_eq!(Perms::Create.code(), 4);
    assert_eq!(Perms::Delete.code(), 8);
    assert_eq!(Perms::ACL.code(), 16);
    assert_eq!(Perms::All.code(), 31);
    assert_eq!(VersionType::NoVersion.code(), -1);
    assert_eq!(VersionType::Version(9).code(), 9);
    assert_eq!(CreateMode::Container.code(), 4);
    assert!(CreateMode::Container.is_container());
    assert!(!CreateMode::Persistent.is_container());
    assert_eq!(EventType::from_code(3), Some(EventType::NodeDataChanged));
    assert_eq!(EventType::from_code(42), None);
    assert_eq!(KeeperState::from_code(-112), Some(KeeperState::Expired));
    assert_eq!(XidType::classify(-1), XidType::Notification);
    assert_eq!(XidType::classify(-2), XidType::Ping);
    assert_eq!(XidType::classify(-4), XidType::AuthPacket);
    assert_eq!(XidType::classify(-8), XidType::SetWatches);
    assert_eq!(XidType::classify(5), XidType::Response);
}

#[test]
fn server_error_codes_map_one_to_one() {
    assert_eq!(ServerErrorCode::from_code(-101), ServerErrorCode::NoNode);
    assert_eq!(ServerErrorCode::from_code(-110), ServerErrorCode::NodeExists);
    assert_eq!(ServerErrorCode::from_code(-112), ServerErrorCode::SessionExpired);
    assert_eq!(ServerErrorCode::from_code(-4), ServerErrorCode::ConnectionLoss);
    assert_eq!(ServerErrorCode::from_code(-103), ServerErrorCode::BadVersion);
    // anything outside the table falls back to the system error
    assert_eq!(ServerErrorCode::from_code(12345), ServerErrorCode::SystemError);
}

#[test]
fn request_header_round_trip() {
    let h = RequestHeader::new_full(7, OpCode::Create);
    let mut b: Vec<u8> = Vec::new();
    h.write(&mut b);
    assert_eq!(b, vec![0, 0, 0, 7, 0, 0, 0, 1]);
    let (h2, p) = RequestHeader::read(&b, 0).unwrap();
    assert_eq!(h2, h);
    assert_eq!(p, 8);
}

#[test]
fn connect_request_round_trip() {
    let c = ConnectRequest::new(30000);
    let mut b: Vec<u8> = Vec::new();
    c.write(&mut b);
    let (c2, p) = ConnectRequest::read(&b, 0).unwrap();
    assert_eq!(c2, c);
    assert_eq!(p, b.len());
}

#[test]
fn create_request_round_trip() {
    let req = CreateRequest::new_full(
        "/svc/t".to_string(),
        Some(b"value"),
        ACL::world_acl(),
        CreateMode::Ephemeral,
    );
    let mut b: Vec<u8> = Vec::new();
    req.write(&mut b);
    let (req2, p) = CreateRequest::read(&b, 0).unwrap();
    assert_eq!(req2, req);
    assert_eq!(p, b.len());
    assert_eq!(req2.flags, 1);
}

#[test]
fn create_request_no_data_round_trip() {
    let req = CreateRequest::new("/bare");
    let mut b: Vec<u8> = Vec::new();
    req.write(&mut b);
    let (req2, _) = CreateRequest::read(&b, 0).unwrap();
    assert_eq!(req2.path, "/bare");
    assert_eq!(req2.data, None);
    assert_eq!(req2.flags, 0);
}

#[test]
fn acl_schemes_round_trip() {
    let list = vec![
        ACL { perms: 31, scheme: Scheme::World },
        ACL { perms: 1, scheme: Scheme::IP("10.0.0.1".to_string()) },
        ACL { perms: 5, scheme: Scheme::Digest("u:h".to_string()) },
    ];
    let req = SetACLRequest::new("/n".to_string(), list.clone(), 3);
    let mut b: Vec<u8> = Vec::new();
    req.write(&mut b);
    let (req2, p) = SetACLRequest::read(&b, 0).unwrap();
    assert_eq!(req2.acl_list, list);
    assert_eq!(req2.version, 3);
    assert_eq!(p, b.len());
}

#[test]
fn delete_set_watch_requests_round_trip() {
    let d = DeleteRequest::new("/a".to_string(), -1);
    let mut b: Vec<u8> = Vec::new();
    d.write(&mut b);
    let (d2, _) = DeleteRequest::read(&b, 0).unwrap();
    assert_eq!(d2, d);

    let s = SetDataRequest::new("/a".to_string(), b"qq", 4);
    let mut b: Vec<u8> = Vec::new();
    s.write(&mut b);
    let (s2, _) = SetDataRequest::read(&b, 0).unwrap();
    assert_eq!(s2, s);

    let w = PathAndWatchRequest::new("/a".to_string(), true);
    let mut b: Vec<u8> = Vec::new();
    w.write(&mut b);
    let (w2, _) = PathAndWatchRequest::read(&b, 0).unwrap();
    assert_eq!(w2, w);

    let pr = PathRequest::new("/a".to_string());
    let mut b: Vec<u8> = Vec::new();
    pr.write(&mut b);
    let (pr2, _) = PathRequest::read(&b, 0).unwrap();
    assert_eq!(pr2, pr);

    let aw = AddWatchRequest::new("/a".to_string(), AddWatchMode::PersistentRecursive);
    let mut b: Vec<u8> = Vec::new();
    aw.write(&mut b);
    let (aw2, _) = AddWatchRequest::read(&b, 0).unwrap();
    assert_eq!(aw2, aw);
    assert_eq!(aw2.mode, 1);

    let cw = CheckWatchesRequest::new("/a".to_string(), WatcherType::Any);
    let mut b: Vec<u8> = Vec::new();
    cw.write(&mut b);
    let (cw2, _) = CheckWatchesRequest::read(&b, 0).unwrap();
    assert_eq!(cw2, cw);
    assert_eq!(cw2.watcher_type, 3);
}

#[test]
fn reply_header_round_trip() {
    let h = ReplyHeader { xid: 5, zxid: 77, err: -101 };
    let mut b: Vec<u8> = Vec::new();
    h.write(&mut b);
    let (h2, p) = ReplyHeader::read(&b, 0).unwrap();
    assert_eq!(h2, h);
    assert_eq!(p, 16);
}

#[test]
fn stat_round_trip_is_68_bytes() {
    let st = Stat {
        czxid: 1,
        mzxid: 2,
        ctime: 3,
        mtime: 4,
        version: 5,
        cversion: 6,
        aversion: 7,
        ephemeral_owner: 8,
        data_length: 9,
        num_children: 10,
        pzxid: 11,
    };
    let mut b: Vec<u8> = Vec::new();
    st.write(&mut b);
    assert_eq!(b.len(), 68);
    let (st2, p) = Stat::read(&b, 0).unwrap();
    assert_eq!(st2, st);
    assert_eq!(p, 68);
    // a decoded stat re-encodes to the very same bytes
    let mut b2: Vec<u8> = Vec::new();
    st2.write(&mut b2);
    assert_eq!(b2, b);
}

#[test]
fn responses_round_trip() {
    let cr = CreateResponse { path: "/made".to_string() };
    let mut b: Vec<u8> = Vec::new();
    cr.write(&mut b);
    let (cr2, _) = CreateResponse::read(&b, 0).unwrap();
    assert_eq!(cr2, cr);

    let conn = ConnectResponse {
        protocol_version: 0,
        time_out: 4000,
        session_id: 99,
        password: vec![1, 2, 3],
        read_only: false,
    };
    let mut b: Vec<u8> = Vec::new();
    conn.write(&mut b);
    let (conn2, _) = ConnectResponse::read(&b, 0).unwrap();
    assert_eq!(conn2, conn);

    let gd = GetDataResponse { data: b"bytes".to_vec(), stat: Stat::default() };
    let mut b: Vec<u8> = Vec::new();
    gd.write(&mut b);
    let (gd2, _) = GetDataResponse::read(&b, 0).unwrap();
    assert_eq!(gd2, gd);

    let pl = PathListResponse { path_list: vec!["a".to_string(), "b".to_string()] };
    let mut b: Vec<u8> = Vec::new();
    pl.write(&mut b);
    let (pl2, _) = PathListResponse::read(&b, 0).unwrap();
    assert_eq!(pl2, pl);
    // a decoded children list re-encodes to the very same bytes
    let mut b2: Vec<u8> = Vec::new();
    pl2.write(&mut b2);
    assert_eq!(b2, b);

    let g2 = GetChildren2Response {
        path_list: vec!["x".to_string()],
        stat: Stat::default(),
    };
    let mut b: Vec<u8> = Vec::new();
    g2.write(&mut b);
    let (g22, _) = GetChildren2Response::read(&b, 0).unwrap();
    assert_eq!(g22, g2);

    let ga = GetACLResponse { acl_list: ACL::world_acl(), stat: Stat::default() };
    let mut b: Vec<u8> = Vec::new();
    ga.write(&mut b);
    let (ga2, _) = GetACLResponse::read(&b, 0).unwrap();
    assert_eq!(ga2, ga);
    // a decoded ACL list re-encodes to the very same bytes
    let mut b2: Vec<u8> = Vec::new();
    ga2.write(&mut b2);
    assert_eq!(b2, b);

    let n = GetAllChildrenNumberResponse { total_number: 12 };
    let mut b: Vec<u8> = Vec::new();
    n.write(&mut b);
    let (n2, _) = GetAllChildrenNumberResponse::read(&b, 0).unwrap();
    assert_eq!(n2, n);

    let ev = WatcherEvent { event_type: 3, keep_state: 3, path: "/w".to_string() };
    let mut b: Vec<u8> = Vec::new();
    ev.write(&mut b);
    let (ev2, _) = WatcherEvent::read(&b, 0).unwrap();
    assert_eq!(ev2, ev);
}

#[test]
fn empty_lists_use_the_absent_marker() {
    let pl = PathListResponse { path_list: Vec::new() };
    let mut b: Vec<u8> = Vec::new();
    pl.write(&mut b);
    assert_eq!(b, vec![0xff, 0xff, 0xff, 0xff]);
    let (pl2, _) = PathListResponse::read(&b, 0).unwrap();
    assert!(pl2.path_list.is_empty());
}
