//! End-to-end scenarios: each request goes through the real framing,
//! is decoded as a server would, runs against the node-tree model, and
//! the modelled reply is decoded back through the client.

use buruma::client::{
    children_reply, create_reply, exists_reply, frame_packet, get_reply, stat_reply, Client,
};
use buruma::codec::read_i32;
use buruma::constants::{CreateMode, EventType, KeeperState};
use buruma::error::ZKError;
use buruma::req::{CreateRequest, DeleteRequest, PathAndWatchRequest, PathRequest, ReqPacket, RequestHeader, SetDataRequest, ACL};
use buruma::resp::CreateResponse;
use buruma::tree::NodeStore;
use buruma::watcher::WatchedEvent;

/// Strips the length prefix and the request header off a framed packet,
/// returning the header and the body's start.
fn open_frame(frame: &Vec<u8>) -> (RequestHeader, usize) {
    let (len, pos) = read_i32(frame, 0).unwrap();
    assert_eq!(len as usize, frame.len() - 4);
    let (h, body_at) = RequestHeader::read(frame, pos).unwrap();
    (h, body_at)
}

/// Runs a framed create against the store, as a server would, and hands
/// back the encoded reply body.
fn serve_create(store: &mut NodeStore, p: &ReqPacket) -> Result<Vec<u8>, buruma::error::ServerErrorCode> {
    let frame = frame_packet(p);
    let (h, body_at) = open_frame(&frame);
    assert!(h.rtype == 1 || h.rtype == 19);
    let (req, _) = CreateRequest::read(&frame, body_at).unwrap();
    let ephemeral = req.flags == 1 || req.flags == 3;
    let path = store.create(req.path, req.data.unwrap_or_default(), ephemeral)?;
    let mut out: Vec<u8> = Vec::new();
    CreateResponse { path }.write(&mut out);
    Ok(out)
}

fn serve_set(store: &mut NodeStore, p: &ReqPacket) -> Result<Vec<u8>, buruma::error::ServerErrorCode> {
    let frame = frame_packet(p);
    let (h, body_at) = open_frame(&frame);
    assert_eq!(h.rtype, 5);
    let (req, _) = SetDataRequest::read(&frame, body_at).unwrap();
    let stat = store.set(&req.path, req.data)?;
    let mut out: Vec<u8> = Vec::new();
    stat.write(&mut out);
    Ok(out)
}

fn serve_get(store: &NodeStore, p: &ReqPacket) -> Result<Vec<u8>, buruma::error::ServerErrorCode> {
    let frame = frame_packet(p);
    let (h, body_at) = open_frame(&frame);
    assert_eq!(h.rtype, 4);
    let (req, _) = PathAndWatchRequest::read(&frame, body_at).unwrap();
    let (data, stat) = store.get(&req.path)?;
    let mut out: Vec<u8> = Vec::new();
    buruma::resp::GetDataResponse { data, stat }.write(&mut out);
    Ok(out)
}

fn serve_exists(store: &NodeStore, p: &ReqPacket) -> Result<Vec<u8>, buruma::error::ServerErrorCode> {
    let frame = frame_packet(p);
    let (h, body_at) = open_frame(&frame);
    assert_eq!(h.rtype, 3);
    let (req, _) = PathAndWatchRequest::read(&frame, body_at).unwrap();
    let stat = store.exists_node(&req.path)?;
    let mut out: Vec<u8> = Vec::new();
    stat.write(&mut out);
    Ok(out)
}

fn serve_delete(store: &mut NodeStore, p: &ReqPacket) -> Result<Vec<u8>, buruma::error::ServerErrorCode> {
    let frame = frame_packet(p);
    let (h, body_at) = open_frame(&frame);
    assert_eq!(h.rtype, 2);
    let (req, _) = DeleteRequest::read(&frame, body_at).unwrap();
    store.delete(&req.path)?;
    Ok(Vec::new())
}

/// The error a server reports comes back as the mapped public error.
fn as_outcome(r: Result<Vec<u8>, buruma::error::ServerErrorCode>) -> Result<Vec<u8>, ZKError> {
    r.map_err(|c| ZKError::ServerError(c, 0))
}

#[test]
fn create_set_get_delete_full_round() {
    let mut c = Client::new("127.0.0.1:2181", 5000).unwrap();
    let mut store = NodeStore::new();

    // create "/t" with one byte of data
    let p = c.create_op("/t", Some(b"v"), ACL::world_acl(), CreateMode::Persistent).unwrap();
    let reply = serve_create(&mut store, &p).unwrap();
    assert_eq!(create_reply(&reply).unwrap(), "/t");

    // exists sees it, with the data length in the stat
    let p = c.existsw_op("/t", None).unwrap();
    let outcome = as_outcome(serve_exists(&store, &p));
    let stat = exists_reply(outcome).unwrap().unwrap();
    assert_eq!(stat.data_length, 1);
    assert_eq!(stat.version, 0);

    // one set bumps the version to one
    let p = c.set_op("/t", b"vv", -1).unwrap();
    let reply = serve_set(&mut store, &p).unwrap();
    let stat = stat_reply(&reply).unwrap();
    assert_eq!(stat.version, 1);

    // a get returns exactly the bytes last written
    let p = c.getw_op("/t", None).unwrap();
    let reply = serve_get(&store, &p).unwrap();
    let (data, stat) = get_reply(&reply).unwrap();
    assert_eq!(data, b"vv".to_vec());
    assert_eq!(stat.data_length, 2);

    // delete succeeds, and exists then reports absent, not an error
    let p = c.delete_op("/t", -1).unwrap();
    assert!(serve_delete(&mut store, &p).is_ok());
    let p = c.existsw_op("/t", None).unwrap();
    let outcome = as_outcome(serve_exists(&store, &p));
    assert!(matches!(exists_reply(outcome), Ok(None)));
}

#[test]
fn create_then_get_returns_created_bytes() {
    let mut c = Client::new("127.0.0.1:2181", 5000).unwrap();
    let mut store = NodeStore::new();
    let p = c.create_op("/keep", Some(b"payload"), ACL::world_acl(), CreateMode::Persistent)
        .unwrap();
    serve_create(&mut store, &p).unwrap();
    let p = c.getw_op("/keep", None).unwrap();
    let (data, _) = get_reply(&serve_get(&store, &p).unwrap()).unwrap();
    assert_eq!(data, b"payload".to_vec());
}

#[test]
fn delete_then_exists_is_absent() {
    let mut c = Client::new("127.0.0.1:2181", 5000).unwrap();
    let mut store = NodeStore::new();
    let p = c.create_op("/gone", None, ACL::world_acl(), CreateMode::Persistent).unwrap();
    serve_create(&mut store, &p).unwrap();
    let p = c.delete_op("/gone", -1).unwrap();
    serve_delete(&mut store, &p).unwrap();
    let p = c.existsw_op("/gone", None).unwrap();
    let r = exists_reply(as_outcome(serve_exists(&store, &p)));
    assert!(matches!(r, Ok(None)));
}

#[test]
fn duplicate_create_reports_node_exists() {
    let mut c = Client::new("127.0.0.1:2181", 5000).unwrap();
    let mut store = NodeStore::new();
    let p = c.create_op("/d", None, ACL::world_acl(), CreateMode::Persistent).unwrap();
    serve_create(&mut store, &p).unwrap();
    let p = c.create_op("/d", None, ACL::world_acl(), CreateMode::Persistent).unwrap();
    assert_eq!(
        serve_create(&mut store, &p).unwrap_err(),
        buruma::error::ServerErrorCode::NodeExists
    );
}

#[test]
fn children_and_ephemerals_scenario() {
    let mut c = Client::new("127.0.0.1:2181", 5000).unwrap();
    let mut store = NodeStore::new();
    let p = c.create_op("/p", None, ACL::world_acl(), CreateMode::Persistent).unwrap();
    serve_create(&mut store, &p).unwrap();
    let p = c.create_op("/p/a", None, ACL::world_acl(), CreateMode::Ephemeral).unwrap();
    serve_create(&mut store, &p).unwrap();
    let p = c.create_op("/p/b", None, ACL::world_acl(), CreateMode::Ephemeral).unwrap();
    serve_create(&mut store, &p).unwrap();

    // children of /p are exactly {a, b}
    let mut names = store.children(&"/p".to_string()).unwrap();
    names.sort();
    assert_eq!(names, vec!["a".to_string(), "b".to_string()]);

    // a children reply carries them to the caller unchanged
    let mut out: Vec<u8> = Vec::new();
    buruma::resp::PathListResponse { path_list: names.clone() }.write(&mut out);
    let mut got = children_reply(&out).unwrap();
    got.sort();
    assert_eq!(got, names);

    // two ephemerals live under /p
    let eph = store.ephemerals(&"/p".to_string());
    assert_eq!(eph.len(), 2);
    assert!(eph.contains(&"/p/a".to_string()));
    assert!(eph.contains(&"/p/b".to_string()));
}

#[test]
fn chrooted_session_prefixes_wire_paths() {
    let mut c = Client::new("1.2.3.4:2181/svc", 5000).unwrap();
    let mut store = NodeStore::new();
    let p = c.create_op("/x", Some(b"z"), ACL::world_acl(), CreateMode::Persistent).unwrap();
    let reply = serve_create(&mut store, &p).unwrap();
    // the server saw and created the chrooted path
    assert_eq!(create_reply(&reply).unwrap(), "/svc/x");
    assert!(matches!(
        store.exists_node(&"/svc/x".to_string()),
        Ok(_)
    ));

    // the ephemerals prefix goes out chrooted like every other path
    let p = c.get_ephemerals_op("/x").unwrap();
    let frame = frame_packet(&p);
    let (h, body_at) = open_frame(&frame);
    assert_eq!(h.rtype, 103);
    let (req, _) = PathRequest::read(&frame, body_at).unwrap();
    assert_eq!(req.path, "/svc/x");
}

#[test]
fn data_watch_fires_once_on_set() {
    let mut c = Client::new("127.0.0.1:2181", 5000).unwrap();
    let mut store = NodeStore::new();
    let p = c.create_op("/w", Some(b"a"), ACL::world_acl(), CreateMode::Persistent).unwrap();
    serve_create(&mut store, &p).unwrap();

    // register a data watcher with handle 3 while reading
    let p = c.getw_op("/w", Some(3)).unwrap();
    serve_get(&store, &p).unwrap();

    // the first data change fires it, exactly once, with the event
    let p = c.set_op("/w", b"q", -1).unwrap();
    serve_set(&mut store, &p).unwrap();
    let ev = WatchedEvent {
        keep_state: KeeperState::SyncConnected,
        event_type: EventType::NodeDataChanged,
        path: "/w".to_string(),
    };
    assert_eq!(c.find_triggered(&ev), vec![3]);

    // a second data change no longer fires it
    let p = c.set_op("/w", b"r", -1).unwrap();
    serve_set(&mut store, &p).unwrap();
    assert!(c.find_triggered(&ev).is_empty());
}
