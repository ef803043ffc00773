//! The session controller: session state, XID assignment, chroot
//! handling, the construction of each operation's framed request, the
//! interpretation of each reply, and the keep-alive decision.
//!
//! Everything here is a pure computation from state and plain values;
//! the embedding application owns the socket, feeds replies in, and
//! writes framed packets out.

use vstd::prelude::*;
use vstd::string::{StrSliceExecFns, StringExecFns};

use crate::codec::{enc_i32, WIRE_LEN_MAX};
use crate::constants::{
    AddWatchMode, CreateMode, OpCode, States, WatcherType, IGNORE_VERSION, PING_XID,
};
use crate::error::{ServerErrorCode, ZKError};
use crate::hosts::{chroot_of, connect_ok, endpoints_of, HostProvider};
use crate::paths::{path_valid, validate_path};
use crate::req::{
    acls_v, str_ok, AddWatchRequest, CheckWatchesRequest, ConnectRequest, ConnectRequestV,
    CreateRequest, CreateRequestV, DeleteRequest, DeleteRequestV, PathAndWatchRequest,
    PathAndWatchRequestV, PathRequest, PathRequestV, ReqPacket, RequestHeader, SetACLRequest,
    SetACLRequestV, SetDataRequest, SetDataRequestV, ACL,
};
use crate::resp::{
    ConnectResponse, ConnectResponseV, CreateResponse, CreateResponseV, GetACLResponse,
    GetACLResponseV, GetAllChildrenNumberResponse, GetChildren2Response, GetChildren2ResponseV,
    GetDataResponse, GetDataResponseV, PathListResponse, PathListResponseV, ReplyHeader, Stat,
    WatcherEvent, WatcherEventV,
};
use crate::watcher::{reg, remove_path, WatchedEvent, WatcherManager};
use crate::constants::{EventType, KeeperState};
use crate::req::{AddWatchRequestV, CheckWatchesRequestV};

verus! {

/// A user path normalized to a single leading slash, with the chroot
/// prepended unless the chroot is the root itself.
pub open spec fn full_path(chroot: Seq<char>, p: Seq<char>) -> Seq<char> {
    let n = if p.len() == 0 || p[0] != '/' {
        seq!['/'] + p
    } else {
        p
    };
    if chroot == seq!['/'] {
        n
    } else {
        chroot + n
    }
}

/// One handed-out XID: the counter's old value, with the counter moved
/// past it.
pub open spec fn xid_emit(pre: int, post: int, x: int) -> bool {
    x == pre && post == pre + 1
}

/// What the keep-alive task should do next.
#[derive(Debug, Clone, Copy, PartialEq, Eq, Structural)]
pub enum PingAction {
    SendPing,
    Sleep(i64),
}

/// The keep-alive rule: ping when idle for half the read timeout or for
/// more than ten seconds, else sleep out the remainder.
pub fn keep_alive_decision(idle: i64, read_timeout: i64) -> (r: PingAction)
    requires
        0 <= read_timeout,
        -0x4000_0000_0000_0000 < idle < 0x4000_0000_0000_0000,
        read_timeout < 0x4000_0000_0000_0000,
    ensures
        r == if idle >= read_timeout / 2 || idle > 10000 {
            PingAction::SendPing
        } else {
            PingAction::Sleep((read_timeout - idle) as i64)
        },
{
    if idle >= read_timeout / 2 || idle > 10000 {
        PingAction::SendPing
    } else {
        PingAction::Sleep(read_timeout - idle)
    }
}

/// The read timeout: two thirds of the negotiated session timeout.
pub fn read_timeout_of(session_timeout: u32) -> (r: i64)
    ensures
        r == session_timeout / 3 * 2,
        0 <= r < 0x1_0000_0000,
{
    (session_timeout / 3 * 2) as i64
}

/// The session controller. It owns the session's identity and state,
/// the chroot, the XID counter, the endpoint rotation, and the watcher
/// registry; the socket stays outside.
#[derive(Debug)]
pub struct Client {
    host_provider: HostProvider,
    session_timeout: u32,
    state: States,
    session_id: i64,
    password: Vec<u8>,
    chroot: String,
    watcher_manager: WatcherManager,
    xid: i32,
}

impl Client {
    pub closed spec fn spec_state(self) -> States {
        self.state
    }

    pub closed spec fn spec_session_id(self) -> i64 {
        self.session_id
    }

    pub closed spec fn spec_session_timeout(self) -> u32 {
        self.session_timeout
    }

    pub closed spec fn spec_password(self) -> Seq<u8> {
        self.password@
    }

    pub closed spec fn spec_chroot(self) -> Seq<char> {
        self.chroot@
    }

    pub closed spec fn spec_xid(self) -> int {
        self.xid as int
    }

    pub closed spec fn spec_hosts(self) -> HostProvider {
        self.host_provider
    }

    pub closed spec fn spec_watchers(self) -> WatcherManager {
        self.watcher_manager
    }

    /// A session is well formed when its endpoints and registry are, its
    /// chroot starts with a slash, and its XID counter has not touched
    /// the reserved values: handed-out XIDs are all at least one.
    pub closed spec fn wf(self) -> bool {
        &&& self.host_provider.wf()
        &&& self.watcher_manager.wf()
        &&& self.xid >= 1
        &&& self.chroot@.len() >= 1
        &&& self.chroot@[0] == '/'
    }

    /// Everything except the XID counter is the same.
    pub open spec fn same_but_xid(pre: Client, post: Client) -> bool {
        &&& post.spec_state() == pre.spec_state()
        &&& post.spec_session_id() == pre.spec_session_id()
        &&& post.spec_session_timeout() == pre.spec_session_timeout()
        &&& post.spec_password() == pre.spec_password()
        &&& post.spec_chroot() == pre.spec_chroot()
        &&& post.spec_hosts() == pre.spec_hosts()
        &&& post.spec_watchers() == pre.spec_watchers()
    }

    /// Everything except the XID counter and the watcher registry is the
    /// same.
    pub open spec fn same_but_xid_watchers(pre: Client, post: Client) -> bool {
        &&& post.spec_state() == pre.spec_state()
        &&& post.spec_session_id() == pre.spec_session_id()
        &&& post.spec_session_timeout() == pre.spec_session_timeout()
        &&& post.spec_password() == pre.spec_password()
        &&& post.spec_chroot() == pre.spec_chroot()
        &&& post.spec_hosts() == pre.spec_hosts()
    }

    /// A fresh, not yet connected session for a validated connect
    /// string.
    pub fn new(connect_string: &str, session_timeout: u32) -> (r: Result<Client, ZKError>)
        ensures
            r is Ok <==> connect_ok(connect_string@),
            r matches Ok(c) ==> {
                &&& c.wf()
                &&& c.spec_state() == States::NotConnected
                &&& c.spec_session_id() == 0
                &&& c.spec_session_timeout() == session_timeout
                &&& c.spec_chroot() == chroot_of(connect_string@)
                &&& c.spec_hosts().servers() == endpoints_of(connect_string@)
                &&& c.spec_hosts().index() == 0
                &&& c.spec_xid() == 1
                &&& c.spec_watchers().data().len() == 0
                &&& c.spec_watchers().exists_w().len() == 0
                &&& c.spec_watchers().child().len() == 0
                &&& c.spec_watchers().persistent().len() == 0
                &&& c.spec_watchers().persistent_recursive().len() == 0
            },
            r matches Err(e) ==> e is ServerInfoError,
    {
        let (host_provider, chroot) = match HostProvider::new(connect_string) {
            Ok(x) => x,
            Err(e) => {
                return Err(e);
            },
        };
        Ok(
            Client {
                host_provider,
                session_timeout,
                state: States::NotConnected,
                session_id: 0,
                password: Vec::new(),
                chroot,
                watcher_manager: WatcherManager::new(false),
                xid: 1,
            },
        )
    }

    /// The next endpoint to try, rotating round the list.
    pub fn pick_host(&mut self) -> (r: String)
        requires
            old(self).wf(),
        ensures
            final(self).wf(),
            r@ == old(self).spec_hosts().servers()[old(self).spec_hosts().index()],
            final(self).spec_hosts().servers() == old(self).spec_hosts().servers(),
            final(self).spec_hosts().index() == if old(self).spec_hosts().index() + 1 == old(
                self,
            ).spec_hosts().servers().len() {
                0int
            } else {
                old(self).spec_hosts().index() + 1
            },
            final(self).spec_state() == old(self).spec_state(),
            final(self).spec_session_id() == old(self).spec_session_id(),
            final(self).spec_session_timeout() == old(self).spec_session_timeout(),
            final(self).spec_password() == old(self).spec_password(),
            final(self).spec_chroot() == old(self).spec_chroot(),
            final(self).spec_watchers() == old(self).spec_watchers(),
            final(self).spec_xid() == old(self).spec_xid(),
    {
        self.host_provider.pick_host()
    }

    /// The current session state.
    pub fn state(&self) -> (r: States)
        ensures
            r == self.spec_state(),
    {
        self.state
    }

    /// The server-assigned session id, zero before the handshake.
    pub fn session_id(&self) -> (r: i64)
        ensures
            r == self.spec_session_id(),
    {
        self.session_id
    }

    /// The session timeout in milliseconds.
    pub fn session_timeout(&self) -> (r: u32)
        ensures
            r == self.spec_session_timeout(),
    {
        self.session_timeout
    }

    /// The next XID the session will hand out.
    pub fn xid_counter(&self) -> (r: i32)
        ensures
            r as int == self.spec_xid(),
    {
        self.xid
    }

    /// The session password the server assigned, for an application
    /// that wants to re-present it.
    pub fn password(&self) -> (r: &Vec<u8>)
        ensures
            r@ == self.spec_password(),
    {
        &self.password
    }

    /// Marks the session closed; every later submission is refused.
    pub fn mark_closed(&mut self)
        ensures
            final(self).spec_state() == States::Closed,
            final(self).spec_session_id() == old(self).spec_session_id(),
            final(self).spec_session_timeout() == old(self).spec_session_timeout(),
            final(self).spec_password() == old(self).spec_password(),
            final(self).spec_chroot() == old(self).spec_chroot(),
            final(self).spec_hosts() == old(self).spec_hosts(),
            final(self).spec_watchers() == old(self).spec_watchers(),
            final(self).spec_xid() == old(self).spec_xid(),
            old(self).wf() ==> final(self).wf(),
    {
        self.state = States::Closed;
    }

    /// Moves a session about to handshake into the connecting state.
    pub fn start_connecting(&mut self)
        ensures
            final(self).spec_state() == States::Connecting,
            final(self).spec_session_id() == old(self).spec_session_id(),
            final(self).spec_session_timeout() == old(self).spec_session_timeout(),
            final(self).spec_password() == old(self).spec_password(),
            final(self).spec_chroot() == old(self).spec_chroot(),
            final(self).spec_hosts() == old(self).spec_hosts(),
            final(self).spec_watchers() == old(self).spec_watchers(),
            final(self).spec_xid() == old(self).spec_xid(),
            old(self).wf() ==> final(self).wf(),
    {
        self.state = States::Connecting;
    }

    /// Refuses submissions unless the session is connected.
    pub fn ensure_connected(&self) -> (r: Result<(), ZKError>)
        ensures
            r is Ok <==> (self.spec_state() == States::Connected || self.spec_state()
                == States::ConnectedReadOnly),
            r matches Err(e) ==> e is NetworkError,
    {
        if self.state.is_connected() {
            Ok(())
        } else {
            Err(ZKError::NetworkError(String::from_str("The session is not connected")))
        }
    }

    /// Hands out the next caller XID. XIDs start at one and strictly
    /// increase; the reserved negative values can never be handed out.
    fn next_xid(&mut self) -> (r: i32)
        requires
            old(self).wf(),
            old(self).spec_xid() < i32::MAX,
        ensures
            final(self).wf(),
            Client::same_but_xid(*old(self), *final(self)),
            xid_emit(old(self).spec_xid(), final(self).spec_xid(), r as int),
            r >= 1,
    {
        let x = self.xid;
        self.xid = self.xid + 1;
        x
    }

    /// The chroot-adjusted form of a user path.
    pub fn get_path(&self, path: &str) -> (r: String)
        ensures
            r@ == full_path(self.spec_chroot(), path@),
    {
        let normalized: String = if path.unicode_len() == 0 || path.get_char(0) != '/' {
            let n = String::from_str("/").concat(path);
            proof {
                reveal_strlit("/");
                assert("/"@ =~= seq!['/']);
            }
            n
        } else {
            path.to_owned()
        };
        let chroot_is_root = self.chroot.as_str().unicode_len() == 1 && self.chroot.as_str()
            .get_char(0) == '/';
        proof {
            if chroot_is_root {
                assert(self.chroot@ =~= seq!['/']);
            } else {
                if self.chroot@ == seq!['/'] {
                    assert(self.chroot@.len() == 1);
                    assert(self.chroot@[0] == '/');
                }
            }
        }
        if chroot_is_root {
            normalized
        } else {
            self.chroot.clone().concat(normalized.as_str())
        }
    }

    /// The serialized handshake record of a fresh session.
    pub fn create_connect_request(&self) -> (r: Vec<u8>)
        ensures
            r@ == (ConnectRequestV {
                protocol_version: 0,
                last_zxid_seen: 0,
                time_out: self.spec_session_timeout(),
                session_id: 0,
                passwd: None,
                read_only: false,
            }).enc(),
    {
        let req = ConnectRequest::new(self.session_timeout);
        let mut buf: Vec<u8> = Vec::new();
        req.write(&mut buf);
        proof {
            assert(buf@ =~= req@.enc());
        }
        buf
    }

    /// Reads the handshake response and settles the session: the id and
    /// password are stored and the session is connected, read-only if
    /// the server said so. A rejected session (id zero) has expired; an
    /// unreadable response is a protocol error; either failure closes
    /// the session.
    pub fn handle_connect_response(&mut self, buf: &Vec<u8>) -> (r: Result<(), ZKError>)
        ensures
            final(self).spec_chroot() == old(self).spec_chroot(),
            final(self).spec_hosts() == old(self).spec_hosts(),
            final(self).spec_watchers() == old(self).spec_watchers(),
            final(self).spec_xid() == old(self).spec_xid(),
            old(self).wf() ==> final(self).wf(),
            (match ConnectResponseV::rd(buf@, 0) {
                Some((v, _)) => {
                    if v.session_id == 0 {
                        &&& r matches Err(e) && e matches ZKError::ServerError(c, _) && c
                            == ServerErrorCode::SessionExpired
                        &&& final(self).spec_state() == States::Closed
                    } else {
                        &&& r is Ok
                        &&& final(self).spec_session_id() == v.session_id
                        &&& final(self).spec_password() == v.password
                        &&& final(self).spec_state() == if v.read_only {
                            States::ConnectedReadOnly
                        } else {
                            States::Connected
                        }
                        &&& final(self).spec_session_timeout() == if v.time_out >= 0 {
                            v.time_out as u32
                        } else {
                            old(self).spec_session_timeout()
                        }
                    }
                },
                None => {
                    &&& r matches Err(e) && e is ProtocolParseError
                    &&& final(self).spec_state() == States::Closed
                },
            }),
    {
        match ConnectResponse::read(buf, 0) {
            Some((resp, _)) => {
                if resp.session_id == 0 {
                    self.state = States::Closed;
                    Err(ZKError::ServerError(ServerErrorCode::SessionExpired, -112))
                } else {
                    self.session_id = resp.session_id;
                    self.password = resp.password;
                    if resp.time_out >= 0 {
                        self.session_timeout = resp.time_out as u32;
                    }
                    self.state = if resp.read_only {
                        States::ConnectedReadOnly
                    } else {
                        States::Connected
                    };
                    Ok(())
                }
            },
            None => {
                self.state = States::Closed;
                Err(ZKError::ProtocolParseError)
            },
        }
    }
}

/// The serialized payload of a queued packet: the header if any, then
/// the body if any.
pub open spec fn packet_payload(p: ReqPacket) -> Seq<u8> {
    (match p.rh {
        Some(h) => h.enc(),
        None => Seq::<u8>::empty(),
    }) + (match p.req {
        Some(ref b) => b@,
        None => Seq::<u8>::empty(),
    })
}

/// An outgoing packet carrying the given XID, opcode, and body.
pub open spec fn op_packet(p: ReqPacket, x: int, opcode: i32, body: Seq<u8>) -> bool {
    &&& p.ptype == 0
    &&& p.rh matches Some(h) && h.xid == x && h.rtype == opcode
    &&& p.req matches Some(b) && b@ == body
}

/// Length-prefixes a serialized record, as every framed record on the
/// wire is.
pub fn wrap_len_buf(buf: Vec<u8>) -> (r: Vec<u8>)
    requires
        buf@.len() <= WIRE_LEN_MAX,
    ensures
        r@ == enc_i32(buf@.len() as i32) + buf@,
{
    let mut wrap_buf: Vec<u8> = Vec::new();
    crate::codec::write_i32(&mut wrap_buf, buf.len() as i32);
    let mut body = buf;
    wrap_buf.append(&mut body);
    proof {
        assert(wrap_buf@ =~= enc_i32(buf@.len() as i32) + buf@);
    }
    wrap_buf
}

/// The framed bytes the sender writes for one packet: the payload's
/// length, the header, the body.
pub fn frame_packet(p: &ReqPacket) -> (r: Vec<u8>)
    requires
        packet_payload(*p).len() <= WIRE_LEN_MAX,
    ensures
        r@ == enc_i32(packet_payload(*p).len() as i32) + packet_payload(*p),
{
    let mut buf: Vec<u8> = Vec::new();
    match &p.rh {
        Some(h) => h.write(&mut buf),
        None => {},
    }
    match &p.req {
        Some(b) => {
            let mut m: usize = 0;
            let ghost mid = buf@;
            while m < b.len()
                invariant
                    m <= b@.len(),
                    buf@ == mid + b@.take(m as int),
                decreases b@.len() - m,
            {
                buf.push(b[m]);
                proof {
                    assert(buf@ =~= mid + b@.take(m as int + 1));
                }
                m += 1;
            }
            proof {
                assert(b@.take(b@.len() as int) =~= b@);
            }
        },
        None => {},
    }
    proof {
        assert(buf@ =~= packet_payload(*p));
    }
    wrap_len_buf(buf)
}

impl Client {
    /// The heartbeat packet: the reserved ping XID, the ping opcode, no
    /// body.
    pub fn create_ping_request(&self) -> (r: ReqPacket)
        ensures
            r.ptype == 0,
            r.rh matches Some(h) && h.xid == PING_XID && h.rtype == OpCode::Ping.spec_code(),
            r.req is None,
    {
        ReqPacket::new(Some(RequestHeader::new_full(PING_XID, OpCode::Ping)), None)
    }

    /// The create operation: validates the path, chroots it, and frames
    /// a create request; container mode selects the container opcode.
    pub fn create_op(
        &mut self,
        path: &str,
        data: Option<&[u8]>,
        acl_list: Vec<ACL>,
        create_mode: CreateMode,
    ) -> (r: Result<ReqPacket, ZKError>)
        requires
            old(self).wf(),
            old(self).spec_xid() < i32::MAX,
            str_ok(full_path(old(self).spec_chroot(), path@)),
            data matches Some(d) ==> d@.len() <= WIRE_LEN_MAX,
            acl_list@.len() <= WIRE_LEN_MAX,
            forall|k: int| 0 <= k < acl_list@.len() ==> (#[trigger] acl_list@[k])@.wire_ok(),
        ensures
            final(self).wf(),
            r is Ok <==> path_valid(path@),
            !path_valid(path@) ==> *final(self) == *old(self) && (r matches Err(e) && e
                is PathError),
            r matches Ok(p) ==> {
                &&& op_packet(
                    p,
                    old(self).spec_xid(),
                    (if create_mode is Container {
                        OpCode::CreateContainer
                    } else {
                        OpCode::Create
                    }).spec_code(),
                    (CreateRequestV {
                        path: full_path(old(self).spec_chroot(), path@),
                        data: match data {
                            Some(d) => Some(d@),
                            None => None::<Seq<u8>>,
                        },
                        acl: acls_v(acl_list@),
                        flags: create_mode.spec_code(),
                    }).enc(),
                )
                &&& xid_emit(old(self).spec_xid(), final(self).spec_xid(), old(self).spec_xid())
                &&& Client::same_but_xid(*old(self), *final(self))
            },
    {
        if let Err(e) = validate_path(path) {
            return Err(e);
        }
        let full = self.get_path(path);
        let rtype = if create_mode.is_container() {
            OpCode::CreateContainer
        } else {
            OpCode::Create
        };
        let request = CreateRequest::new_full(full, data, acl_list, create_mode);
        proof {
            assert forall|k: int| 0 <= k < request@.acl.len() implies (
            #[trigger] request@.acl[k]).wire_ok() by {
                assert(request@.acl[k] == acl_list@[k]@);
            }
        }
        let mut buf: Vec<u8> = Vec::new();
        request.write(&mut buf);
        proof {
            assert(buf@ =~= request@.enc());
        }
        let x = self.next_xid();
        let rh = RequestHeader::new_full(x, rtype);
        Ok(ReqPacket::new(Some(rh), Some(buf)))
    }

    /// The delete operation: a conditional delete of the chrooted path.
    pub fn delete_op(&mut self, path: &str, version: i32) -> (r: Result<ReqPacket, ZKError>)
        requires
            old(self).wf(),
            old(self).spec_xid() < i32::MAX,
            str_ok(full_path(old(self).spec_chroot(), path@)),
        ensures
            final(self).wf(),
            r is Ok <==> path_valid(path@),
            !path_valid(path@) ==> *final(self) == *old(self) && (r matches Err(e) && e
                is PathError),
            r matches Ok(p) ==> {
                &&& op_packet(
                    p,
                    old(self).spec_xid(),
                    OpCode::Delete.spec_code(),
                    (DeleteRequestV {
                        path: full_path(old(self).spec_chroot(), path@),
                        version,
                    }).enc(),
                )
                &&& xid_emit(old(self).spec_xid(), final(self).spec_xid(), old(self).spec_xid())
                &&& Client::same_but_xid(*old(self), *final(self))
            },
    {
        if let Err(e) = validate_path(path) {
            return Err(e);
        }
        let full = self.get_path(path);
        let request = DeleteRequest::new(full, version);
        let mut buf: Vec<u8> = Vec::new();
        request.write(&mut buf);
        proof {
            assert(buf@ =~= request@.enc());
        }
        let x = self.next_xid();
        let rh = RequestHeader::new_full(x, OpCode::Delete);
        Ok(ReqPacket::new(Some(rh), Some(buf)))
    }

    /// The set-data operation: a conditional write of the chrooted
    /// path's bytes.
    pub fn set_op(&mut self, path: &str, data: &[u8], version: i32) -> (r: Result<
        ReqPacket,
        ZKError,
    >)
        requires
            old(self).wf(),
            old(self).spec_xid() < i32::MAX,
            str_ok(full_path(old(self).spec_chroot(), path@)),
            data@.len() <= WIRE_LEN_MAX,
        ensures
            final(self).wf(),
            r is Ok <==> path_valid(path@),
            !path_valid(path@) ==> *final(self) == *old(self) && (r matches Err(e) && e
                is PathError),
            r matches Ok(p) ==> {
                &&& op_packet(
                    p,
                    old(self).spec_xid(),
                    OpCode::SetData.spec_code(),
                    (SetDataRequestV {
                        path: full_path(old(self).spec_chroot(), path@),
                        data: data@,
                        version,
                    }).enc(),
                )
                &&& xid_emit(old(self).spec_xid(), final(self).spec_xid(), old(self).spec_xid())
                &&& Client::same_but_xid(*old(self), *final(self))
            },
    {
        if let Err(e) = validate_path(path) {
            return Err(e);
        }
        let full = self.get_path(path);
        let request = SetDataRequest::new(full, data, version);
        let mut buf: Vec<u8> = Vec::new();
        request.write(&mut buf);
        proof {
            assert(buf@ =~= request@.enc());
        }
        let x = self.next_xid();
        let rh = RequestHeader::new_full(x, OpCode::SetData);
        Ok(ReqPacket::new(Some(rh), Some(buf)))
    }

    /// The get-data operation; a watcher handle, when given, is
    /// registered as a one-shot data watcher on the chrooted path.
    pub fn getw_op(&mut self, path: &str, watcher_id: Option<u64>) -> (r: Result<
        ReqPacket,
        ZKError,
    >)
        requires
            old(self).wf(),
            old(self).spec_xid() < i32::MAX,
            str_ok(full_path(old(self).spec_chroot(), path@)),
        ensures
            final(self).wf(),
            r is Ok <==> path_valid(path@),
            !path_valid(path@) ==> *final(self) == *old(self) && (r matches Err(e) && e
                is PathError),
            r matches Ok(p) ==> {
                let fp = full_path(old(self).spec_chroot(), path@);
                &&& op_packet(
                    p,
                    old(self).spec_xid(),
                    OpCode::GetData.spec_code(),
                    (PathAndWatchRequestV { path: fp, watch: watcher_id is Some }).enc(),
                )
                &&& xid_emit(old(self).spec_xid(), final(self).spec_xid(), old(self).spec_xid())
                &&& Client::same_but_xid_watchers(*old(self), *final(self))
                &&& (match watcher_id {
                    Some(id) => {
                        &&& final(self).spec_watchers().data() == reg(
                            old(self).spec_watchers().data(),
                            fp,
                            id,
                        )
                        &&& final(self).spec_watchers().exists_w() == old(
                            self,
                        ).spec_watchers().exists_w()
                        &&& final(self).spec_watchers().child() == old(
                            self,
                        ).spec_watchers().child()
                        &&& final(self).spec_watchers().persistent() == old(
                            self,
                        ).spec_watchers().persistent()
                        &&& final(self).spec_watchers().persistent_recursive() == old(
                            self,
                        ).spec_watchers().persistent_recursive()
                        &&& final(self).spec_watchers().auto_reset_disabled() == old(
                            self,
                        ).spec_watchers().auto_reset_disabled()
                    },
                    None => final(self).spec_watchers() == old(self).spec_watchers(),
                })
            },
    {
        if let Err(e) = validate_path(path) {
            return Err(e);
        }
        let full = self.get_path(path);
        let watch = match watcher_id {
            Some(id) => {
                let _ = self.watcher_manager.register_data_watcher(full.clone(), id);
                true
            },
            None => false,
        };
        let request = PathAndWatchRequest::new(full, watch);
        let mut buf: Vec<u8> = Vec::new();
        request.write(&mut buf);
        proof {
            assert(buf@ =~= request@.enc());
        }
        let x = self.next_xid();
        let rh = RequestHeader::new_full(x, OpCode::GetData);
        Ok(ReqPacket::new(Some(rh), Some(buf)))
    }

    /// The exists operation; a watcher handle, when given, is registered
    /// as a one-shot exists watcher on the chrooted path.
    pub fn existsw_op(&mut self, path: &str, watcher_id: Option<u64>) -> (r: Result<
        ReqPacket,
        ZKError,
    >)
        requires
            old(self).wf(),
            old(self).spec_xid() < i32::MAX,
            str_ok(full_path(old(self).spec_chroot(), path@)),
        ensures
            final(self).wf(),
            r is Ok <==> path_valid(path@),
            !path_valid(path@) ==> *final(self) == *old(self) && (r matches Err(e) && e
                is PathError),
            r matches Ok(p) ==> {
                let fp = full_path(old(self).spec_chroot(), path@);
                &&& op_packet(
                    p,
                    old(self).spec_xid(),
                    OpCode::Exists.spec_code(),
                    (PathAndWatchRequestV { path: fp, watch: watcher_id is Some }).enc(),
                )
                &&& xid_emit(old(self).spec_xid(), final(self).spec_xid(), old(self).spec_xid())
                &&& Client::same_but_xid_watchers(*old(self), *final(self))
                &&& (match watcher_id {
                    Some(id) => {
                        &&& final(self).spec_watchers().exists_w() == reg(
                            old(self).spec_watchers().exists_w(),
                            fp,
                            id,
                        )
                        &&& final(self).spec_watchers().data() == old(self).spec_watchers().data()
                        &&& final(self).spec_watchers().child() == old(
                            self,
                        ).spec_watchers().child()
                        &&& final(self).spec_watchers().persistent() == old(
                            self,
                        ).spec_watchers().persistent()
                        &&& final(self).spec_watchers().persistent_recursive() == old(
                            self,
                        ).spec_watchers().persistent_recursive()
                        &&& final(self).spec_watchers().auto_reset_disabled() == old(
                            self,
                        ).spec_watchers().auto_reset_disabled()
                    },
                    None => final(self).spec_watchers() == old(self).spec_watchers(),
                })
            },
    {
        if let Err(e) = validate_path(path) {
            return Err(e);
        }
        let full = self.get_path(path);
        let watch = match watcher_id {
            Some(id) => {
                let _ = self.watcher_manager.register_exists_watcher(full.clone(), id);
                true
            },
            None => false,
        };
        let request = PathAndWatchRequest::new(full, watch);
        let mut buf: Vec<u8> = Vec::new();
        request.write(&mut buf);
        proof {
            assert(buf@ =~= request@.enc());
        }
        let x = self.next_xid();
        let rh = RequestHeader::new_full(x, OpCode::Exists);
        Ok(ReqPacket::new(Some(rh), Some(buf)))
    }

    /// A children operation; a watcher handle, when given, is registered
    /// as a one-shot child watcher. `with_stat` selects the variant
    /// whose reply also carries the parent's stat.
    pub fn childrenw_op(&mut self, path: &str, watcher_id: Option<u64>, with_stat: bool) -> (r:
        Result<ReqPacket, ZKError>)
        requires
            old(self).wf(),
            old(self).spec_xid() < i32::MAX,
            str_ok(full_path(old(self).spec_chroot(), path@)),
        ensures
            final(self).wf(),
            r is Ok <==> path_valid(path@),
            !path_valid(path@) ==> *final(self) == *old(self) && (r matches Err(e) && e
                is PathError),
            r matches Ok(p) ==> {
                let fp = full_path(old(self).spec_chroot(), path@);
                &&& op_packet(
                    p,
                    old(self).spec_xid(),
                    (if with_stat {
                        OpCode::GetChildren2
                    } else {
                        OpCode::GetChildren
                    }).spec_code(),
                    (PathAndWatchRequestV { path: fp, watch: watcher_id is Some }).enc(),
                )
                &&& xid_emit(old(self).spec_xid(), final(self).spec_xid(), old(self).spec_xid())
                &&& Client::same_but_xid_watchers(*old(self), *final(self))
                &&& (match watcher_id {
                    Some(id) => {
                        &&& final(self).spec_watchers().child() == reg(
                            old(self).spec_watchers().child(),
                            fp,
                            id,
                        )
                        &&& final(self).spec_watchers().data() == old(self).spec_watchers().data()
                        &&& final(self).spec_watchers().exists_w() == old(
                            self,
                        ).spec_watchers().exists_w()
                        &&& final(self).spec_watchers().persistent() == old(
                            self,
                        ).spec_watchers().persistent()
                        &&& final(self).spec_watchers().persistent_recursive() == old(
                            self,
                        ).spec_watchers().persistent_recursive()
                        &&& final(self).spec_watchers().auto_reset_disabled() == old(
                            self,
                        ).spec_watchers().auto_reset_disabled()
                    },
                    None => final(self).spec_watchers() == old(self).spec_watchers(),
                })
            },
    {
        if let Err(e) = validate_path(path) {
            return Err(e);
        }
        let full = self.get_path(path);
        let watch = match watcher_id {
            Some(id) => {
                let _ = self.watcher_manager.register_child_watcher(full.clone(), id);
                true
            },
            None => false,
        };
        let request = PathAndWatchRequest::new(full, watch);
        let mut buf: Vec<u8> = Vec::new();
        request.write(&mut buf);
        proof {
            assert(buf@ =~= request@.enc());
        }
        let x = self.next_xid();
        let rh = RequestHeader::new_full(
            x,
            if with_stat {
                OpCode::GetChildren2
            } else {
                OpCode::GetChildren
            },
        );
        Ok(ReqPacket::new(Some(rh), Some(buf)))
    }

    /// The children-count operation on the chrooted path.
    pub fn children_count_op(&mut self, path: &str) -> (r: Result<ReqPacket, ZKError>)
        requires
            old(self).wf(),
            old(self).spec_xid() < i32::MAX,
            str_ok(full_path(old(self).spec_chroot(), path@)),
        ensures
            final(self).wf(),
            r is Ok <==> path_valid(path@),
            !path_valid(path@) ==> *final(self) == *old(self) && (r matches Err(e) && e
                is PathError),
            r matches Ok(p) ==> {
                &&& op_packet(
                    p,
                    old(self).spec_xid(),
                    OpCode::GetAllChildrenNumber.spec_code(),
                    (PathRequestV { path: full_path(old(self).spec_chroot(), path@) }).enc(),
                )
                &&& xid_emit(old(self).spec_xid(), final(self).spec_xid(), old(self).spec_xid())
                &&& Client::same_but_xid(*old(self), *final(self))
            },
    {
        if let Err(e) = validate_path(path) {
            return Err(e);
        }
        let full = self.get_path(path);
        let request = PathRequest::new(full);
        let mut buf: Vec<u8> = Vec::new();
        request.write(&mut buf);
        let x = self.next_xid();
        let rh = RequestHeader::new_full(x, OpCode::GetAllChildrenNumber);
        Ok(ReqPacket::new(Some(rh), Some(buf)))
    }

    /// The get-ephemerals operation on the chrooted prefix.
    pub fn get_ephemerals_op(&mut self, path: &str) -> (r: Result<ReqPacket, ZKError>)
        requires
            old(self).wf(),
            old(self).spec_xid() < i32::MAX,
            str_ok(full_path(old(self).spec_chroot(), path@)),
        ensures
            final(self).wf(),
            r is Ok <==> path_valid(path@),
            !path_valid(path@) ==> *final(self) == *old(self) && (r matches Err(e) && e
                is PathError),
            r matches Ok(p) ==> {
                &&& op_packet(
                    p,
                    old(self).spec_xid(),
                    OpCode::GetEphemerals.spec_code(),
                    (PathRequestV { path: full_path(old(self).spec_chroot(), path@) }).enc(),
                )
                &&& xid_emit(old(self).spec_xid(), final(self).spec_xid(), old(self).spec_xid())
                &&& Client::same_but_xid(*old(self), *final(self))
            },
    {
        if let Err(e) = validate_path(path) {
            return Err(e);
        }
        let full = self.get_path(path);
        let request = PathRequest::new(full);
        let mut buf: Vec<u8> = Vec::new();
        request.write(&mut buf);
        let x = self.next_xid();
        let rh = RequestHeader::new_full(x, OpCode::GetEphemerals);
        Ok(ReqPacket::new(Some(rh), Some(buf)))
    }

    /// The get-ACL operation on the chrooted path.
    pub fn get_acl_op(&mut self, path: &str) -> (r: Result<ReqPacket, ZKError>)
        requires
            old(self).wf(),
            old(self).spec_xid() < i32::MAX,
            str_ok(full_path(old(self).spec_chroot(), path@)),
        ensures
            final(self).wf(),
            r is Ok <==> path_valid(path@),
            !path_valid(path@) ==> *final(self) == *old(self) && (r matches Err(e) && e
                is PathError),
            r matches Ok(p) ==> {
                &&& op_packet(
                    p,
                    old(self).spec_xid(),
                    OpCode::GetACL.spec_code(),
                    (PathRequestV { path: full_path(old(self).spec_chroot(), path@) }).enc(),
                )
                &&& xid_emit(old(self).spec_xid(), final(self).spec_xid(), old(self).spec_xid())
                &&& Client::same_but_xid(*old(self), *final(self))
            },
    {
        if let Err(e) = validate_path(path) {
            return Err(e);
        }
        let full = self.get_path(path);
        let request = PathRequest::new(full);
        let mut buf: Vec<u8> = Vec::new();
        request.write(&mut buf);
        let x = self.next_xid();
        let rh = RequestHeader::new_full(x, OpCode::GetACL);
        Ok(ReqPacket::new(Some(rh), Some(buf)))
    }

    /// The set-ACL operation on the chrooted path.
    pub fn set_acl_op(&mut self, path: &str, acl_list: Vec<ACL>, version: i32) -> (r: Result<
        ReqPacket,
        ZKError,
    >)
        requires
            old(self).wf(),
            old(self).spec_xid() < i32::MAX,
            str_ok(full_path(old(self).spec_chroot(), path@)),
            acl_list@.len() <= WIRE_LEN_MAX,
            forall|k: int| 0 <= k < acl_list@.len() ==> (#[trigger] acl_list@[k])@.wire_ok(),
        ensures
            final(self).wf(),
            r is Ok <==> path_valid(path@),
            !path_valid(path@) ==> *final(self) == *old(self) && (r matches Err(e) && e
                is PathError),
            r matches Ok(p) ==> {
                &&& op_packet(
                    p,
                    old(self).spec_xid(),
                    OpCode::SetACL.spec_code(),
                    (SetACLRequestV {
                        path: full_path(old(self).spec_chroot(), path@),
                        acl_list: acls_v(acl_list@),
                        version,
                    }).enc(),
                )
                &&& xid_emit(old(self).spec_xid(), final(self).spec_xid(), old(self).spec_xid())
                &&& Client::same_but_xid(*old(self), *final(self))
            },
    {
        if let Err(e) = validate_path(path) {
            return Err(e);
        }
        let full = self.get_path(path);
        let request = SetACLRequest::new(full, acl_list, version);
        proof {
            assert forall|k: int| 0 <= k < request@.acl_list.len() implies (
            #[trigger] request@.acl_list[k]).wire_ok() by {
                assert(request@.acl_list[k] == acl_list@[k]@);
            }
        }
        let mut buf: Vec<u8> = Vec::new();
        request.write(&mut buf);
        proof {
            assert(buf@ =~= request@.enc());
        }
        let x = self.next_xid();
        let rh = RequestHeader::new_full(x, OpCode::SetACL);
        Ok(ReqPacket::new(Some(rh), Some(buf)))
    }

    /// The add-watch operation: registers the handle as a persistent
    /// watcher, recursive under the recursive mode, and frames the
    /// request.
    pub fn add_watch_op(&mut self, path: &str, watcher_id: u64, mode: AddWatchMode) -> (r: Result<
        ReqPacket,
        ZKError,
    >)
        requires
            old(self).wf(),
            old(self).spec_xid() < i32::MAX,
            str_ok(full_path(old(self).spec_chroot(), path@)),
        ensures
            final(self).wf(),
            r is Ok <==> path_valid(path@),
            !path_valid(path@) ==> *final(self) == *old(self) && (r matches Err(e) && e
                is PathError),
            r matches Ok(p) ==> {
                let fp = full_path(old(self).spec_chroot(), path@);
                &&& op_packet(
                    p,
                    old(self).spec_xid(),
                    OpCode::AddWatch.spec_code(),
                    (AddWatchRequestV { path: fp, mode: mode.spec_code() }).enc(),
                )
                &&& xid_emit(old(self).spec_xid(), final(self).spec_xid(), old(self).spec_xid())
                &&& Client::same_but_xid_watchers(*old(self), *final(self))
                &&& (if mode is PersistentRecursive {
                    final(self).spec_watchers().persistent_recursive() == reg(
                        old(self).spec_watchers().persistent_recursive(),
                        fp,
                        watcher_id,
                    ) && final(self).spec_watchers().persistent() == old(
                        self,
                    ).spec_watchers().persistent()
                } else {
                    final(self).spec_watchers().persistent() == reg(
                        old(self).spec_watchers().persistent(),
                        fp,
                        watcher_id,
                    ) && final(self).spec_watchers().persistent_recursive() == old(
                        self,
                    ).spec_watchers().persistent_recursive()
                })
                &&& final(self).spec_watchers().data() == old(self).spec_watchers().data()
                &&& final(self).spec_watchers().exists_w() == old(self).spec_watchers().exists_w()
                &&& final(self).spec_watchers().child() == old(self).spec_watchers().child()
                &&& final(self).spec_watchers().auto_reset_disabled() == old(
                    self,
                ).spec_watchers().auto_reset_disabled()
            },
    {
        if let Err(e) = validate_path(path) {
            return Err(e);
        }
        let full = self.get_path(path);
        let recursive = match mode {
            AddWatchMode::PersistentRecursive => true,
            AddWatchMode::Persistent => false,
        };
        let _ = self.watcher_manager.register_persistent_watcher(full.clone(), watcher_id, recursive);
        let request = AddWatchRequest::new(full, mode);
        let mut buf: Vec<u8> = Vec::new();
        request.write(&mut buf);
        proof {
            assert(buf@ =~= request@.enc());
        }
        let x = self.next_xid();
        let rh = RequestHeader::new_full(x, OpCode::AddWatch);
        Ok(ReqPacket::new(Some(rh), Some(buf)))
    }

    /// The remove-watches operation: frames the check-watches request
    /// the wire asks for and drops the matching local entries of the
    /// requested kind.
    pub fn remove_watches_op(&mut self, path: &str, watcher_type: WatcherType) -> (r: Result<
        ReqPacket,
        ZKError,
    >)
        requires
            old(self).wf(),
            old(self).spec_xid() < i32::MAX,
            str_ok(full_path(old(self).spec_chroot(), path@)),
        ensures
            final(self).wf(),
            r is Ok <==> path_valid(path@),
            !path_valid(path@) ==> *final(self) == *old(self) && (r matches Err(e) && e
                is PathError),
            r matches Ok(p) ==> {
                let fp = full_path(old(self).spec_chroot(), path@);
                &&& op_packet(
                    p,
                    old(self).spec_xid(),
                    OpCode::CheckWatches.spec_code(),
                    (CheckWatchesRequestV { path: fp, watcher_type: watcher_type.spec_code() }).enc(
                    ),
                )
                &&& xid_emit(old(self).spec_xid(), final(self).spec_xid(), old(self).spec_xid())
                &&& Client::same_but_xid_watchers(*old(self), *final(self))
                &&& final(self).spec_watchers().auto_reset_disabled() == old(
                    self,
                ).spec_watchers().auto_reset_disabled()
                &&& (match watcher_type {
                    WatcherType::Children => {
                        &&& final(self).spec_watchers().child() == remove_path(
                            old(self).spec_watchers().child(),
                            fp,
                        )
                        &&& final(self).spec_watchers().data() == old(self).spec_watchers().data()
                        &&& final(self).spec_watchers().exists_w() == old(
                            self,
                        ).spec_watchers().exists_w()
                        &&& final(self).spec_watchers().persistent() == old(
                            self,
                        ).spec_watchers().persistent()
                        &&& final(self).spec_watchers().persistent_recursive() == old(
                            self,
                        ).spec_watchers().persistent_recursive()
                    },
                    WatcherType::Data => {
                        &&& final(self).spec_watchers().data() == remove_path(
                            old(self).spec_watchers().data(),
                            fp,
                        )
                        &&& final(self).spec_watchers().exists_w() == remove_path(
                            old(self).spec_watchers().exists_w(),
                            fp,
                        )
                        &&& final(self).spec_watchers().child() == old(
                            self,
                        ).spec_watchers().child()
                        &&& final(self).spec_watchers().persistent() == old(
                            self,
                        ).spec_watchers().persistent()
                        &&& final(self).spec_watchers().persistent_recursive() == old(
                            self,
                        ).spec_watchers().persistent_recursive()
                    },
                    WatcherType::Any => {
                        &&& final(self).spec_watchers().data() == remove_path(
                            old(self).spec_watchers().data(),
                            fp,
                        )
                        &&& final(self).spec_watchers().exists_w() == remove_path(
                            old(self).spec_watchers().exists_w(),
                            fp,
                        )
                        &&& final(self).spec_watchers().child() == remove_path(
                            old(self).spec_watchers().child(),
                            fp,
                        )
                        &&& final(self).spec_watchers().persistent() == remove_path(
                            old(self).spec_watchers().persistent(),
                            fp,
                        )
                        &&& final(self).spec_watchers().persistent_recursive() == remove_path(
                            old(self).spec_watchers().persistent_recursive(),
                            fp,
                        )
                    },
                })
            },
    {
        if let Err(e) = validate_path(path) {
            return Err(e);
        }
        let full = self.get_path(path);
        self.watcher_manager.remove_watches_local(&full, watcher_type);
        let request = CheckWatchesRequest::new(full, watcher_type);
        let mut buf: Vec<u8> = Vec::new();
        request.write(&mut buf);
        proof {
            assert(buf@ =~= request@.enc());
        }
        let x = self.next_xid();
        let rh = RequestHeader::new_full(x, OpCode::CheckWatches);
        Ok(ReqPacket::new(Some(rh), Some(buf)))
    }

    /// The trigger computation for one notification, behind the
    /// registry: returns the handles to invoke and consumes the one-shot
    /// entries that fired.
    pub fn find_triggered(&mut self, event: &WatchedEvent) -> (r: Vec<u64>)
        requires
            old(self).wf(),
            event.event_type is NoEvent || event.event_type is NodeCreated
                || event.event_type is NodeDataChanged || event.event_type is NodeChildrenChanged
                || event.event_type is NodeDeleted,
        ensures
            final(self).wf(),
            WatcherManager::find_spec(
                old(self).spec_watchers(),
                final(self).spec_watchers(),
                *event,
                r@,
            ),
            final(self).spec_state() == old(self).spec_state(),
            final(self).spec_session_id() == old(self).spec_session_id(),
            final(self).spec_session_timeout() == old(self).spec_session_timeout(),
            final(self).spec_password() == old(self).spec_password(),
            final(self).spec_chroot() == old(self).spec_chroot(),
            final(self).spec_hosts() == old(self).spec_hosts(),
            final(self).spec_xid() == old(self).spec_xid(),
    {
        self.watcher_manager.find_need_triggered_watchers(event)
    }
}

/// Classifies one reply header against the request it should answer: a
/// non-zero error code is the server's error, a wrong XID is a lost
/// connection, anything else is a good reply.
pub fn check_reply(rh: &ReplyHeader, expected_xid: Option<i32>) -> (r: Result<(), ZKError>)
    ensures
        rh.err != 0 ==> (r matches Err(e) && e matches ZKError::ServerError(c, raw) && c
            == ServerErrorCode::spec_from_code(rh.err) && raw == rh.err),
        rh.err == 0 && (match expected_xid {
            Some(x) => rh.xid == x,
            None => true,
        }) ==> r is Ok,
        rh.err == 0 && (match expected_xid {
            Some(x) => rh.xid != x,
            None => false,
        }) ==> (r matches Err(e) && e matches ZKError::ServerError(c, raw) && c
            == ServerErrorCode::ConnectionLoss && raw == 0),
{
    if rh.err != 0 {
        return Err(ZKError::ServerError(ServerErrorCode::from_code(rh.err), rh.err));
    }
    match expected_xid {
        Some(x) => {
            if rh.xid != x {
                Err(ZKError::ServerError(ServerErrorCode::ConnectionLoss, rh.err))
            } else {
                Ok(())
            }
        },
        None => Ok(()),
    }
}

/// Whether an error ends the session: losing the connection, losing the
/// session itself, or an unreadable reply. Other server errors fail only
/// the one call.
pub fn session_fatal(e: &ZKError) -> (r: bool)
    ensures
        r == (match *e {
            ZKError::ServerError(c, _) => c == ServerErrorCode::ConnectionLoss || c
                == ServerErrorCode::SessionExpired,
            ZKError::ProtocolParseError => true,
            ZKError::NetworkError(_) => true,
            _ => false,
        }),
{
    match e {
        ZKError::ServerError(c, _) => *c == ServerErrorCode::ConnectionLoss || *c
            == ServerErrorCode::SessionExpired,
        ZKError::ProtocolParseError => true,
        ZKError::NetworkError(_) => true,
        _ => false,
    }
}

/// Reads a create reply: the created node's path.
pub fn create_reply(buf: &Vec<u8>) -> (r: Result<String, ZKError>)
    ensures
        (match CreateResponseV::rd(buf@, 0) {
            Some((v, _)) => r matches Ok(s) && s@ == v.path,
            None => r matches Err(e) && e is ProtocolParseError,
        }),
{
    match CreateResponse::read(buf, 0) {
        Some((resp, _)) => Ok(resp.path),
        None => Err(ZKError::ProtocolParseError),
    }
}

/// Reads a stat-only reply, as set-data, set-ACL, and exists return.
pub fn stat_reply(buf: &Vec<u8>) -> (r: Result<Stat, ZKError>)
    ensures
        (match Stat::rd(buf@, 0) {
            Some((v, _)) => r == Ok::<Stat, ZKError>(v),
            None => r matches Err(e) && e is ProtocolParseError,
        }),
{
    match Stat::read(buf, 0) {
        Some((stat, _)) => Ok(stat),
        None => Err(ZKError::ProtocolParseError),
    }
}

/// Reads a get-data reply: the bytes and the stat.
pub fn get_reply(buf: &Vec<u8>) -> (r: Result<(Vec<u8>, Stat), ZKError>)
    ensures
        (match GetDataResponseV::rd(buf@, 0) {
            Some((v, _)) => r matches Ok((d, st)) && d@ == v.data && st == v.stat,
            None => r matches Err(e) && e is ProtocolParseError,
        }),
{
    match GetDataResponse::read(buf, 0) {
        Some((resp, _)) => Ok((resp.data, resp.stat)),
        None => Err(ZKError::ProtocolParseError),
    }
}

/// Reads a children reply: the child names.
pub fn children_reply(buf: &Vec<u8>) -> (r: Result<Vec<String>, ZKError>)
    ensures
        (match PathListResponseV::rd(buf@, 0) {
            Some((v, _)) => r matches Ok(l) && crate::resp::strs_v(l@) == v.path_list,
            None => r matches Err(e) && e is ProtocolParseError,
        }),
{
    match PathListResponse::read(buf, 0) {
        Some((resp, _)) => Ok(resp.path_list),
        None => Err(ZKError::ProtocolParseError),
    }
}

/// Reads a children-with-stat reply.
pub fn childrens_reply(buf: &Vec<u8>) -> (r: Result<(Vec<String>, Stat), ZKError>)
    ensures
        (match GetChildren2ResponseV::rd(buf@, 0) {
            Some((v, _)) => r matches Ok((l, st)) && crate::resp::strs_v(l@) == v.path_list && st
                == v.stat,
            None => r matches Err(e) && e is ProtocolParseError,
        }),
{
    match GetChildren2Response::read(buf, 0) {
        Some((resp, _)) => Ok((resp.path_list, resp.stat)),
        None => Err(ZKError::ProtocolParseError),
    }
}

/// Reads a children-count reply.
pub fn children_count_reply(buf: &Vec<u8>) -> (r: Result<u32, ZKError>)
    ensures
        (match GetAllChildrenNumberResponse::rd(buf@, 0) {
            Some((v, _)) => r == Ok::<u32, ZKError>(v.total_number),
            None => r matches Err(e) && e is ProtocolParseError,
        }),
{
    match GetAllChildrenNumberResponse::read(buf, 0) {
        Some((resp, _)) => Ok(resp.total_number),
        None => Err(ZKError::ProtocolParseError),
    }
}

/// Reads a get-ACL reply: the entries and the stat.
pub fn get_acl_reply(buf: &Vec<u8>) -> (r: Result<(Vec<ACL>, Stat), ZKError>)
    ensures
        (match GetACLResponseV::rd(buf@, 0) {
            Some((v, _)) => r matches Ok((l, st)) && acls_v(l@) == v.acl_list && st == v.stat,
            None => r matches Err(e) && e is ProtocolParseError,
        }),
{
    match GetACLResponse::read(buf, 0) {
        Some((resp, _)) => Ok((resp.acl_list, resp.stat)),
        None => Err(ZKError::ProtocolParseError),
    }
}

/// Settles an exists call: a good reply carries the stat, and the
/// no-node error is the ordinary absent answer, not a failure.
pub fn exists_reply(outcome: Result<Vec<u8>, ZKError>) -> (r: Result<Option<Stat>, ZKError>)
    ensures
        (match outcome {
            Ok(buf) => (match Stat::rd(buf@, 0) {
                Some((v, _)) => r == Ok::<Option<Stat>, ZKError>(Some(v)),
                None => r matches Err(e) && e is ProtocolParseError,
            }),
            Err(e) => if e matches ZKError::ServerError(c, _) && c == ServerErrorCode::NoNode {
                r == Ok::<Option<Stat>, ZKError>(None)
            } else {
                r == Err::<Option<Stat>, ZKError>(e)
            },
        }),
{
    match outcome {
        Ok(buf) => {
            match Stat::read(&buf, 0) {
                Some((stat, _)) => Ok(Some(stat)),
                None => Err(ZKError::ProtocolParseError),
            }
        },
        Err(e) => {
            match &e {
                ZKError::ServerError(c, _) => {
                    if *c == ServerErrorCode::NoNode {
                        Ok(None)
                    } else {
                        Err(e)
                    }
                },
                _ => Err(e),
            }
        },
    }
}

/// Reads a notification body into an application event; an unknown
/// event or state code is a protocol error.
pub fn parse_notification(buf: &Vec<u8>) -> (r: Result<WatchedEvent, ZKError>)
    ensures
        (match WatcherEventV::rd(buf@, 0) {
            Some((v, _)) => (match r {
                Ok(w) => w.event_type.spec_code() == v.event_type && w.keep_state.spec_code()
                    == v.keep_state && w.path@ == v.path,
                Err(e) => e is ProtocolParseError && ((forall|et: EventType|
                    et.spec_code() != v.event_type) || (forall|ks: KeeperState|
                    ks.spec_code() != v.keep_state)),
            }),
            None => r matches Err(e) && e is ProtocolParseError,
        }),
{
    match WatcherEvent::read(buf, 0) {
        Some((ev, _)) => {
            let event_type = match EventType::from_code(ev.event_type) {
                Some(et) => et,
                None => {
                    return Err(ZKError::ProtocolParseError);
                },
            };
            let keep_state = match KeeperState::from_code(ev.keep_state) {
                Some(ks) => ks,
                None => {
                    return Err(ZKError::ProtocolParseError);
                },
            };
            Ok(WatchedEvent { keep_state, event_type, path: ev.path })
        },
        None => Err(ZKError::ProtocolParseError),
    }
}

/// Two XIDs handed out one after another: both at least one, and
/// strictly increasing.
pub proof fn lemma_xids_strictly_increase(a: int, b: int, c: int, x1: int, x2: int)
    requires
        a >= 1,
        xid_emit(a, b, x1),
        xid_emit(b, c, x2),
    ensures
        1 <= x1 < x2,
{
}

} // verus!
