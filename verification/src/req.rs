//! Request records: the header, the handshake record, and the body of
//! every operation the session can submit, each with its wire encoding.
//!
//! Every record has a ghost view, a spec encoding `enc` over the view, a
//! spec reader `rd` that parses the encoding back, an executable `write`
//! proved to append exactly `enc`, and an executable `read` proved to
//! return exactly what `rd` says.

use vstd::prelude::*;
use vstd::string::StringExecFns;
use vstd::utf8::encode_utf8;

use crate::codec::{
    lemma_subrange_at,
    enc_bool, enc_bytes, enc_bytes_opt, enc_i32, enc_i64, enc_str, enc_u32, lemma_rd_enc_bool,
    lemma_rd_enc_bytes, lemma_rd_enc_bytes_opt, lemma_rd_enc_i32, lemma_rd_enc_i64,
    lemma_rd_enc_str, lemma_rd_enc_u32, rd_bool, rd_bytes, rd_bytes_opt, rd_i32, rd_i64, rd_str,
    rd_u32, read_bool, read_bytes, read_bytes_opt, read_i32, read_i64, read_str, read_u32,
    write_bool, write_bytes, write_bytes_opt, write_i32, write_i64, write_str, write_u32,
    WIRE_LEN_MAX,
};
use crate::constants::{AddWatchMode, CreateMode, OpCode, WatcherType, ANYONE, DIGEST, IP, WORLD};

verus! {

/// A string that fits a length-prefixed wire field.
pub open spec fn str_ok(s: Seq<char>) -> bool {
    encode_utf8(s).len() <= WIRE_LEN_MAX
}

/// The request header: the correlation XID and the operation code. It is
/// absent only on the initial connect record.
#[derive(Debug, Clone, Copy, PartialEq, Eq, Structural)]
pub struct RequestHeader {
    pub xid: i32,
    pub rtype: i32,
}

impl RequestHeader {
    /// A header for `rtype` whose XID is assigned later.
    pub fn new(rtype: OpCode) -> (r: RequestHeader)
        ensures
            r.xid == 0,
            r.rtype == rtype.spec_code(),
    {
        RequestHeader { xid: 0, rtype: rtype.code() }
    }

    /// A header carrying both fields.
    pub fn new_full(xid: i32, rtype: OpCode) -> (r: RequestHeader)
        ensures
            r.xid == xid,
            r.rtype == rtype.spec_code(),
    {
        RequestHeader { xid, rtype: rtype.code() }
    }

    pub open spec fn enc(self) -> Seq<u8> {
        enc_i32(self.xid) + enc_i32(self.rtype)
    }

    pub open spec fn rd(s: Seq<u8>, i: int) -> Option<(RequestHeader, int)> {
        match rd_i32(s, i) {
            Some((xid, j)) => match rd_i32(s, j) {
                Some((rtype, k)) => Some((RequestHeader { xid, rtype }, k)),
                None => None,
            },
            None => None,
        }
    }

    pub fn write(&self, b: &mut Vec<u8>)
        ensures
            final(b)@ == old(b)@ + self.enc(),
    {
        write_i32(b, self.xid);
        write_i32(b, self.rtype);
        proof {
            assert(b@ =~= old(b)@ + self.enc());
        }
    }

    pub fn read(b: &Vec<u8>, pos: usize) -> (r: Option<(RequestHeader, usize)>)
        ensures
            (match r {
                Some((v, j)) => RequestHeader::rd(b@, pos as int) == Some((v, j as int)),
                None => RequestHeader::rd(b@, pos as int) is None,
            }),
    {
        match read_i32(b, pos) {
            Some((xid, j)) => match read_i32(b, j) {
                Some((rtype, k)) => Some((RequestHeader { xid, rtype }, k)),
                None => None,
            },
            None => None,
        }
    }
}

/// The header's encoding reads back as the header itself.
pub proof fn lemma_rd_enc_header(s: Seq<u8>, i: int, v: RequestHeader)
    requires
        0 <= i,
        i + v.enc().len() <= s.len(),
        s.subrange(i, i + v.enc().len()) == v.enc(),
    ensures
        RequestHeader::rd(s, i) == Some((v, i + v.enc().len())),
{
    let whole = v.enc();
    lemma_subrange_at(s, i, whole, 0, 4);
    assert(whole.subrange(0, 4) =~= enc_i32(v.xid));
    lemma_rd_enc_i32(s, i, v.xid);
    lemma_subrange_at(s, i, whole, 4, 8);
    assert(whole.subrange(4, 8) =~= enc_i32(v.rtype));
    lemma_rd_enc_i32(s, i + 4, v.rtype);
}

/// The handshake record, sent without a request header.
#[derive(Debug, Clone, PartialEq, Eq)]
pub struct ConnectRequest {
    pub protocol_version: i32,
    pub last_zxid_seen: i64,
    pub time_out: u32,
    pub session_id: i64,
    pub passwd: Option<Vec<u8>>,
    pub read_only: bool,
}

/// The view of a handshake record.
pub ghost struct ConnectRequestV {
    pub protocol_version: i32,
    pub last_zxid_seen: i64,
    pub time_out: u32,
    pub session_id: i64,
    pub passwd: Option<Seq<u8>>,
    pub read_only: bool,
}

impl View for ConnectRequest {
    type V = ConnectRequestV;

    open spec fn view(&self) -> ConnectRequestV {
        ConnectRequestV {
            protocol_version: self.protocol_version,
            last_zxid_seen: self.last_zxid_seen,
            time_out: self.time_out,
            session_id: self.session_id,
            passwd: match self.passwd {
                Some(ref p) => Some(p@),
                None => None,
            },
            read_only: self.read_only,
        }
    }
}

impl ConnectRequestV {
    pub open spec fn wire_ok(self) -> bool {
        match self.passwd {
            Some(p) => p.len() <= WIRE_LEN_MAX,
            None => true,
        }
    }

    pub open spec fn enc(self) -> Seq<u8> {
        enc_i32(self.protocol_version) + enc_i64(self.last_zxid_seen) + enc_u32(self.time_out)
            + enc_i64(self.session_id) + enc_bytes_opt(self.passwd) + enc_bool(self.read_only)
    }

    pub open spec fn rd(s: Seq<u8>, i: int) -> Option<(ConnectRequestV, int)> {
        match rd_i32(s, i) {
            Some((protocol_version, j1)) => match rd_i64(s, j1) {
                Some((last_zxid_seen, j2)) => match rd_u32(s, j2) {
                    Some((time_out, j3)) => match rd_i64(s, j3) {
                        Some((session_id, j4)) => match rd_bytes_opt(s, j4) {
                            Some((passwd, j5)) => match rd_bool(s, j5) {
                                Some((read_only, j6)) => Some(
                                    (
                                        ConnectRequestV {
                                            protocol_version,
                                            last_zxid_seen,
                                            time_out,
                                            session_id,
                                            passwd,
                                            read_only,
                                        },
                                        j6,
                                    ),
                                ),
                                None => None,
                            },
                            None => None,
                        },
                        None => None,
                    },
                    None => None,
                },
                None => None,
            },
            None => None,
        }
    }
}

impl ConnectRequest {
    /// The first handshake of a fresh session: no prior session id, no
    /// prior password, read-write.
    pub fn new(session_timeout: u32) -> (r: ConnectRequest)
        ensures
            r@ == (ConnectRequestV {
                protocol_version: 0,
                last_zxid_seen: 0,
                time_out: session_timeout,
                session_id: 0,
                passwd: None,
                read_only: false,
            }),
    {
        ConnectRequest {
            protocol_version: 0,
            last_zxid_seen: 0,
            time_out: session_timeout,
            session_id: 0,
            passwd: None,
            read_only: false,
        }
    }

    pub fn write(&self, b: &mut Vec<u8>)
        requires
            self@.wire_ok(),
        ensures
            final(b)@ == old(b)@ + self@.enc(),
    {
        write_i32(b, self.protocol_version);
        write_i64(b, self.last_zxid_seen);
        write_u32(b, self.time_out);
        write_i64(b, self.session_id);
        write_bytes_opt(b, &self.passwd);
        write_bool(b, self.read_only);
        proof {
            assert(b@ =~= old(b)@ + self@.enc());
        }
    }

    pub fn read(b: &Vec<u8>, pos: usize) -> (r: Option<(ConnectRequest, usize)>)
        ensures
            (match r {
                Some((v, j)) => ConnectRequestV::rd(b@, pos as int) == Some((v@, j as int)),
                None => ConnectRequestV::rd(b@, pos as int) is None,
            }),
    {
        match read_i32(b, pos) {
            Some((protocol_version, j1)) => match read_i64(b, j1) {
                Some((last_zxid_seen, j2)) => match read_u32(b, j2) {
                    Some((time_out, j3)) => match read_i64(b, j3) {
                        Some((session_id, j4)) => match read_bytes_opt(b, j4) {
                            Some((passwd, j5)) => match read_bool(b, j5) {
                                Some((read_only, j6)) => Some(
                                    (
                                        ConnectRequest {
                                            protocol_version,
                                            last_zxid_seen,
                                            time_out,
                                            session_id,
                                            passwd,
                                            read_only,
                                        },
                                        j6,
                                    ),
                                ),
                                None => None,
                            },
                            None => None,
                        },
                        None => None,
                    },
                    None => None,
                },
                None => None,
            },
            None => None,
        }
    }
}

/// The handshake record's encoding reads back as the record itself.
pub proof fn lemma_rd_enc_connect_req(s: Seq<u8>, i: int, v: ConnectRequestV)
    requires
        0 <= i,
        v.wire_ok(),
        i + v.enc().len() <= s.len(),
        s.subrange(i, i + v.enc().len()) == v.enc(),
    ensures
        ConnectRequestV::rd(s, i) == Some((v, i + v.enc().len())),
{
    let whole = v.enc();
    let o1: int = 4;
    let o2: int = o1 + 8;
    let o3: int = o2 + 4;
    let o4: int = o3 + 8;
    let o5: int = o4 + enc_bytes_opt(v.passwd).len() as int;
    let o6: int = o5 + 1;
    lemma_subrange_at(s, i, whole, 0, o1);
    assert(whole.subrange(0, o1) =~= enc_i32(v.protocol_version));
    lemma_rd_enc_i32(s, i, v.protocol_version);
    lemma_subrange_at(s, i, whole, o1, o2);
    assert(whole.subrange(o1, o2) =~= enc_i64(v.last_zxid_seen));
    lemma_rd_enc_i64(s, i + o1, v.last_zxid_seen);
    lemma_subrange_at(s, i, whole, o2, o3);
    assert(whole.subrange(o2, o3) =~= enc_u32(v.time_out));
    lemma_rd_enc_u32(s, i + o2, v.time_out);
    lemma_subrange_at(s, i, whole, o3, o4);
    assert(whole.subrange(o3, o4) =~= enc_i64(v.session_id));
    lemma_rd_enc_i64(s, i + o3, v.session_id);
    lemma_subrange_at(s, i, whole, o4, o5);
    assert(whole.subrange(o4, o5) =~= enc_bytes_opt(v.passwd));
    lemma_rd_enc_bytes_opt(s, i + o4, v.passwd);
    lemma_subrange_at(s, i, whole, o5, o6);
    assert(whole.subrange(o5, o6) =~= enc_bool(v.read_only));
    lemma_rd_enc_bool(s, i + o5, v.read_only);
}

/// The authentication scheme of an ACL entry. The world scheme implies
/// the fixed id `anyone`; the IP scheme carries an address, the digest
/// scheme a `user:hash` pair.
#[derive(Debug, Clone, PartialEq, Eq)]
pub enum Scheme {
    World,
    IP(String),
    Digest(String),
}

/// The view of a scheme.
pub ghost enum SchemeV {
    World,
    IP(Seq<char>),
    Digest(Seq<char>),
}

impl View for Scheme {
    type V = SchemeV;

    open spec fn view(&self) -> SchemeV {
        match self {
            Scheme::World => SchemeV::World,
            Scheme::IP(a) => SchemeV::IP(a@),
            Scheme::Digest(d) => SchemeV::Digest(d@),
        }
    }
}

/// One ACL entry: a permission bitfield and a scheme.
#[derive(Debug, Clone, PartialEq, Eq)]
pub struct ACL {
    pub perms: i32,
    pub scheme: Scheme,
}

/// The view of an ACL entry.
pub ghost struct AclV {
    pub perms: i32,
    pub scheme: SchemeV,
}

impl View for ACL {
    type V = AclV;

    open spec fn view(&self) -> AclV {
        AclV { perms: self.perms, scheme: self.scheme@ }
    }
}

impl AclV {
    pub open spec fn wire_ok(self) -> bool {
        match self.scheme {
            SchemeV::World => true,
            SchemeV::IP(a) => str_ok(a),
            SchemeV::Digest(d) => str_ok(d),
        }
    }

    /// The entry's wire form: the bits, the scheme name, and the id.
    pub open spec fn enc(self) -> Seq<u8> {
        enc_i32(self.perms) + match self.scheme {
            SchemeV::World => enc_str("world"@) + enc_str("anyone"@),
            SchemeV::IP(a) => enc_str("ip"@) + enc_str(a),
            SchemeV::Digest(d) => enc_str("digest"@) + enc_str(d),
        }
    }

    /// Reads one entry; an unknown scheme name is refused. The id read
    /// under the world scheme is dropped, as the scheme fixes it.
    pub open spec fn rd(s: Seq<u8>, i: int) -> Option<(AclV, int)> {
        match rd_i32(s, i) {
            Some((perms, j1)) => match rd_str(s, j1) {
                Some((name, j2)) => match rd_str(s, j2) {
                    Some((id, j3)) => if name == "world"@ {
                        Some((AclV { perms, scheme: SchemeV::World }, j3))
                    } else if name == "ip"@ {
                        Some((AclV { perms, scheme: SchemeV::IP(id) }, j3))
                    } else if name == "digest"@ {
                        Some((AclV { perms, scheme: SchemeV::Digest(id) }, j3))
                    } else {
                        None
                    },
                    None => None,
                },
                None => None,
            },
            None => None,
        }
    }
}

impl Default for ACL {
    /// The conventional open entry: all permissions for the world.
    fn default() -> (r: ACL)
        ensures
            r@ == (AclV { perms: 31, scheme: SchemeV::World }),
    {
        ACL { perms: 31, scheme: Scheme::World }
    }
}

/// The views of a list of entries.
pub open spec fn acls_v(v: Seq<ACL>) -> Seq<AclV> {
    Seq::new(v.len(), |i: int| v[i]@)
}

/// Entries one after another, with nothing between them.
pub open spec fn enc_acl_items(s: Seq<AclV>) -> Seq<u8>
    decreases s.len(),
{
    if s.len() == 0 {
        Seq::empty()
    } else {
        s[0].enc() + enc_acl_items(s.drop_first())
    }
}

/// A list of entries: `-1` for an empty list, else the count followed by
/// the entries.
pub open spec fn enc_acl_vec(s: Seq<AclV>) -> Seq<u8> {
    if s.len() == 0 {
        enc_i32(-1i32)
    } else {
        enc_u32(s.len() as u32) + enc_acl_items(s)
    }
}

/// Reads exactly `n` entries.
pub open spec fn rd_acl_items(s: Seq<u8>, i: int, n: nat) -> Option<(Seq<AclV>, int)>
    decreases n,
{
    if n == 0 {
        Some((Seq::empty(), i))
    } else {
        match AclV::rd(s, i) {
            Some((a, j)) => match rd_acl_items(s, j, (n - 1) as nat) {
                Some((rest, k)) => Some((seq![a] + rest, k)),
                None => None,
            },
            None => None,
        }
    }
}

/// Reads a list of entries; a negative count other than `-1` is refused.
pub open spec fn rd_acl_vec(s: Seq<u8>, i: int) -> Option<(Seq<AclV>, int)> {
    match rd_i32(s, i) {
        Some((n, j)) => if n == -1 {
            Some((Seq::empty(), j))
        } else if n >= 0 {
            rd_acl_items(s, j, n as nat)
        } else {
            None
        },
        None => None,
    }
}

impl ACL {
    /// The fixed single-entry list granting everything to the world.
    pub fn world_acl() -> (r: Vec<ACL>)
        ensures
            acls_v(r@) =~= seq![AclV { perms: 31, scheme: SchemeV::World }],
    {
        let mut v: Vec<ACL> = Vec::new();
        v.push(ACL::default());
        v
    }

    pub fn write(&self, b: &mut Vec<u8>)
        requires
            self@.wire_ok(),
        ensures
            final(b)@ == old(b)@ + self@.enc(),
    {
        proof {
            lemma_scheme_literal_facts();
        }
        write_i32(b, self.perms);
        match &self.scheme {
            Scheme::World => {
                write_str(b, "world");
                write_str(b, "anyone");
            },
            Scheme::IP(a) => {
                write_str(b, "ip");
                write_str(b, a.as_str());
            },
            Scheme::Digest(d) => {
                write_str(b, "digest");
                write_str(b, d.as_str());
            },
        }
        proof {
            assert(b@ =~= old(b)@ + self@.enc());
        }
    }

    pub fn read(b: &Vec<u8>, pos: usize) -> (r: Option<(ACL, usize)>)
        ensures
            (match r {
                Some((v, j)) => AclV::rd(b@, pos as int) == Some((v@, j as int)),
                None => AclV::rd(b@, pos as int) is None,
            }),
    {
        match read_i32(b, pos) {
            Some((perms, j1)) => match read_str(b, j1) {
                Some((name, j2)) => match read_str(b, j2) {
                    Some((id, j3)) => {
                        if name.eq(&String::from_str("world")) {
                            Some((ACL { perms, scheme: Scheme::World }, j3))
                        } else if name.eq(&String::from_str("ip")) {
                            Some((ACL { perms, scheme: Scheme::IP(id) }, j3))
                        } else if name.eq(&String::from_str("digest")) {
                            Some((ACL { perms, scheme: Scheme::Digest(id) }, j3))
                        } else {
                            None
                        }
                    },
                    None => None,
                },
                None => None,
            },
            None => None,
        }
    }
}

/// Appends a list of entries in its wire form.
pub fn write_acl_vec(b: &mut Vec<u8>, v: &Vec<ACL>)
    requires
        v@.len() <= WIRE_LEN_MAX,
        forall|k: int| 0 <= k < v@.len() ==> (#[trigger] v@[k])@.wire_ok(),
    ensures
        final(b)@ == old(b)@ + enc_acl_vec(acls_v(v@)),
{
    if v.len() == 0 {
        write_i32(b, -1);
        proof {
            assert(b@ =~= old(b)@ + enc_acl_vec(acls_v(v@)));
        }
        return ;
    }
    write_u32(b, v.len() as u32);
    let ghost views = acls_v(v@);
    let mut k: usize = 0;
    proof {
        assert(views.take(0) =~= Seq::<AclV>::empty());
    }
    while k < v.len()
        invariant
            k <= v@.len(),
            views == acls_v(v@),
            v@.len() <= WIRE_LEN_MAX,
            forall|m: int| 0 <= m < v@.len() ==> (#[trigger] v@[m])@.wire_ok(),
            b@ == old(b)@ + enc_u32(v@.len() as u32) + enc_acl_items(views.take(k as int)),
        decreases v@.len() - k,
    {
        let item = &v[k];
        item.write(b);
        proof {
            lemma_enc_acl_items_snoc(views, k as int);
            assert(b@ =~= old(b)@ + enc_u32(v@.len() as u32) + enc_acl_items(
                views.take(k as int + 1),
            ));
        }
        k += 1;
    }
    proof {
        assert(views.take(v@.len() as int) =~= views);
    }
}

/// Reads a list of entries in its wire form.
pub fn read_acl_vec(b: &Vec<u8>, pos: usize) -> (r: Option<(Vec<ACL>, usize)>)
    ensures
        (match r {
            Some((v, j)) => rd_acl_vec(b@, pos as int) == Some((acls_v(v@), j as int)),
            None => rd_acl_vec(b@, pos as int) is None,
        }),
{
    match read_i32(b, pos) {
        Some((n, j)) => {
            if n == -1 {
                let v: Vec<ACL> = Vec::new();
                proof {
                    assert(acls_v(v@) =~= Seq::<AclV>::empty());
                }
                Some((v, j))
            } else if n >= 0 {
                let total = n as usize;
                let mut acc: Vec<ACL> = Vec::new();
                let mut cur = j;
                let mut k: usize = 0;
                proof {
                    assert(acls_v(acc@) =~= Seq::<AclV>::empty());
                    match rd_acl_items(b@, j as int, total as nat) {
                        Some((all, end)) => {
                            assert(acls_v(acc@) + all =~= all);
                        },
                        None => {},
                    }
                }
                loop
                    invariant
                        k <= total,
                        acc@.len() == k,
                        rd_acl_vec(b@, pos as int) == rd_acl_items(b@, j as int, total as nat),
                        (match rd_acl_items(b@, j as int, total as nat) {
                            Some((all, end)) => rd_acl_items(b@, cur as int, (total - k) as nat)
                                matches Some((rest, e2)) && all == acls_v(acc@) + rest && end == e2,
                            None => rd_acl_items(b@, cur as int, (total - k) as nat) is None,
                        }),
                    decreases total - k,
                {
                    if k == total {
                        proof {
                            assert(acls_v(acc@) + Seq::<AclV>::empty() =~= acls_v(acc@));
                        }
                        return Some((acc, cur));
                    }
                    match ACL::read(b, cur) {
                        Some((a, j2)) => {
                            let ghost prev = acls_v(acc@);
                            acc.push(a);
                            proof {
                                assert(acls_v(acc@) =~= prev + seq![a@]);
                                lemma_rd_acl_items_assoc(
                                    b@,
                                    cur as int,
                                    j2 as int,
                                    (total - k) as nat,
                                    a@,
                                    prev,
                                );
                            }
                            cur = j2;
                            k += 1;
                        },
                        None => {
                            return None;
                        },
                    }
                }
            } else {
                None
            }
        },
        None => None,
    }
}

/// Appending one more entry to a prefix appends its encoding.
proof fn lemma_enc_acl_items_snoc(s: Seq<AclV>, k: int)
    requires
        0 <= k < s.len(),
    ensures
        enc_acl_items(s.take(k + 1)) == enc_acl_items(s.take(k)) + s[k].enc(),
    decreases k,
{
    if k == 0 {
        let t = s.take(1);
        assert(t.len() == 1);
        assert(t[0] == s[0]);
        assert(t.drop_first() =~= Seq::<AclV>::empty());
        assert(enc_acl_items(Seq::<AclV>::empty()) == Seq::<u8>::empty());
        assert(enc_acl_items(t) == t[0].enc() + enc_acl_items(t.drop_first()));
        assert(enc_acl_items(t) =~= s[0].enc());
        assert(s.take(0) =~= Seq::<AclV>::empty());
        assert(enc_acl_items(s.take(0)) + s[0].enc() =~= s[0].enc());
    } else {
        let d = s.drop_first();
        lemma_enc_acl_items_snoc(d, k - 1);
        assert(s.take(k + 1).drop_first() =~= d.take(k));
        assert(s.take(k).drop_first() =~= d.take(k - 1));
        assert(enc_acl_items(s.take(k + 1)) == s[0].enc() + enc_acl_items(d.take(k)));
        assert(enc_acl_items(s.take(k)) == s[0].enc() + enc_acl_items(d.take(k - 1)));
        assert(s[0].enc() + (enc_acl_items(d.take(k - 1)) + d[k - 1].enc()) =~= (s[0].enc()
            + enc_acl_items(d.take(k - 1))) + d[k - 1].enc());
        assert(d[k - 1] == s[k]);
    }
}

/// Reading one entry and then `m - 1` more reads `m` in all.
proof fn lemma_rd_acl_items_assoc(s: Seq<u8>, i: int, j: int, m: nat, a: AclV, pre: Seq<AclV>)
    requires
        m >= 1,
        AclV::rd(s, i) == Some((a, j)),
    ensures
        (match rd_acl_items(s, i, m) {
            Some((all, e)) => rd_acl_items(s, j, (m - 1) as nat) matches Some((rest, e2)) && all
                == seq![a] + rest && e == e2,
            None => rd_acl_items(s, j, (m - 1) as nat) is None,
        }),
        (match rd_acl_items(s, j, (m - 1) as nat) {
            Some((rest, e2)) => pre + (seq![a] + rest) =~= (pre + seq![a]) + rest,
            None => true,
        }),
{
}

/// A list's encoding reads back as the list itself.
pub proof fn lemma_rd_enc_acl_vec(s: Seq<u8>, i: int, v: Seq<AclV>)
    requires
        0 <= i,
        v.len() <= WIRE_LEN_MAX,
        forall|k: int| 0 <= k < v.len() ==> (#[trigger] v[k]).wire_ok(),
        i + enc_acl_vec(v).len() <= s.len(),
        s.subrange(i, i + enc_acl_vec(v).len()) == enc_acl_vec(v),
    ensures
        rd_acl_vec(s, i) == Some((v, i + enc_acl_vec(v).len())),
{
    let whole = enc_acl_vec(v);
    if v.len() == 0 {
        assert(whole =~= enc_i32(-1i32));
        lemma_rd_enc_i32(s, i, -1i32);
    } else {
        lemma_subrange_at(s, i, whole, 0, 4);
        assert(whole.subrange(0, 4) =~= enc_u32(v.len() as u32));
        lemma_rd_enc_u32(s, i, v.len() as u32);
        assert((v.len() as u32) as i32 == v.len() as i32);
        lemma_subrange_at(s, i, whole, 4, whole.len() as int);
        assert(whole.subrange(4, whole.len() as int) =~= enc_acl_items(v));
        lemma_rd_enc_acl_items(s, i + 4, v);
    }
}

/// Re-encoding a decoded ACL list reproduces the bytes it was read
/// from, wherever those bytes are some list's encoding.
pub proof fn lemma_enc_rd_acl_vec(s: Seq<u8>, i: int, v: Seq<AclV>)
    requires
        0 <= i,
        v.len() <= WIRE_LEN_MAX,
        forall|k: int| 0 <= k < v.len() ==> (#[trigger] v[k]).wire_ok(),
        i + enc_acl_vec(v).len() <= s.len(),
        s.subrange(i, i + enc_acl_vec(v).len()) == enc_acl_vec(v),
    ensures
        rd_acl_vec(s, i) matches Some((w, j)) && enc_acl_vec(w) == s.subrange(i, j),
{
    lemma_rd_enc_acl_vec(s, i, v);
}

/// A run of encoded entries reads back as the entries themselves.
proof fn lemma_rd_enc_acl_items(s: Seq<u8>, i: int, v: Seq<AclV>)
    requires
        0 <= i,
        forall|k: int| 0 <= k < v.len() ==> (#[trigger] v[k]).wire_ok(),
        i + enc_acl_items(v).len() <= s.len(),
        s.subrange(i, i + enc_acl_items(v).len()) == enc_acl_items(v),
    ensures
        rd_acl_items(s, i, v.len()) == Some((v, i + enc_acl_items(v).len())),
    decreases v.len(),
{
    let whole = enc_acl_items(v);
    if v.len() == 0 {
        assert(v =~= Seq::<AclV>::empty());
    } else {
        let head = v[0];
        let first = head.enc();
        lemma_subrange_at(s, i, whole, 0, first.len() as int);
        assert(whole.subrange(0, first.len() as int) =~= first);
        lemma_rd_enc_acl(s, i, head);
        let rest = enc_acl_items(v.drop_first());
        lemma_subrange_at(s, i, whole, first.len() as int, whole.len() as int);
        assert(whole.subrange(first.len() as int, whole.len() as int) =~= rest);
        lemma_rd_enc_acl_items(s, i + first.len(), v.drop_first());
        assert(seq![head] + v.drop_first() =~= v);
    }
}

/// One entry's encoding reads back as the entry itself.
pub proof fn lemma_rd_enc_acl(s: Seq<u8>, i: int, v: AclV)
    requires
        0 <= i,
        v.wire_ok(),
        i + v.enc().len() <= s.len(),
        s.subrange(i, i + v.enc().len()) == v.enc(),
    ensures
        AclV::rd(s, i) == Some((v, i + v.enc().len())),
{
    reveal_strlit("world");
    reveal_strlit("anyone");
    reveal_strlit("ip");
    reveal_strlit("digest");
    lemma_scheme_literal_facts();
    let whole = v.enc();
    lemma_subrange_at(s, i, whole, 0, 4);
    assert(whole.subrange(0, 4) =~= enc_i32(v.perms));
    lemma_rd_enc_i32(s, i, v.perms);
    match v.scheme {
        SchemeV::World => {
            let a = enc_str("world"@);
            let b = enc_str("anyone"@);
            lemma_subrange_at(s, i, whole, 4, 4 + a.len() as int);
            assert(whole.subrange(4, 4 + a.len() as int) =~= a);
            lemma_rd_enc_str(s, i + 4, "world"@);
            lemma_subrange_at(s, i, whole, 4 + a.len() as int, whole.len() as int);
            assert(whole.subrange(4 + a.len() as int, whole.len() as int) =~= b);
            lemma_rd_enc_str(s, i + 4 + a.len(), "anyone"@);
        },
        SchemeV::IP(id) => {
            let a = enc_str("ip"@);
            let b = enc_str(id);
            lemma_subrange_at(s, i, whole, 4, 4 + a.len() as int);
            assert(whole.subrange(4, 4 + a.len() as int) =~= a);
            lemma_rd_enc_str(s, i + 4, "ip"@);
            lemma_subrange_at(s, i, whole, 4 + a.len() as int, whole.len() as int);
            assert(whole.subrange(4 + a.len() as int, whole.len() as int) =~= b);
            lemma_rd_enc_str(s, i + 4 + a.len(), id);
            assert("ip"@ != "world"@);
        },
        SchemeV::Digest(id) => {
            let a = enc_str("digest"@);
            let b = enc_str(id);
            lemma_subrange_at(s, i, whole, 4, 4 + a.len() as int);
            assert(whole.subrange(4, 4 + a.len() as int) =~= a);
            lemma_rd_enc_str(s, i + 4, "digest"@);
            lemma_subrange_at(s, i, whole, 4 + a.len() as int, whole.len() as int);
            assert(whole.subrange(4 + a.len() as int, whole.len() as int) =~= b);
            lemma_rd_enc_str(s, i + 4 + a.len(), id);
            assert("digest"@ != "world"@);
            assert("digest"@ != "ip"@);
        },
    }
}

/// A create request: the full path, optional data, the ACL list, and the
/// create-mode flags.
#[derive(Debug, Clone, PartialEq, Eq)]
pub struct CreateRequest {
    pub path: String,
    pub data: Option<Vec<u8>>,
    pub acl: Vec<ACL>,
    pub flags: i32,
}

/// The view of a create request.
pub ghost struct CreateRequestV {
    pub path: Seq<char>,
    pub data: Option<Seq<u8>>,
    pub acl: Seq<AclV>,
    pub flags: i32,
}

impl View for CreateRequest {
    type V = CreateRequestV;

    open spec fn view(&self) -> CreateRequestV {
        CreateRequestV {
            path: self.path@,
            data: match self.data {
                Some(ref d) => Some(d@),
                None => None,
            },
            acl: acls_v(self.acl@),
            flags: self.flags,
        }
    }
}

impl CreateRequestV {
    pub open spec fn wire_ok(self) -> bool {
        &&& str_ok(self.path)
        &&& (self.data matches Some(d) ==> d.len() <= WIRE_LEN_MAX)
        &&& self.acl.len() <= WIRE_LEN_MAX
        &&& forall|k: int| 0 <= k < self.acl.len() ==> (#[trigger] self.acl[k]).wire_ok()
    }

    pub open spec fn enc(self) -> Seq<u8> {
        enc_str(self.path) + enc_bytes_opt(self.data) + enc_acl_vec(self.acl) + enc_i32(self.flags)
    }

    pub open spec fn rd(s: Seq<u8>, i: int) -> Option<(CreateRequestV, int)> {
        match rd_str(s, i) {
            Some((path, j1)) => match rd_bytes_opt(s, j1) {
                Some((data, j2)) => match rd_acl_vec(s, j2) {
                    Some((acl, j3)) => match rd_i32(s, j3) {
                        Some((flags, j4)) => Some((CreateRequestV { path, data, acl, flags }, j4)),
                        None => None,
                    },
                    None => None,
                },
                None => None,
            },
            None => None,
        }
    }
}

impl CreateRequest {
    /// A create request with no data, the world ACL, and persistent mode.
    pub fn new(path: &str) -> (r: CreateRequest)
        ensures
            r@ == (CreateRequestV {
                path: path@,
                data: None,
                acl: seq![AclV { perms: 31, scheme: SchemeV::World }],
                flags: 0,
            }),
    {
        let r = CreateRequest {
            path: path.to_owned(),
            data: None,
            acl: ACL::world_acl(),
            flags: CreateMode::Persistent.code(),
        };
        proof {
            assert(r@.acl =~= seq![AclV { perms: 31, scheme: SchemeV::World }]);
        }
        r
    }

    /// A create request with every field given.
    pub fn new_full(path: String, data: Option<&[u8]>, acl: Vec<ACL>, create_mode: CreateMode) -> (r:
        CreateRequest)
        ensures
            r@.path == path@,
            r@.data == (match data {
                Some(d) => Some(d@),
                None => None::<Seq<u8>>,
            }),
            r@.acl == acls_v(acl@),
            r@.flags == create_mode.spec_code(),
    {
        let data = match data {
            Some(d) => Some(vstd::slice::slice_to_vec(d)),
            None => None,
        };
        CreateRequest { path, data, acl, flags: create_mode.code() }
    }

    pub fn write(&self, b: &mut Vec<u8>)
        requires
            self@.wire_ok(),
        ensures
            final(b)@ == old(b)@ + self@.enc(),
    {
        write_str(b, self.path.as_str());
        write_bytes_opt(b, &self.data);
        proof {
            assert forall|k: int| 0 <= k < self.acl@.len() implies (
            #[trigger] self.acl@[k])@.wire_ok() by {
                assert(self@.acl[k] == self.acl@[k]@);
            }
        }
        write_acl_vec(b, &self.acl);
        write_i32(b, self.flags);
        proof {
            assert(b@ =~= old(b)@ + self@.enc());
        }
    }

    pub fn read(b: &Vec<u8>, pos: usize) -> (r: Option<(CreateRequest, usize)>)
        ensures
            (match r {
                Some((v, j)) => CreateRequestV::rd(b@, pos as int) == Some((v@, j as int)),
                None => CreateRequestV::rd(b@, pos as int) is None,
            }),
    {
        match read_str(b, pos) {
            Some((path, j1)) => match read_bytes_opt(b, j1) {
                Some((data, j2)) => match read_acl_vec(b, j2) {
                    Some((acl, j3)) => match read_i32(b, j3) {
                        Some((flags, j4)) => Some((CreateRequest { path, data, acl, flags }, j4)),
                        None => None,
                    },
                    None => None,
                },
                None => None,
            },
            None => None,
        }
    }
}

/// A create request's encoding reads back as the request itself.
pub proof fn lemma_rd_enc_create_req(s: Seq<u8>, i: int, v: CreateRequestV)
    requires
        0 <= i,
        v.wire_ok(),
        i + v.enc().len() <= s.len(),
        s.subrange(i, i + v.enc().len()) == v.enc(),
    ensures
        CreateRequestV::rd(s, i) == Some((v, i + v.enc().len())),
{
    let whole = v.enc();
    let o1 = enc_str(v.path).len() as int;
    let o2 = o1 + enc_bytes_opt(v.data).len() as int;
    let o3 = o2 + enc_acl_vec(v.acl).len() as int;
    let o4 = o3 + 4;
    lemma_subrange_at(s, i, whole, 0, o1);
    assert(whole.subrange(0, o1) =~= enc_str(v.path));
    lemma_rd_enc_str(s, i, v.path);
    lemma_subrange_at(s, i, whole, o1, o2);
    assert(whole.subrange(o1, o2) =~= enc_bytes_opt(v.data));
    lemma_rd_enc_bytes_opt(s, i + o1, v.data);
    lemma_subrange_at(s, i, whole, o2, o3);
    assert(whole.subrange(o2, o3) =~= enc_acl_vec(v.acl));
    lemma_rd_enc_acl_vec(s, i + o2, v.acl);
    lemma_subrange_at(s, i, whole, o3, o4);
    assert(whole.subrange(o3, o4) =~= enc_i32(v.flags));
    lemma_rd_enc_i32(s, i + o3, v.flags);
}

/// A delete request: the full path and the version condition.
#[derive(Debug, Clone, PartialEq, Eq)]
pub struct DeleteRequest {
    pub path: String,
    pub version: i32,
}

/// The view of a delete request.
pub ghost struct DeleteRequestV {
    pub path: Seq<char>,
    pub version: i32,
}

impl View for DeleteRequest {
    type V = DeleteRequestV;

    open spec fn view(&self) -> DeleteRequestV {
        DeleteRequestV { path: self.path@, version: self.version }
    }
}

impl DeleteRequestV {
    pub open spec fn wire_ok(self) -> bool {
        str_ok(self.path)
    }

    pub open spec fn enc(self) -> Seq<u8> {
        enc_str(self.path) + enc_i32(self.version)
    }

    pub open spec fn rd(s: Seq<u8>, i: int) -> Option<(DeleteRequestV, int)> {
        match rd_str(s, i) {
            Some((path, j1)) => match rd_i32(s, j1) {
                Some((version, j2)) => Some((DeleteRequestV { path, version }, j2)),
                None => None,
            },
            None => None,
        }
    }
}

impl DeleteRequest {
    pub fn new(path: String, version: i32) -> (r: DeleteRequest)
        ensures
            r@ == (DeleteRequestV { path: path@, version }),
    {
        DeleteRequest { path, version }
    }

    pub fn write(&self, b: &mut Vec<u8>)
        requires
            self@.wire_ok(),
        ensures
            final(b)@ == old(b)@ + self@.enc(),
    {
        write_str(b, self.path.as_str());
        write_i32(b, self.version);
        proof {
            assert(b@ =~= old(b)@ + self@.enc());
        }
    }

    pub fn read(b: &Vec<u8>, pos: usize) -> (r: Option<(DeleteRequest, usize)>)
        ensures
            (match r {
                Some((v, j)) => DeleteRequestV::rd(b@, pos as int) == Some((v@, j as int)),
                None => DeleteRequestV::rd(b@, pos as int) is None,
            }),
    {
        match read_str(b, pos) {
            Some((path, j1)) => match read_i32(b, j1) {
                Some((version, j2)) => Some((DeleteRequest { path, version }, j2)),
                None => None,
            },
            None => None,
        }
    }
}

/// A delete request's encoding reads back as the request itself.
pub proof fn lemma_rd_enc_delete_req(s: Seq<u8>, i: int, v: DeleteRequestV)
    requires
        0 <= i,
        v.wire_ok(),
        i + v.enc().len() <= s.len(),
        s.subrange(i, i + v.enc().len()) == v.enc(),
    ensures
        DeleteRequestV::rd(s, i) == Some((v, i + v.enc().len())),
{
    let whole = v.enc();
    let o1 = enc_str(v.path).len() as int;
    lemma_subrange_at(s, i, whole, 0, o1);
    assert(whole.subrange(0, o1) =~= enc_str(v.path));
    lemma_rd_enc_str(s, i, v.path);
    lemma_subrange_at(s, i, whole, o1, o1 + 4);
    assert(whole.subrange(o1, o1 + 4) =~= enc_i32(v.version));
    lemma_rd_enc_i32(s, i + o1, v.version);
}

/// A set-data request: the full path, the new data, and the version
/// condition.
#[derive(Debug, Clone, PartialEq, Eq)]
pub struct SetDataRequest {
    pub path: String,
    pub data: Vec<u8>,
    pub version: i32,
}

/// The view of a set-data request.
pub ghost struct SetDataRequestV {
    pub path: Seq<char>,
    pub data: Seq<u8>,
    pub version: i32,
}

impl View for SetDataRequest {
    type V = SetDataRequestV;

    open spec fn view(&self) -> SetDataRequestV {
        SetDataRequestV { path: self.path@, data: self.data@, version: self.version }
    }
}

impl SetDataRequestV {
    pub open spec fn wire_ok(self) -> bool {
        str_ok(self.path) && self.data.len() <= WIRE_LEN_MAX
    }

    pub open spec fn enc(self) -> Seq<u8> {
        enc_str(self.path) + enc_bytes(self.data) + enc_i32(self.version)
    }

    pub open spec fn rd(s: Seq<u8>, i: int) -> Option<(SetDataRequestV, int)> {
        match rd_str(s, i) {
            Some((path, j1)) => match rd_bytes(s, j1) {
                Some((data, j2)) => match rd_i32(s, j2) {
                    Some((version, j3)) => Some((SetDataRequestV { path, data, version }, j3)),
                    None => None,
                },
                None => None,
            },
            None => None,
        }
    }
}

impl SetDataRequest {
    pub fn new(path: String, data: &[u8], version: i32) -> (r: SetDataRequest)
        ensures
            r@ == (SetDataRequestV { path: path@, data: data@, version }),
    {
        SetDataRequest { path, data: vstd::slice::slice_to_vec(data), version }
    }

    pub fn write(&self, b: &mut Vec<u8>)
        requires
            self@.wire_ok(),
        ensures
            final(b)@ == old(b)@ + self@.enc(),
    {
        write_str(b, self.path.as_str());
        write_bytes(b, self.data.as_slice());
        write_i32(b, self.version);
        proof {
            assert(b@ =~= old(b)@ + self@.enc());
        }
    }

    pub fn read(b: &Vec<u8>, pos: usize) -> (r: Option<(SetDataRequest, usize)>)
        ensures
            (match r {
                Some((v, j)) => SetDataRequestV::rd(b@, pos as int) == Some((v@, j as int)),
                None => SetDataRequestV::rd(b@, pos as int) is None,
            }),
    {
        match read_str(b, pos) {
            Some((path, j1)) => match read_bytes(b, j1) {
                Some((data, j2)) => match read_i32(b, j2) {
                    Some((version, j3)) => Some((SetDataRequest { path, data, version }, j3)),
                    None => None,
                },
                None => None,
            },
            None => None,
        }
    }
}

/// A set-data request's encoding reads back as the request itself.
pub proof fn lemma_rd_enc_set_data_req(s: Seq<u8>, i: int, v: SetDataRequestV)
    requires
        0 <= i,
        v.wire_ok(),
        i + v.enc().len() <= s.len(),
        s.subrange(i, i + v.enc().len()) == v.enc(),
    ensures
        SetDataRequestV::rd(s, i) == Some((v, i + v.enc().len())),
{
    let whole = v.enc();
    let o1 = enc_str(v.path).len() as int;
    let o2 = o1 + enc_bytes(v.data).len() as int;
    let o3 = o2 + 4;
    lemma_subrange_at(s, i, whole, 0, o1);
    assert(whole.subrange(0, o1) =~= enc_str(v.path));
    lemma_rd_enc_str(s, i, v.path);
    lemma_subrange_at(s, i, whole, o1, o2);
    assert(whole.subrange(o1, o2) =~= enc_bytes(v.data));
    lemma_rd_enc_bytes(s, i + o1, v.data);
    lemma_subrange_at(s, i, whole, o2, o3);
    assert(whole.subrange(o2, o3) =~= enc_i32(v.version));
    lemma_rd_enc_i32(s, i + o2, v.version);
}

/// A path-and-watch request, shared by the get-data, exists, and
/// get-children operations.
#[derive(Debug, Clone, PartialEq, Eq)]
pub struct PathAndWatchRequest {
    pub path: String,
    pub watch: bool,
}

/// The view of a path-and-watch request.
pub ghost struct PathAndWatchRequestV {
    pub path: Seq<char>,
    pub watch: bool,
}

impl View for PathAndWatchRequest {
    type V = PathAndWatchRequestV;

    open spec fn view(&self) -> PathAndWatchRequestV {
        PathAndWatchRequestV { path: self.path@, watch: self.watch }
    }
}

impl PathAndWatchRequestV {
    pub open spec fn wire_ok(self) -> bool {
        str_ok(self.path)
    }

    pub open spec fn enc(self) -> Seq<u8> {
        enc_str(self.path) + enc_bool(self.watch)
    }

    pub open spec fn rd(s: Seq<u8>, i: int) -> Option<(PathAndWatchRequestV, int)> {
        match rd_str(s, i) {
            Some((path, j1)) => match rd_bool(s, j1) {
                Some((watch, j2)) => Some((PathAndWatchRequestV { path, watch }, j2)),
                None => None,
            },
            None => None,
        }
    }
}

impl PathAndWatchRequest {
    pub fn new(path: String, watch: bool) -> (r: PathAndWatchRequest)
        ensures
            r@ == (PathAndWatchRequestV { path: path@, watch }),
    {
        PathAndWatchRequest { path, watch }
    }

    pub fn write(&self, b: &mut Vec<u8>)
        requires
            self@.wire_ok(),
        ensures
            final(b)@ == old(b)@ + self@.enc(),
    {
        write_str(b, self.path.as_str());
        write_bool(b, self.watch);
        proof {
            assert(b@ =~= old(b)@ + self@.enc());
        }
    }

    pub fn read(b: &Vec<u8>, pos: usize) -> (r: Option<(PathAndWatchRequest, usize)>)
        ensures
            (match r {
                Some((v, j)) => PathAndWatchRequestV::rd(b@, pos as int) == Some((v@, j as int)),
                None => PathAndWatchRequestV::rd(b@, pos as int) is None,
            }),
    {
        match read_str(b, pos) {
            Some((path, j1)) => match read_bool(b, j1) {
                Some((watch, j2)) => Some((PathAndWatchRequest { path, watch }, j2)),
                None => None,
            },
            None => None,
        }
    }
}

/// A path-and-watch request's encoding reads back as the request itself.
pub proof fn lemma_rd_enc_path_watch_req(s: Seq<u8>, i: int, v: PathAndWatchRequestV)
    requires
        0 <= i,
        v.wire_ok(),
        i + v.enc().len() <= s.len(),
        s.subrange(i, i + v.enc().len()) == v.enc(),
    ensures
        PathAndWatchRequestV::rd(s, i) == Some((v, i + v.enc().len())),
{
    let whole = v.enc();
    let o1 = enc_str(v.path).len() as int;
    lemma_subrange_at(s, i, whole, 0, o1);
    assert(whole.subrange(0, o1) =~= enc_str(v.path));
    lemma_rd_enc_str(s, i, v.path);
    lemma_subrange_at(s, i, whole, o1, o1 + 1);
    assert(whole.subrange(o1, o1 + 1) =~= enc_bool(v.watch));
    lemma_rd_enc_bool(s, i + o1, v.watch);
}

/// A bare path request, shared by the get-ACL, get-ephemerals, and
/// children-count operations.
#[derive(Debug, Clone, PartialEq, Eq)]
pub struct PathRequest {
    pub path: String,
}

/// The view of a bare path request.
pub ghost struct PathRequestV {
    pub path: Seq<char>,
}

impl View for PathRequest {
    type V = PathRequestV;

    open spec fn view(&self) -> PathRequestV {
        PathRequestV { path: self.path@ }
    }
}

impl PathRequestV {
    pub open spec fn wire_ok(self) -> bool {
        str_ok(self.path)
    }

    pub open spec fn enc(self) -> Seq<u8> {
        enc_str(self.path)
    }

    pub open spec fn rd(s: Seq<u8>, i: int) -> Option<(PathRequestV, int)> {
        match rd_str(s, i) {
            Some((path, j1)) => Some((PathRequestV { path }, j1)),
            None => None,
        }
    }
}

impl PathRequest {
    pub fn new(path: String) -> (r: PathRequest)
        ensures
            r@ == (PathRequestV { path: path@ }),
    {
        PathRequest { path }
    }

    pub fn write(&self, b: &mut Vec<u8>)
        requires
            self@.wire_ok(),
        ensures
            final(b)@ == old(b)@ + self@.enc(),
    {
        write_str(b, self.path.as_str());
    }

    pub fn read(b: &Vec<u8>, pos: usize) -> (r: Option<(PathRequest, usize)>)
        ensures
            (match r {
                Some((v, j)) => PathRequestV::rd(b@, pos as int) == Some((v@, j as int)),
                None => PathRequestV::rd(b@, pos as int) is None,
            }),
    {
        match read_str(b, pos) {
            Some((path, j1)) => Some((PathRequest { path }, j1)),
            None => None,
        }
    }
}

/// A bare path request's encoding reads back as the request itself.
pub proof fn lemma_rd_enc_path_req(s: Seq<u8>, i: int, v: PathRequestV)
    requires
        0 <= i,
        v.wire_ok(),
        i + v.enc().len() <= s.len(),
        s.subrange(i, i + v.enc().len()) == v.enc(),
    ensures
        PathRequestV::rd(s, i) == Some((v, i + v.enc().len())),
{
    lemma_rd_enc_str(s, i, v.path);
}

/// A set-ACL request: the full path, the new list, and the version
/// condition.
#[derive(Debug, Clone, PartialEq, Eq)]
pub struct SetACLRequest {
    pub path: String,
    pub acl_list: Vec<ACL>,
    pub version: i32,
}

/// The view of a set-ACL request.
pub ghost struct SetACLRequestV {
    pub path: Seq<char>,
    pub acl_list: Seq<AclV>,
    pub version: i32,
}

impl View for SetACLRequest {
    type V = SetACLRequestV;

    open spec fn view(&self) -> SetACLRequestV {
        SetACLRequestV { path: self.path@, acl_list: acls_v(self.acl_list@), version: self.version }
    }
}

impl SetACLRequestV {
    pub open spec fn wire_ok(self) -> bool {
        &&& str_ok(self.path)
        &&& self.acl_list.len() <= WIRE_LEN_MAX
        &&& forall|k: int| 0 <= k < self.acl_list.len() ==> (#[trigger] self.acl_list[k]).wire_ok()
    }

    pub open spec fn enc(self) -> Seq<u8> {
        enc_str(self.path) + enc_acl_vec(self.acl_list) + enc_i32(self.version)
    }

    pub open spec fn rd(s: Seq<u8>, i: int) -> Option<(SetACLRequestV, int)> {
        match rd_str(s, i) {
            Some((path, j1)) => match rd_acl_vec(s, j1) {
                Some((acl_list, j2)) => match rd_i32(s, j2) {
                    Some((version, j3)) => Some((SetACLRequestV { path, acl_list, version }, j3)),
                    None => None,
                },
                None => None,
            },
            None => None,
        }
    }
}

impl SetACLRequest {
    pub fn new(path: String, acl_list: Vec<ACL>, version: i32) -> (r: SetACLRequest)
        ensures
            r@ == (SetACLRequestV { path: path@, acl_list: acls_v(acl_list@), version }),
    {
        SetACLRequest { path, acl_list, version }
    }

    pub fn write(&self, b: &mut Vec<u8>)
        requires
            self@.wire_ok(),
        ensures
            final(b)@ == old(b)@ + self@.enc(),
    {
        write_str(b, self.path.as_str());
        proof {
            assert forall|k: int| 0 <= k < self.acl_list@.len() implies (
            #[trigger] self.acl_list@[k])@.wire_ok() by {
                assert(self@.acl_list[k] == self.acl_list@[k]@);
            }
        }
        write_acl_vec(b, &self.acl_list);
        write_i32(b, self.version);
        proof {
            assert(b@ =~= old(b)@ + self@.enc());
        }
    }

    pub fn read(b: &Vec<u8>, pos: usize) -> (r: Option<(SetACLRequest, usize)>)
        ensures
            (match r {
                Some((v, j)) => SetACLRequestV::rd(b@, pos as int) == Some((v@, j as int)),
                None => SetACLRequestV::rd(b@, pos as int) is None,
            }),
    {
        match read_str(b, pos) {
            Some((path, j1)) => match read_acl_vec(b, j1) {
                Some((acl_list, j2)) => match read_i32(b, j2) {
                    Some((version, j3)) => Some((SetACLRequest { path, acl_list, version }, j3)),
                    None => None,
                },
                None => None,
            },
            None => None,
        }
    }
}

/// A set-ACL request's encoding reads back as the request itself.
pub proof fn lemma_rd_enc_set_acl_req(s: Seq<u8>, i: int, v: SetACLRequestV)
    requires
        0 <= i,
        v.wire_ok(),
        i + v.enc().len() <= s.len(),
        s.subrange(i, i + v.enc().len()) == v.enc(),
    ensures
        SetACLRequestV::rd(s, i) == Some((v, i + v.enc().len())),
{
    let whole = v.enc();
    let o1 = enc_str(v.path).len() as int;
    let o2 = o1 + enc_acl_vec(v.acl_list).len() as int;
    let o3 = o2 + 4;
    lemma_subrange_at(s, i, whole, 0, o1);
    assert(whole.subrange(0, o1) =~= enc_str(v.path));
    lemma_rd_enc_str(s, i, v.path);
    lemma_subrange_at(s, i, whole, o1, o2);
    assert(whole.subrange(o1, o2) =~= enc_acl_vec(v.acl_list));
    lemma_rd_enc_acl_vec(s, i + o1, v.acl_list);
    lemma_subrange_at(s, i, whole, o2, o3);
    assert(whole.subrange(o2, o3) =~= enc_i32(v.version));
    lemma_rd_enc_i32(s, i + o2, v.version);
}

/// An add-watch request: the full path and the persistent mode.
#[derive(Debug, Clone, PartialEq, Eq)]
pub struct AddWatchRequest {
    pub path: String,
    pub mode: i32,
}

/// The view of an add-watch request.
pub ghost struct AddWatchRequestV {
    pub path: Seq<char>,
    pub mode: i32,
}

impl View for AddWatchRequest {
    type V = AddWatchRequestV;

    open spec fn view(&self) -> AddWatchRequestV {
        AddWatchRequestV { path: self.path@, mode: self.mode }
    }
}

impl AddWatchRequestV {
    pub open spec fn wire_ok(self) -> bool {
        str_ok(self.path)
    }

    pub open spec fn enc(self) -> Seq<u8> {
        enc_str(self.path) + enc_i32(self.mode)
    }

    pub open spec fn rd(s: Seq<u8>, i: int) -> Option<(AddWatchRequestV, int)> {
        match rd_str(s, i) {
            Some((path, j1)) => match rd_i32(s, j1) {
                Some((mode, j2)) => Some((AddWatchRequestV { path, mode }, j2)),
                None => None,
            },
            None => None,
        }
    }
}

impl AddWatchRequest {
    pub fn new(path: String, mode: AddWatchMode) -> (r: AddWatchRequest)
        ensures
            r@ == (AddWatchRequestV { path: path@, mode: mode.spec_code() }),
    {
        AddWatchRequest { path, mode: mode.code() }
    }

    pub fn write(&self, b: &mut Vec<u8>)
        requires
            self@.wire_ok(),
        ensures
            final(b)@ == old(b)@ + self@.enc(),
    {
        write_str(b, self.path.as_str());
        write_i32(b, self.mode);
        proof {
            assert(b@ =~= old(b)@ + self@.enc());
        }
    }

    pub fn read(b: &Vec<u8>, pos: usize) -> (r: Option<(AddWatchRequest, usize)>)
        ensures
            (match r {
                Some((v, j)) => AddWatchRequestV::rd(b@, pos as int) == Some((v@, j as int)),
                None => AddWatchRequestV::rd(b@, pos as int) is None,
            }),
    {
        match read_str(b, pos) {
            Some((path, j1)) => match read_i32(b, j1) {
                Some((mode, j2)) => Some((AddWatchRequest { path, mode }, j2)),
                None => None,
            },
            None => None,
        }
    }
}

/// An add-watch request's encoding reads back as the request itself.
pub proof fn lemma_rd_enc_add_watch_req(s: Seq<u8>, i: int, v: AddWatchRequestV)
    requires
        0 <= i,
        v.wire_ok(),
        i + v.enc().len() <= s.len(),
        s.subrange(i, i + v.enc().len()) == v.enc(),
    ensures
        AddWatchRequestV::rd(s, i) == Some((v, i + v.enc().len())),
{
    let whole = v.enc();
    let o1 = enc_str(v.path).len() as int;
    lemma_subrange_at(s, i, whole, 0, o1);
    assert(whole.subrange(0, o1) =~= enc_str(v.path));
    lemma_rd_enc_str(s, i, v.path);
    lemma_subrange_at(s, i, whole, o1, o1 + 4);
    assert(whole.subrange(o1, o1 + 4) =~= enc_i32(v.mode));
    lemma_rd_enc_i32(s, i + o1, v.mode);
}

/// A check-watches request, the wire form a remove-watches operation
/// sends: the full path and the watcher kind.
#[derive(Debug, Clone, PartialEq, Eq)]
pub struct CheckWatchesRequest {
    pub path: String,
    pub watcher_type: i32,
}

/// The view of a check-watches request.
pub ghost struct CheckWatchesRequestV {
    pub path: Seq<char>,
    pub watcher_type: i32,
}

impl View for CheckWatchesRequest {
    type V = CheckWatchesRequestV;

    open spec fn view(&self) -> CheckWatchesRequestV {
        CheckWatchesRequestV { path: self.path@, watcher_type: self.watcher_type }
    }
}

impl CheckWatchesRequestV {
    pub open spec fn wire_ok(self) -> bool {
        str_ok(self.path)
    }

    pub open spec fn enc(self) -> Seq<u8> {
        enc_str(self.path) + enc_i32(self.watcher_type)
    }

    pub open spec fn rd(s: Seq<u8>, i: int) -> Option<(CheckWatchesRequestV, int)> {
        match rd_str(s, i) {
            Some((path, j1)) => match rd_i32(s, j1) {
                Some((watcher_type, j2)) => Some((CheckWatchesRequestV { path, watcher_type }, j2)),
                None => None,
            },
            None => None,
        }
    }
}

impl CheckWatchesRequest {
    pub fn new(path: String, watcher_type: WatcherType) -> (r: CheckWatchesRequest)
        ensures
            r@ == (CheckWatchesRequestV { path: path@, watcher_type: watcher_type.spec_code() }),
    {
        CheckWatchesRequest { path, watcher_type: watcher_type.code() }
    }

    pub fn write(&self, b: &mut Vec<u8>)
        requires
            self@.wire_ok(),
        ensures
            final(b)@ == old(b)@ + self@.enc(),
    {
        write_str(b, self.path.as_str());
        write_i32(b, self.watcher_type);
        proof {
            assert(b@ =~= old(b)@ + self@.enc());
        }
    }

    pub fn read(b: &Vec<u8>, pos: usize) -> (r: Option<(CheckWatchesRequest, usize)>)
        ensures
            (match r {
                Some((v, j)) => CheckWatchesRequestV::rd(b@, pos as int) == Some((v@, j as int)),
                None => CheckWatchesRequestV::rd(b@, pos as int) is None,
            }),
    {
        match read_str(b, pos) {
            Some((path, j1)) => match read_i32(b, j1) {
                Some((watcher_type, j2)) => Some(
                    (CheckWatchesRequest { path, watcher_type }, j2),
                ),
                None => None,
            },
            None => None,
        }
    }
}

/// A check-watches request's encoding reads back as the request itself.
pub proof fn lemma_rd_enc_check_watches_req(s: Seq<u8>, i: int, v: CheckWatchesRequestV)
    requires
        0 <= i,
        v.wire_ok(),
        i + v.enc().len() <= s.len(),
        s.subrange(i, i + v.enc().len()) == v.enc(),
    ensures
        CheckWatchesRequestV::rd(s, i) == Some((v, i + v.enc().len())),
{
    let whole = v.enc();
    let o1 = enc_str(v.path).len() as int;
    lemma_subrange_at(s, i, whole, 0, o1);
    assert(whole.subrange(0, o1) =~= enc_str(v.path));
    lemma_rd_enc_str(s, i, v.path);
    lemma_subrange_at(s, i, whole, o1, o1 + 4);
    assert(whole.subrange(o1, o1 + 4) =~= enc_i32(v.watcher_type));
    lemma_rd_enc_i32(s, i + o1, v.watcher_type);
}

/// The packet type that tells the sender task to drain and exit.
pub const DEATH_PTYPE: i8 = -1;

/// One entry of the outbound queue: an optional header, an optional
/// serialized body, and a packet type that distinguishes ordinary
/// requests from the shutdown sentinel.
#[derive(Debug)]
pub struct ReqPacket {
    pub ptype: i8,
    pub rh: Option<RequestHeader>,
    pub req: Option<Vec<u8>>,
}

impl ReqPacket {
    /// An ordinary request packet.
    pub fn new(rh: Option<RequestHeader>, req: Option<Vec<u8>>) -> (r: ReqPacket)
        ensures
            r.ptype == 0,
            r.rh == rh,
            (match (r.req, req) {
                (Some(a), Some(b)) => a@ == b@,
                (None, None) => true,
                _ => false,
            }),
    {
        ReqPacket { ptype: 0, rh, req }
    }

    /// The shutdown sentinel: the sender task exits when it sees it.
    pub fn death_request() -> (r: ReqPacket)
        ensures
            r.ptype == DEATH_PTYPE,
            r.rh is None,
            r.req is None,
    {
        ReqPacket { ptype: DEATH_PTYPE, rh: None, req: None }
    }
}

/// The scheme names and the world id are short ASCII strings; their
/// UTF-8 encodings have the same lengths and fit a wire field.
proof fn lemma_scheme_literal_facts()
    ensures
        encode_utf8("world"@).len() == 5,
        encode_utf8("anyone"@).len() == 6,
        encode_utf8("ip"@).len() == 2,
        encode_utf8("digest"@).len() == 6,
        "world"@.len() == 5,
        "anyone"@.len() == 6,
        "ip"@.len() == 2,
        "digest"@.len() == 6,
{
    reveal_strlit("world");
    reveal_strlit("anyone");
    reveal_strlit("ip");
    reveal_strlit("digest");
    vstd::utf8::is_ascii_chars_encode_utf8("world"@);
    vstd::utf8::is_ascii_chars_encode_utf8("anyone"@);
    vstd::utf8::is_ascii_chars_encode_utf8("ip"@);
    vstd::utf8::is_ascii_chars_encode_utf8("digest"@);
}

} // verus!
