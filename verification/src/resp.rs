//! Response records: the reply header, the handshake response, the node
//! stat, and the body of every reply the session can decode, each with
//! its wire encoding in both directions.

use vstd::prelude::*;
use vstd::utf8::encode_utf8;

use crate::codec::{
    enc_bool, enc_bytes, enc_i32, enc_i64, enc_str, enc_u32, lemma_enc_rd_i32, lemma_enc_rd_i64,
    lemma_rd_enc_bool, lemma_rd_enc_bytes, lemma_rd_enc_i32, lemma_rd_enc_i64, lemma_rd_enc_str,
    lemma_rd_enc_u32, lemma_subrange_at, rd_bool, rd_bytes, rd_i32, rd_i64, rd_str, rd_u32,
    read_bool, read_bytes, read_i32, read_i64, read_str, read_u32, u32_at, u64_at, write_bool,
    write_bytes, write_i32, write_i64, write_str, write_u32, WIRE_LEN_MAX,
};
use crate::req::str_ok;

verus! {

/// The reply header: the XID of the answered request, the server's
/// transaction id, and an error code, zero on success.
#[derive(Debug, Clone, Copy, PartialEq, Eq, Structural, Default)]
pub struct ReplyHeader {
    pub xid: i32,
    pub zxid: i64,
    pub err: i32,
}

impl ReplyHeader {
    pub open spec fn enc(self) -> Seq<u8> {
        enc_i32(self.xid) + enc_i64(self.zxid) + enc_i32(self.err)
    }

    pub open spec fn rd(s: Seq<u8>, i: int) -> Option<(ReplyHeader, int)> {
        if 0 <= i && i + 16 <= s.len() {
            Some(
                (
                    ReplyHeader {
                        xid: u32_at(s, i) as i32,
                        zxid: u64_at(s, i + 4) as i64,
                        err: u32_at(s, i + 12) as i32,
                    },
                    i + 16,
                ),
            )
        } else {
            None
        }
    }

    pub fn write(&self, b: &mut Vec<u8>)
        ensures
            final(b)@ == old(b)@ + self.enc(),
    {
        write_i32(b, self.xid);
        write_i64(b, self.zxid);
        write_i32(b, self.err);
        proof {
            assert(b@ =~= old(b)@ + self.enc());
        }
    }

    pub fn read(b: &Vec<u8>, pos: usize) -> (r: Option<(ReplyHeader, usize)>)
        ensures
            (match r {
                Some((v, j)) => ReplyHeader::rd(b@, pos as int) == Some((v, j as int)),
                None => ReplyHeader::rd(b@, pos as int) is None,
            }),
    {
        match read_i32(b, pos) {
            Some((xid, j1)) => match read_i64(b, j1) {
                Some((zxid, j2)) => match read_i32(b, j2) {
                    Some((err, j3)) => Some((ReplyHeader { xid, zxid, err }, j3)),
                    None => None,
                },
                None => None,
            },
            None => None,
        }
    }
}

/// The reply header's encoding reads back as the header itself.
pub proof fn lemma_rd_enc_reply_header(s: Seq<u8>, i: int, v: ReplyHeader)
    requires
        0 <= i,
        i + 16 <= s.len(),
        s.subrange(i, i + 16) == v.enc(),
    ensures
        ReplyHeader::rd(s, i) == Some((v, i + 16)),
{
    let whole = v.enc();
    lemma_subrange_at(s, i, whole, 0, 4);
    assert(whole.subrange(0, 4) =~= enc_i32(v.xid));
    lemma_rd_enc_i32(s, i, v.xid);
    lemma_subrange_at(s, i, whole, 4, 12);
    assert(whole.subrange(4, 12) =~= enc_i64(v.zxid));
    lemma_rd_enc_i64(s, i + 4, v.zxid);
    lemma_subrange_at(s, i, whole, 12, 16);
    assert(whole.subrange(12, 16) =~= enc_i32(v.err));
    lemma_rd_enc_i32(s, i + 12, v.err);
}

/// The handshake response: the negotiated timeout, the session the
/// server assigned, its password, and the read-only flag.
#[derive(Debug, Clone, PartialEq, Eq)]
pub struct ConnectResponse {
    pub protocol_version: i32,
    pub time_out: i32,
    pub session_id: i64,
    pub password: Vec<u8>,
    pub read_only: bool,
}

/// The view of a handshake response.
pub ghost struct ConnectResponseV {
    pub protocol_version: i32,
    pub time_out: i32,
    pub session_id: i64,
    pub password: Seq<u8>,
    pub read_only: bool,
}

impl View for ConnectResponse {
    type V = ConnectResponseV;

    open spec fn view(&self) -> ConnectResponseV {
        ConnectResponseV {
            protocol_version: self.protocol_version,
            time_out: self.time_out,
            session_id: self.session_id,
            password: self.password@,
            read_only: self.read_only,
        }
    }
}

impl ConnectResponseV {
    pub open spec fn wire_ok(self) -> bool {
        self.password.len() <= WIRE_LEN_MAX
    }

    pub open spec fn enc(self) -> Seq<u8> {
        enc_i32(self.protocol_version) + enc_i32(self.time_out) + enc_i64(self.session_id)
            + enc_bytes(self.password) + enc_bool(self.read_only)
    }

    pub open spec fn rd(s: Seq<u8>, i: int) -> Option<(ConnectResponseV, int)> {
        match rd_i32(s, i) {
            Some((protocol_version, j1)) => match rd_i32(s, j1) {
                Some((time_out, j2)) => match rd_i64(s, j2) {
                    Some((session_id, j3)) => match rd_bytes(s, j3) {
                        Some((password, j4)) => match rd_bool(s, j4) {
                            Some((read_only, j5)) => Some(
                                (
                                    ConnectResponseV {
                                        protocol_version,
                                        time_out,
                                        session_id,
                                        password,
                                        read_only,
                                    },
                                    j5,
                                ),
                            ),
                            None => None,
                        },
                        None => None,
                    },
                    None => None,
                },
                None => None,
            },
            None => None,
        }
    }
}

impl ConnectResponse {
    pub fn write(&self, b: &mut Vec<u8>)
        requires
            self@.wire_ok(),
        ensures
            final(b)@ == old(b)@ + self@.enc(),
    {
        write_i32(b, self.protocol_version);
        write_i32(b, self.time_out);
        write_i64(b, self.session_id);
        write_bytes(b, self.password.as_slice());
        write_bool(b, self.read_only);
        proof {
            assert(b@ =~= old(b)@ + self@.enc());
        }
    }

    pub fn read(b: &Vec<u8>, pos: usize) -> (r: Option<(ConnectResponse, usize)>)
        ensures
            (match r {
                Some((v, j)) => ConnectResponseV::rd(b@, pos as int) == Some((v@, j as int)),
                None => ConnectResponseV::rd(b@, pos as int) is None,
            }),
    {
        match read_i32(b, pos) {
            Some((protocol_version, j1)) => match read_i32(b, j1) {
                Some((time_out, j2)) => match read_i64(b, j2) {
                    Some((session_id, j3)) => match read_bytes(b, j3) {
                        Some((password, j4)) => match read_bool(b, j4) {
                            Some((read_only, j5)) => Some(
                                (
                                    ConnectResponse {
                                        protocol_version,
                                        time_out,
                                        session_id,
                                        password,
                                        read_only,
                                    },
                                    j5,
                                ),
                            ),
                            None => None,
                        },
                        None => None,
                    },
                    None => None,
                },
                None => None,
            },
            None => None,
        }
    }
}

/// The handshake response's encoding reads back as the response itself.
pub proof fn lemma_rd_enc_connect_resp(s: Seq<u8>, i: int, v: ConnectResponseV)
    requires
        0 <= i,
        v.wire_ok(),
        i + v.enc().len() <= s.len(),
        s.subrange(i, i + v.enc().len()) == v.enc(),
    ensures
        ConnectResponseV::rd(s, i) == Some((v, i + v.enc().len())),
{
    let whole = v.enc();
    let o1: int = 4;
    let o2: int = o1 + 4;
    let o3: int = o2 + 8;
    let o4: int = o3 + enc_bytes(v.password).len() as int;
    let o5: int = o4 + 1;
    lemma_subrange_at(s, i, whole, 0, o1);
    assert(whole.subrange(0, o1) =~= enc_i32(v.protocol_version));
    lemma_rd_enc_i32(s, i, v.protocol_version);
    lemma_subrange_at(s, i, whole, o1, o2);
    assert(whole.subrange(o1, o2) =~= enc_i32(v.time_out));
    lemma_rd_enc_i32(s, i + o1, v.time_out);
    lemma_subrange_at(s, i, whole, o2, o3);
    assert(whole.subrange(o2, o3) =~= enc_i64(v.session_id));
    lemma_rd_enc_i64(s, i + o2, v.session_id);
    lemma_subrange_at(s, i, whole, o3, o4);
    assert(whole.subrange(o3, o4) =~= enc_bytes(v.password));
    lemma_rd_enc_bytes(s, i + o3, v.password);
    lemma_subrange_at(s, i, whole, o4, o5);
    assert(whole.subrange(o4, o5) =~= enc_bool(v.read_only));
    lemma_rd_enc_bool(s, i + o4, v.read_only);
}

/// A create reply: the path of the node the server made.
#[derive(Debug, Clone, PartialEq, Eq)]
pub struct CreateResponse {
    pub path: String,
}

/// The view of a create reply.
pub ghost struct CreateResponseV {
    pub path: Seq<char>,
}

impl View for CreateResponse {
    type V = CreateResponseV;

    open spec fn view(&self) -> CreateResponseV {
        CreateResponseV { path: self.path@ }
    }
}

impl CreateResponseV {
    pub open spec fn wire_ok(self) -> bool {
        str_ok(self.path)
    }

    pub open spec fn enc(self) -> Seq<u8> {
        enc_str(self.path)
    }

    pub open spec fn rd(s: Seq<u8>, i: int) -> Option<(CreateResponseV, int)> {
        match rd_str(s, i) {
            Some((path, j1)) => Some((CreateResponseV { path }, j1)),
            None => None,
        }
    }
}

impl CreateResponse {
    pub fn write(&self, b: &mut Vec<u8>)
        requires
            self@.wire_ok(),
        ensures
            final(b)@ == old(b)@ + self@.enc(),
    {
        write_str(b, self.path.as_str());
    }

    pub fn read(b: &Vec<u8>, pos: usize) -> (r: Option<(CreateResponse, usize)>)
        ensures
            (match r {
                Some((v, j)) => CreateResponseV::rd(b@, pos as int) == Some((v@, j as int)),
                None => CreateResponseV::rd(b@, pos as int) is None,
            }),
    {
        match read_str(b, pos) {
            Some((path, j1)) => Some((CreateResponse { path }, j1)),
            None => None,
        }
    }
}

/// A create reply's encoding reads back as the reply itself.
pub proof fn lemma_rd_enc_create_resp(s: Seq<u8>, i: int, v: CreateResponseV)
    requires
        0 <= i,
        v.wire_ok(),
        i + v.enc().len() <= s.len(),
        s.subrange(i, i + v.enc().len()) == v.enc(),
    ensures
        CreateResponseV::rd(s, i) == Some((v, i + v.enc().len())),
{
    lemma_rd_enc_str(s, i, v.path);
}

/// The fixed metadata record of a node: creation and modification
/// transaction ids and timestamps, version counters, the owner of an
/// ephemeral node, and child counts. Its wire form is 68 bytes.
#[derive(Debug, Clone, Copy, PartialEq, Eq, Structural, Default)]
pub struct Stat {
    pub czxid: i64,
    pub mzxid: i64,
    pub ctime: i64,
    pub mtime: i64,
    pub version: i32,
    pub cversion: i32,
    pub aversion: i32,
    pub ephemeral_owner: i64,
    pub data_length: i32,
    pub num_children: i32,
    pub pzxid: i64,
}

impl Stat {
    pub open spec fn enc(self) -> Seq<u8> {
        enc_i64(self.czxid) + enc_i64(self.mzxid) + enc_i64(self.ctime) + enc_i64(self.mtime)
            + enc_i32(self.version) + enc_i32(self.cversion) + enc_i32(self.aversion) + enc_i64(
            self.ephemeral_owner,
        ) + enc_i32(self.data_length) + enc_i32(self.num_children) + enc_i64(self.pzxid)
    }

    pub open spec fn rd(s: Seq<u8>, i: int) -> Option<(Stat, int)> {
        if 0 <= i && i + 68 <= s.len() {
            Some(
                (
                    Stat {
                        czxid: u64_at(s, i) as i64,
                        mzxid: u64_at(s, i + 8) as i64,
                        ctime: u64_at(s, i + 16) as i64,
                        mtime: u64_at(s, i + 24) as i64,
                        version: u32_at(s, i + 32) as i32,
                        cversion: u32_at(s, i + 36) as i32,
                        aversion: u32_at(s, i + 40) as i32,
                        ephemeral_owner: u64_at(s, i + 44) as i64,
                        data_length: u32_at(s, i + 52) as i32,
                        num_children: u32_at(s, i + 56) as i32,
                        pzxid: u64_at(s, i + 60) as i64,
                    },
                    i + 68,
                ),
            )
        } else {
            None
        }
    }

    pub fn write(&self, b: &mut Vec<u8>)
        ensures
            final(b)@ == old(b)@ + self.enc(),
    {
        write_i64(b, self.czxid);
        write_i64(b, self.mzxid);
        write_i64(b, self.ctime);
        write_i64(b, self.mtime);
        write_i32(b, self.version);
        write_i32(b, self.cversion);
        write_i32(b, self.aversion);
        write_i64(b, self.ephemeral_owner);
        write_i32(b, self.data_length);
        write_i32(b, self.num_children);
        write_i64(b, self.pzxid);
        proof {
            assert(b@ =~= old(b)@ + self.enc());
        }
    }

    pub fn read(b: &Vec<u8>, pos: usize) -> (r: Option<(Stat, usize)>)
        ensures
            (match r {
                Some((v, j)) => Stat::rd(b@, pos as int) == Some((v, j as int)),
                None => Stat::rd(b@, pos as int) is None,
            }),
    {
        match read_i64(b, pos) {
            Some((czxid, j1)) => match read_i64(b, j1) {
                Some((mzxid, j2)) => match read_i64(b, j2) {
                    Some((ctime, j3)) => match read_i64(b, j3) {
                        Some((mtime, j4)) => match read_i32(b, j4) {
                            Some((version, j5)) => match read_i32(b, j5) {
                                Some((cversion, j6)) => match read_i32(b, j6) {
                                    Some((aversion, j7)) => match read_i64(b, j7) {
                                        Some((ephemeral_owner, j8)) => match read_i32(b, j8) {
                                            Some((data_length, j9)) => match read_i32(b, j9) {
                                                Some((num_children, j10)) => match read_i64(
                                                    b,
                                                    j10,
                                                ) {
                                                    Some((pzxid, j11)) => Some(
                                                        (
                                                            Stat {
                                                                czxid,
                                                                mzxid,
                                                                ctime,
                                                                mtime,
                                                                version,
                                                                cversion,
                                                                aversion,
                                                                ephemeral_owner,
                                                                data_length,
                                                                num_children,
                                                                pzxid,
                                                            },
                                                            j11,
                                                        ),
                                                    ),
                                                    None => None,
                                                },
                                                None => None,
                                            },
                                            None => None,
                                        },
                                        None => None,
                                    },
                                    None => None,
                                },
                                None => None,
                            },
                            None => None,
                        },
                        None => None,
                    },
                    None => None,
                },
                None => None,
            },
            None => None,
        }
    }
}

/// A stat's encoding reads back as the stat itself.
pub proof fn lemma_rd_enc_stat(s: Seq<u8>, i: int, v: Stat)
    requires
        0 <= i,
        i + 68 <= s.len(),
        s.subrange(i, i + 68) == v.enc(),
    ensures
        Stat::rd(s, i) == Some((v, i + 68)),
{
    let whole = v.enc();
    lemma_subrange_at(s, i, whole, 0, 8);
    assert(whole.subrange(0, 8) =~= enc_i64(v.czxid));
    lemma_rd_enc_i64(s, i, v.czxid);
    lemma_subrange_at(s, i, whole, 8, 16);
    assert(whole.subrange(8, 16) =~= enc_i64(v.mzxid));
    lemma_rd_enc_i64(s, i + 8, v.mzxid);
    lemma_subrange_at(s, i, whole, 16, 24);
    assert(whole.subrange(16, 24) =~= enc_i64(v.ctime));
    lemma_rd_enc_i64(s, i + 16, v.ctime);
    lemma_subrange_at(s, i, whole, 24, 32);
    assert(whole.subrange(24, 32) =~= enc_i64(v.mtime));
    lemma_rd_enc_i64(s, i + 24, v.mtime);
    lemma_subrange_at(s, i, whole, 32, 36);
    assert(whole.subrange(32, 36) =~= enc_i32(v.version));
    lemma_rd_enc_i32(s, i + 32, v.version);
    lemma_subrange_at(s, i, whole, 36, 40);
    assert(whole.subrange(36, 40) =~= enc_i32(v.cversion));
    lemma_rd_enc_i32(s, i + 36, v.cversion);
    lemma_subrange_at(s, i, whole, 40, 44);
    assert(whole.subrange(40, 44) =~= enc_i32(v.aversion));
    lemma_rd_enc_i32(s, i + 40, v.aversion);
    lemma_subrange_at(s, i, whole, 44, 52);
    assert(whole.subrange(44, 52) =~= enc_i64(v.ephemeral_owner));
    lemma_rd_enc_i64(s, i + 44, v.ephemeral_owner);
    lemma_subrange_at(s, i, whole, 52, 56);
    assert(whole.subrange(52, 56) =~= enc_i32(v.data_length));
    lemma_rd_enc_i32(s, i + 52, v.data_length);
    lemma_subrange_at(s, i, whole, 56, 60);
    assert(whole.subrange(56, 60) =~= enc_i32(v.num_children));
    lemma_rd_enc_i32(s, i + 56, v.num_children);
    lemma_subrange_at(s, i, whole, 60, 68);
    assert(whole.subrange(60, 68) =~= enc_i64(v.pzxid));
    lemma_rd_enc_i64(s, i + 60, v.pzxid);
}

/// Re-encoding a decoded stat reproduces the 68 bytes it was read from.
#[verifier::rlimit(60)]
pub proof fn lemma_enc_rd_stat(s: Seq<u8>, i: int)
    requires
        0 <= i,
        i + 68 <= s.len(),
    ensures
        Stat::rd(s, i) matches Some((v, j)) && v.enc() == s.subrange(i, i + 68),
{
    lemma_enc_rd_i64(s, i);
    lemma_enc_rd_i64(s, i + 8);
    lemma_enc_rd_i64(s, i + 16);
    lemma_enc_rd_i64(s, i + 24);
    lemma_enc_rd_i32(s, i + 32);
    lemma_enc_rd_i32(s, i + 36);
    lemma_enc_rd_i32(s, i + 40);
    lemma_enc_rd_i64(s, i + 44);
    lemma_enc_rd_i32(s, i + 52);
    lemma_enc_rd_i32(s, i + 56);
    lemma_enc_rd_i64(s, i + 60);
    let v = Stat::rd(s, i).unwrap().0;
    assert(v.enc() =~= s.subrange(i, i + 68));
}

/// The views of a list of strings.
pub open spec fn strs_v(v: Seq<String>) -> Seq<Seq<char>> {
    Seq::new(v.len(), |i: int| v[i]@)
}

/// Every string in a list fits a wire field.
pub open spec fn strs_ok(s: Seq<Seq<char>>) -> bool {
    &&& s.len() <= WIRE_LEN_MAX
    &&& forall|k: int| 0 <= k < s.len() ==> str_ok(#[trigger] s[k])
}

/// Strings one after another, with nothing between them.
pub open spec fn enc_str_items(s: Seq<Seq<char>>) -> Seq<u8>
    decreases s.len(),
{
    if s.len() == 0 {
        Seq::empty()
    } else {
        enc_str(s[0]) + enc_str_items(s.drop_first())
    }
}

/// A list of strings: `-1` for an empty list, else the count followed by
/// the strings.
pub open spec fn enc_str_vec(s: Seq<Seq<char>>) -> Seq<u8> {
    if s.len() == 0 {
        enc_i32(-1i32)
    } else {
        enc_u32(s.len() as u32) + enc_str_items(s)
    }
}

/// Reads exactly `n` strings.
pub open spec fn rd_str_items(s: Seq<u8>, i: int, n: nat) -> Option<(Seq<Seq<char>>, int)>
    decreases n,
{
    if n == 0 {
        Some((Seq::empty(), i))
    } else {
        match rd_str(s, i) {
            Some((c, j)) => match rd_str_items(s, j, (n - 1) as nat) {
                Some((rest, k)) => Some((seq![c] + rest, k)),
                None => None,
            },
            None => None,
        }
    }
}

/// Reads a list of strings; a negative count other than `-1` is refused.
pub open spec fn rd_str_vec(s: Seq<u8>, i: int) -> Option<(Seq<Seq<char>>, int)> {
    match rd_i32(s, i) {
        Some((n, j)) => if n == -1 {
            Some((Seq::empty(), j))
        } else if n >= 0 {
            rd_str_items(s, j, n as nat)
        } else {
            None
        },
        None => None,
    }
}

/// Appends a list of strings in its wire form.
pub fn write_str_vec(b: &mut Vec<u8>, v: &Vec<String>)
    requires
        strs_ok(strs_v(v@)),
    ensures
        final(b)@ == old(b)@ + enc_str_vec(strs_v(v@)),
{
    if v.len() == 0 {
        write_i32(b, -1);
        proof {
            assert(b@ =~= old(b)@ + enc_str_vec(strs_v(v@)));
        }
        return ;
    }
    write_u32(b, v.len() as u32);
    let ghost views = strs_v(v@);
    let mut k: usize = 0;
    proof {
        assert(views.take(0) =~= Seq::<Seq<char>>::empty());
    }
    while k < v.len()
        invariant
            k <= v@.len(),
            views == strs_v(v@),
            strs_ok(views),
            b@ == old(b)@ + enc_u32(v@.len() as u32) + enc_str_items(views.take(k as int)),
        decreases v@.len() - k,
    {
        proof {
            assert(views[k as int] == v@[k as int]@);
        }
        write_str(b, v[k].as_str());
        proof {
            lemma_enc_str_items_snoc(views, k as int);
            assert(b@ =~= old(b)@ + enc_u32(v@.len() as u32) + enc_str_items(
                views.take(k as int + 1),
            ));
        }
        k += 1;
    }
    proof {
        assert(views.take(v@.len() as int) =~= views);
    }
}

/// Reads a list of strings in its wire form.
pub fn read_str_vec(b: &Vec<u8>, pos: usize) -> (r: Option<(Vec<String>, usize)>)
    ensures
        (match r {
            Some((v, j)) => rd_str_vec(b@, pos as int) == Some((strs_v(v@), j as int)),
            None => rd_str_vec(b@, pos as int) is None,
        }),
{
    match read_i32(b, pos) {
        Some((n, j)) => {
            if n == -1 {
                let v: Vec<String> = Vec::new();
                proof {
                    assert(strs_v(v@) =~= Seq::<Seq<char>>::empty());
                }
                Some((v, j))
            } else if n >= 0 {
                let total = n as usize;
                let mut acc: Vec<String> = Vec::new();
                let mut cur = j;
                let mut k: usize = 0;
                proof {
                    assert(strs_v(acc@) =~= Seq::<Seq<char>>::empty());
                    match rd_str_items(b@, j as int, total as nat) {
                        Some((all, end)) => {
                            assert(strs_v(acc@) + all =~= all);
                        },
                        None => {},
                    }
                }
                loop
                    invariant
                        k <= total,
                        acc@.len() == k,
                        rd_str_vec(b@, pos as int) == rd_str_items(b@, j as int, total as nat),
                        (match rd_str_items(b@, j as int, total as nat) {
                            Some((all, end)) => rd_str_items(b@, cur as int, (total - k) as nat)
                                matches Some((rest, e2)) && all == strs_v(acc@) + rest && end == e2,
                            None => rd_str_items(b@, cur as int, (total - k) as nat) is None,
                        }),
                    decreases total - k,
                {
                    if k == total {
                        proof {
                            assert(strs_v(acc@) + Seq::<Seq<char>>::empty() =~= strs_v(acc@));
                        }
                        return Some((acc, cur));
                    }
                    match read_str(b, cur) {
                        Some((c, j2)) => {
                            let ghost prev = strs_v(acc@);
                            acc.push(c);
                            proof {
                                assert(strs_v(acc@) =~= prev + seq![acc@[k as int]@]);
                                lemma_rd_str_items_assoc(
                                    b@,
                                    cur as int,
                                    j2 as int,
                                    (total - k) as nat,
                                    acc@[k as int]@,
                                    prev,
                                );
                            }
                            cur = j2;
                            k += 1;
                        },
                        None => {
                            return None;
                        },
                    }
                }
            } else {
                None
            }
        },
        None => None,
    }
}

/// Appending one more string to a prefix appends its encoding.
proof fn lemma_enc_str_items_snoc(s: Seq<Seq<char>>, k: int)
    requires
        0 <= k < s.len(),
    ensures
        enc_str_items(s.take(k + 1)) == enc_str_items(s.take(k)) + enc_str(s[k]),
    decreases k,
{
    if k == 0 {
        let t = s.take(1);
        assert(t.len() == 1);
        assert(t[0] == s[0]);
        assert(t.drop_first() =~= Seq::<Seq<char>>::empty());
        assert(enc_str_items(Seq::<Seq<char>>::empty()) == Seq::<u8>::empty());
        assert(enc_str_items(t) == enc_str(t[0]) + enc_str_items(t.drop_first()));
        assert(enc_str_items(t) =~= enc_str(s[0]));
        assert(s.take(0) =~= Seq::<Seq<char>>::empty());
        assert(enc_str_items(s.take(0)) + enc_str(s[0]) =~= enc_str(s[0]));
    } else {
        let d = s.drop_first();
        lemma_enc_str_items_snoc(d, k - 1);
        assert(s.take(k + 1).drop_first() =~= d.take(k));
        assert(s.take(k).drop_first() =~= d.take(k - 1));
        assert(enc_str_items(s.take(k + 1)) == enc_str(s[0]) + enc_str_items(d.take(k)));
        assert(enc_str_items(s.take(k)) == enc_str(s[0]) + enc_str_items(d.take(k - 1)));
        assert(enc_str(s[0]) + (enc_str_items(d.take(k - 1)) + enc_str(d[k - 1])) =~= (enc_str(
            s[0],
        ) + enc_str_items(d.take(k - 1))) + enc_str(d[k - 1]));
        assert(d[k - 1] == s[k]);
    }
}

/// Reading one string and then `m - 1` more reads `m` in all.
proof fn lemma_rd_str_items_assoc(s: Seq<u8>, i: int, j: int, m: nat, c: Seq<char>, pre: Seq<
    Seq<char>,
>)
    requires
        m >= 1,
        rd_str(s, i) == Some((c, j)),
    ensures
        (match rd_str_items(s, i, m) {
            Some((all, e)) => rd_str_items(s, j, (m - 1) as nat) matches Some((rest, e2)) && all
                == seq![c] + rest && e == e2,
            None => rd_str_items(s, j, (m - 1) as nat) is None,
        }),
        (match rd_str_items(s, j, (m - 1) as nat) {
            Some((rest, e2)) => pre + (seq![c] + rest) =~= (pre + seq![c]) + rest,
            None => true,
        }),
{
}

/// A string list's encoding reads back as the list itself.
pub proof fn lemma_rd_enc_str_vec(s: Seq<u8>, i: int, v: Seq<Seq<char>>)
    requires
        0 <= i,
        strs_ok(v),
        i + enc_str_vec(v).len() <= s.len(),
        s.subrange(i, i + enc_str_vec(v).len()) == enc_str_vec(v),
    ensures
        rd_str_vec(s, i) == Some((v, i + enc_str_vec(v).len())),
{
    let whole = enc_str_vec(v);
    if v.len() == 0 {
        assert(whole =~= enc_i32(-1i32));
        lemma_rd_enc_i32(s, i, -1i32);
    } else {
        lemma_subrange_at(s, i, whole, 0, 4);
        assert(whole.subrange(0, 4) =~= enc_u32(v.len() as u32));
        lemma_rd_enc_u32(s, i, v.len() as u32);
        assert((v.len() as u32) as i32 == v.len() as i32);
        lemma_subrange_at(s, i, whole, 4, whole.len() as int);
        assert(whole.subrange(4, whole.len() as int) =~= enc_str_items(v));
        lemma_rd_enc_str_items(s, i + 4, v);
    }
}

/// Re-encoding a decoded string list reproduces the bytes it was read
/// from, wherever those bytes are some list's encoding.
pub proof fn lemma_enc_rd_str_vec(s: Seq<u8>, i: int, v: Seq<Seq<char>>)
    requires
        0 <= i,
        strs_ok(v),
        i + enc_str_vec(v).len() <= s.len(),
        s.subrange(i, i + enc_str_vec(v).len()) == enc_str_vec(v),
    ensures
        rd_str_vec(s, i) matches Some((w, j)) && enc_str_vec(w) == s.subrange(i, j),
{
    lemma_rd_enc_str_vec(s, i, v);
}

/// A run of encoded strings reads back as the strings themselves.
proof fn lemma_rd_enc_str_items(s: Seq<u8>, i: int, v: Seq<Seq<char>>)
    requires
        0 <= i,
        forall|k: int| 0 <= k < v.len() ==> str_ok(#[trigger] v[k]),
        i + enc_str_items(v).len() <= s.len(),
        s.subrange(i, i + enc_str_items(v).len()) == enc_str_items(v),
    ensures
        rd_str_items(s, i, v.len()) == Some((v, i + enc_str_items(v).len())),
    decreases v.len(),
{
    let whole = enc_str_items(v);
    if v.len() == 0 {
        assert(v =~= Seq::<Seq<char>>::empty());
    } else {
        let head = v[0];
        let first = enc_str(head);
        lemma_subrange_at(s, i, whole, 0, first.len() as int);
        assert(whole.subrange(0, first.len() as int) =~= first);
        lemma_rd_enc_str(s, i, head);
        let rest = enc_str_items(v.drop_first());
        lemma_subrange_at(s, i, whole, first.len() as int, whole.len() as int);
        assert(whole.subrange(first.len() as int, whole.len() as int) =~= rest);
        lemma_rd_enc_str_items(s, i + first.len(), v.drop_first());
        assert(seq![head] + v.drop_first() =~= v);
    }
}

/// A set-data reply: the stat of the node after the write.
#[derive(Debug, Clone, Copy, PartialEq, Eq, Structural, Default)]
pub struct SetDataResponse {
    pub stat: Stat,
}

impl SetDataResponse {
    pub open spec fn enc(self) -> Seq<u8> {
        self.stat.enc()
    }

    pub open spec fn rd(s: Seq<u8>, i: int) -> Option<(SetDataResponse, int)> {
        match Stat::rd(s, i) {
            Some((stat, j)) => Some((SetDataResponse { stat }, j)),
            None => None,
        }
    }

    pub fn write(&self, b: &mut Vec<u8>)
        ensures
            final(b)@ == old(b)@ + self.enc(),
    {
        self.stat.write(b);
    }

    pub fn read(b: &Vec<u8>, pos: usize) -> (r: Option<(SetDataResponse, usize)>)
        ensures
            (match r {
                Some((v, j)) => SetDataResponse::rd(b@, pos as int) == Some((v, j as int)),
                None => SetDataResponse::rd(b@, pos as int) is None,
            }),
    {
        match Stat::read(b, pos) {
            Some((stat, j)) => Some((SetDataResponse { stat }, j)),
            None => None,
        }
    }
}

/// A get-data reply: the node's bytes and its stat.
#[derive(Debug, Clone, PartialEq, Eq)]
pub struct GetDataResponse {
    pub data: Vec<u8>,
    pub stat: Stat,
}

/// The view of a get-data reply.
pub ghost struct GetDataResponseV {
    pub data: Seq<u8>,
    pub stat: Stat,
}

impl View for GetDataResponse {
    type V = GetDataResponseV;

    open spec fn view(&self) -> GetDataResponseV {
        GetDataResponseV { data: self.data@, stat: self.stat }
    }
}

impl GetDataResponseV {
    pub open spec fn wire_ok(self) -> bool {
        self.data.len() <= WIRE_LEN_MAX
    }

    pub open spec fn enc(self) -> Seq<u8> {
        enc_bytes(self.data) + self.stat.enc()
    }

    pub open spec fn rd(s: Seq<u8>, i: int) -> Option<(GetDataResponseV, int)> {
        match rd_bytes(s, i) {
            Some((data, j1)) => match Stat::rd(s, j1) {
                Some((stat, j2)) => Some((GetDataResponseV { data, stat }, j2)),
                None => None,
            },
            None => None,
        }
    }
}

impl GetDataResponse {
    pub fn write(&self, b: &mut Vec<u8>)
        requires
            self@.wire_ok(),
        ensures
            final(b)@ == old(b)@ + self@.enc(),
    {
        write_bytes(b, self.data.as_slice());
        self.stat.write(b);
        proof {
            assert(b@ =~= old(b)@ + self@.enc());
        }
    }

    pub fn read(b: &Vec<u8>, pos: usize) -> (r: Option<(GetDataResponse, usize)>)
        ensures
            (match r {
                Some((v, j)) => GetDataResponseV::rd(b@, pos as int) == Some((v@, j as int)),
                None => GetDataResponseV::rd(b@, pos as int) is None,
            }),
    {
        match read_bytes(b, pos) {
            Some((data, j1)) => match Stat::read(b, j1) {
                Some((stat, j2)) => Some((GetDataResponse { data, stat }, j2)),
                None => None,
            },
            None => None,
        }
    }
}

/// A get-data reply's encoding reads back as the reply itself.
pub proof fn lemma_rd_enc_get_data_resp(s: Seq<u8>, i: int, v: GetDataResponseV)
    requires
        0 <= i,
        v.wire_ok(),
        i + v.enc().len() <= s.len(),
        s.subrange(i, i + v.enc().len()) == v.enc(),
    ensures
        GetDataResponseV::rd(s, i) == Some((v, i + v.enc().len())),
{
    let whole = v.enc();
    let o1 = enc_bytes(v.data).len() as int;
    lemma_subrange_at(s, i, whole, 0, o1);
    assert(whole.subrange(0, o1) =~= enc_bytes(v.data));
    lemma_rd_enc_bytes(s, i, v.data);
    lemma_subrange_at(s, i, whole, o1, o1 + 68);
    assert(whole.subrange(o1, o1 + 68) =~= v.stat.enc());
    lemma_rd_enc_stat(s, i + o1, v.stat);
}

/// A children reply: the names of the node's children.
#[derive(Debug, Clone, PartialEq, Eq)]
pub struct PathListResponse {
    pub path_list: Vec<String>,
}

/// The view of a children reply.
pub ghost struct PathListResponseV {
    pub path_list: Seq<Seq<char>>,
}

impl View for PathListResponse {
    type V = PathListResponseV;

    open spec fn view(&self) -> PathListResponseV {
        PathListResponseV { path_list: strs_v(self.path_list@) }
    }
}

impl PathListResponseV {
    pub open spec fn wire_ok(self) -> bool {
        strs_ok(self.path_list)
    }

    pub open spec fn enc(self) -> Seq<u8> {
        enc_str_vec(self.path_list)
    }

    pub open spec fn rd(s: Seq<u8>, i: int) -> Option<(PathListResponseV, int)> {
        match rd_str_vec(s, i) {
            Some((path_list, j)) => Some((PathListResponseV { path_list }, j)),
            None => None,
        }
    }
}

impl PathListResponse {
    pub fn write(&self, b: &mut Vec<u8>)
        requires
            self@.wire_ok(),
        ensures
            final(b)@ == old(b)@ + self@.enc(),
    {
        write_str_vec(b, &self.path_list);
    }

    pub fn read(b: &Vec<u8>, pos: usize) -> (r: Option<(PathListResponse, usize)>)
        ensures
            (match r {
                Some((v, j)) => PathListResponseV::rd(b@, pos as int) == Some((v@, j as int)),
                None => PathListResponseV::rd(b@, pos as int) is None,
            }),
    {
        match read_str_vec(b, pos) {
            Some((path_list, j)) => Some((PathListResponse { path_list }, j)),
            None => None,
        }
    }
}

/// A children reply's encoding reads back as the reply itself.
pub proof fn lemma_rd_enc_path_list_resp(s: Seq<u8>, i: int, v: PathListResponseV)
    requires
        0 <= i,
        v.wire_ok(),
        i + v.enc().len() <= s.len(),
        s.subrange(i, i + v.enc().len()) == v.enc(),
    ensures
        PathListResponseV::rd(s, i) == Some((v, i + v.enc().len())),
{
    lemma_rd_enc_str_vec(s, i, v.path_list);
}

/// A children-with-stat reply: the names and the parent's stat.
#[derive(Debug, Clone, PartialEq, Eq)]
pub struct GetChildren2Response {
    pub path_list: Vec<String>,
    pub stat: Stat,
}

/// The view of a children-with-stat reply.
pub ghost struct GetChildren2ResponseV {
    pub path_list: Seq<Seq<char>>,
    pub stat: Stat,
}

impl View for GetChildren2Response {
    type V = GetChildren2ResponseV;

    open spec fn view(&self) -> GetChildren2ResponseV {
        GetChildren2ResponseV { path_list: strs_v(self.path_list@), stat: self.stat }
    }
}

impl GetChildren2ResponseV {
    pub open spec fn wire_ok(self) -> bool {
        strs_ok(self.path_list)
    }

    pub open spec fn enc(self) -> Seq<u8> {
        enc_str_vec(self.path_list) + self.stat.enc()
    }

    pub open spec fn rd(s: Seq<u8>, i: int) -> Option<(GetChildren2ResponseV, int)> {
        match rd_str_vec(s, i) {
            Some((path_list, j1)) => match Stat::rd(s, j1) {
                Some((stat, j2)) => Some((GetChildren2ResponseV { path_list, stat }, j2)),
                None => None,
            },
            None => None,
        }
    }
}

impl GetChildren2Response {
    pub fn write(&self, b: &mut Vec<u8>)
        requires
            self@.wire_ok(),
        ensures
            final(b)@ == old(b)@ + self@.enc(),
    {
        write_str_vec(b, &self.path_list);
        self.stat.write(b);
        proof {
            assert(b@ =~= old(b)@ + self@.enc());
        }
    }

    pub fn read(b: &Vec<u8>, pos: usize) -> (r: Option<(GetChildren2Response, usize)>)
        ensures
            (match r {
                Some((v, j)) => GetChildren2ResponseV::rd(b@, pos as int) == Some((v@, j as int)),
                None => GetChildren2ResponseV::rd(b@, pos as int) is None,
            }),
    {
        match read_str_vec(b, pos) {
            Some((path_list, j1)) => match Stat::read(b, j1) {
                Some((stat, j2)) => Some((GetChildren2Response { path_list, stat }, j2)),
                None => None,
            },
            None => None,
        }
    }
}

/// A children-with-stat reply's encoding reads back as the reply itself.
pub proof fn lemma_rd_enc_get_children2_resp(s: Seq<u8>, i: int, v: GetChildren2ResponseV)
    requires
        0 <= i,
        v.wire_ok(),
        i + v.enc().len() <= s.len(),
        s.subrange(i, i + v.enc().len()) == v.enc(),
    ensures
        GetChildren2ResponseV::rd(s, i) == Some((v, i + v.enc().len())),
{
    let whole = v.enc();
    let o1 = enc_str_vec(v.path_list).len() as int;
    lemma_subrange_at(s, i, whole, 0, o1);
    assert(whole.subrange(0, o1) =~= enc_str_vec(v.path_list));
    lemma_rd_enc_str_vec(s, i, v.path_list);
    lemma_subrange_at(s, i, whole, o1, o1 + 68);
    assert(whole.subrange(o1, o1 + 68) =~= v.stat.enc());
    lemma_rd_enc_stat(s, i + o1, v.stat);
}

/// A get-ACL reply: the node's ACL list and its stat.
#[derive(Debug, Clone, PartialEq, Eq)]
pub struct GetACLResponse {
    pub acl_list: Vec<crate::req::ACL>,
    pub stat: Stat,
}

/// The view of a get-ACL reply.
pub ghost struct GetACLResponseV {
    pub acl_list: Seq<crate::req::AclV>,
    pub stat: Stat,
}

impl View for GetACLResponse {
    type V = GetACLResponseV;

    open spec fn view(&self) -> GetACLResponseV {
        GetACLResponseV { acl_list: crate::req::acls_v(self.acl_list@), stat: self.stat }
    }
}

impl GetACLResponseV {
    pub open spec fn wire_ok(self) -> bool {
        &&& self.acl_list.len() <= WIRE_LEN_MAX
        &&& forall|k: int| 0 <= k < self.acl_list.len() ==> (#[trigger] self.acl_list[k]).wire_ok()
    }

    pub open spec fn enc(self) -> Seq<u8> {
        crate::req::enc_acl_vec(self.acl_list) + self.stat.enc()
    }

    pub open spec fn rd(s: Seq<u8>, i: int) -> Option<(GetACLResponseV, int)> {
        match crate::req::rd_acl_vec(s, i) {
            Some((acl_list, j1)) => match Stat::rd(s, j1) {
                Some((stat, j2)) => Some((GetACLResponseV { acl_list, stat }, j2)),
                None => None,
            },
            None => None,
        }
    }
}

impl GetACLResponse {
    pub fn write(&self, b: &mut Vec<u8>)
        requires
            self@.wire_ok(),
        ensures
            final(b)@ == old(b)@ + self@.enc(),
    {
        proof {
            assert forall|k: int| 0 <= k < self.acl_list@.len() implies (
            #[trigger] self.acl_list@[k])@.wire_ok() by {
                assert(self@.acl_list[k] == self.acl_list@[k]@);
            }
        }
        crate::req::write_acl_vec(b, &self.acl_list);
        self.stat.write(b);
        proof {
            assert(b@ =~= old(b)@ + self@.enc());
        }
    }

    pub fn read(b: &Vec<u8>, pos: usize) -> (r: Option<(GetACLResponse, usize)>)
        ensures
            (match r {
                Some((v, j)) => GetACLResponseV::rd(b@, pos as int) == Some((v@, j as int)),
                None => GetACLResponseV::rd(b@, pos as int) is None,
            }),
    {
        match crate::req::read_acl_vec(b, pos) {
            Some((acl_list, j1)) => match Stat::read(b, j1) {
                Some((stat, j2)) => Some((GetACLResponse { acl_list, stat }, j2)),
                None => None,
            },
            None => None,
        }
    }
}

/// A get-ACL reply's encoding reads back as the reply itself.
pub proof fn lemma_rd_enc_get_acl_resp(s: Seq<u8>, i: int, v: GetACLResponseV)
    requires
        0 <= i,
        v.wire_ok(),
        i + v.enc().len() <= s.len(),
        s.subrange(i, i + v.enc().len()) == v.enc(),
    ensures
        GetACLResponseV::rd(s, i) == Some((v, i + v.enc().len())),
{
    let whole = v.enc();
    let o1 = crate::req::enc_acl_vec(v.acl_list).len() as int;
    lemma_subrange_at(s, i, whole, 0, o1);
    assert(whole.subrange(0, o1) =~= crate::req::enc_acl_vec(v.acl_list));
    crate::req::lemma_rd_enc_acl_vec(s, i, v.acl_list);
    lemma_subrange_at(s, i, whole, o1, o1 + 68);
    assert(whole.subrange(o1, o1 + 68) =~= v.stat.enc());
    lemma_rd_enc_stat(s, i + o1, v.stat);
}

/// A children-count reply: how many descendants the node has.
#[derive(Debug, Clone, Copy, PartialEq, Eq, Structural, Default)]
pub struct GetAllChildrenNumberResponse {
    pub total_number: u32,
}

impl GetAllChildrenNumberResponse {
    pub open spec fn enc(self) -> Seq<u8> {
        enc_u32(self.total_number)
    }

    pub open spec fn rd(s: Seq<u8>, i: int) -> Option<(GetAllChildrenNumberResponse, int)> {
        match rd_u32(s, i) {
            Some((total_number, j)) => Some((GetAllChildrenNumberResponse { total_number }, j)),
            None => None,
        }
    }

    pub fn write(&self, b: &mut Vec<u8>)
        ensures
            final(b)@ == old(b)@ + self.enc(),
    {
        write_u32(b, self.total_number);
    }

    pub fn read(b: &Vec<u8>, pos: usize) -> (r: Option<(GetAllChildrenNumberResponse, usize)>)
        ensures
            (match r {
                Some((v, j)) => GetAllChildrenNumberResponse::rd(b@, pos as int) == Some(
                    (v, j as int),
                ),
                None => GetAllChildrenNumberResponse::rd(b@, pos as int) is None,
            }),
    {
        match read_u32(b, pos) {
            Some((total_number, j)) => Some((GetAllChildrenNumberResponse { total_number }, j)),
            None => None,
        }
    }
}

/// A notification as it stands on the wire: the event type, the keeper
/// state, and the path it is about.
#[derive(Debug, Clone, PartialEq, Eq)]
pub struct WatcherEvent {
    pub event_type: i32,
    pub keep_state: i32,
    pub path: String,
}

/// The view of a wire notification.
pub ghost struct WatcherEventV {
    pub event_type: i32,
    pub keep_state: i32,
    pub path: Seq<char>,
}

impl View for WatcherEvent {
    type V = WatcherEventV;

    open spec fn view(&self) -> WatcherEventV {
        WatcherEventV {
            event_type: self.event_type,
            keep_state: self.keep_state,
            path: self.path@,
        }
    }
}

impl WatcherEventV {
    pub open spec fn wire_ok(self) -> bool {
        str_ok(self.path)
    }

    pub open spec fn enc(self) -> Seq<u8> {
        enc_i32(self.event_type) + enc_i32(self.keep_state) + enc_str(self.path)
    }

    pub open spec fn rd(s: Seq<u8>, i: int) -> Option<(WatcherEventV, int)> {
        match rd_i32(s, i) {
            Some((event_type, j1)) => match rd_i32(s, j1) {
                Some((keep_state, j2)) => match rd_str(s, j2) {
                    Some((path, j3)) => Some((WatcherEventV { event_type, keep_state, path }, j3)),
                    None => None,
                },
                None => None,
            },
            None => None,
        }
    }
}

impl WatcherEvent {
    pub fn write(&self, b: &mut Vec<u8>)
        requires
            self@.wire_ok(),
        ensures
            final(b)@ == old(b)@ + self@.enc(),
    {
        write_i32(b, self.event_type);
        write_i32(b, self.keep_state);
        write_str(b, self.path.as_str());
        proof {
            assert(b@ =~= old(b)@ + self@.enc());
        }
    }

    pub fn read(b: &Vec<u8>, pos: usize) -> (r: Option<(WatcherEvent, usize)>)
        ensures
            (match r {
                Some((v, j)) => WatcherEventV::rd(b@, pos as int) == Some((v@, j as int)),
                None => WatcherEventV::rd(b@, pos as int) is None,
            }),
    {
        match read_i32(b, pos) {
            Some((event_type, j1)) => match read_i32(b, j1) {
                Some((keep_state, j2)) => match read_str(b, j2) {
                    Some((path, j3)) => Some((WatcherEvent { event_type, keep_state, path }, j3)),
                    None => None,
                },
                None => None,
            },
            None => None,
        }
    }
}

/// A wire notification's encoding reads back as the notification itself.
pub proof fn lemma_rd_enc_watcher_event(s: Seq<u8>, i: int, v: WatcherEventV)
    requires
        0 <= i,
        v.wire_ok(),
        i + v.enc().len() <= s.len(),
        s.subrange(i, i + v.enc().len()) == v.enc(),
    ensures
        WatcherEventV::rd(s, i) == Some((v, i + v.enc().len())),
{
    let whole = v.enc();
    lemma_subrange_at(s, i, whole, 0, 4);
    assert(whole.subrange(0, 4) =~= enc_i32(v.event_type));
    lemma_rd_enc_i32(s, i, v.event_type);
    lemma_subrange_at(s, i, whole, 4, 8);
    assert(whole.subrange(4, 8) =~= enc_i32(v.keep_state));
    lemma_rd_enc_i32(s, i + 4, v.keep_state);
    lemma_subrange_at(s, i, whole, 8, whole.len() as int);
    assert(whole.subrange(8, whole.len() as int) =~= enc_str(v.path));
    lemma_rd_enc_str(s, i + 8, v.path);
}

} // verus!
