//! The host provider: parses a connect string of the form
//! `host1:port1,host2:port2/chroot`, validates each endpoint, extracts
//! the chroot prefix, and hands endpoints out round-robin on reconnect.

use vstd::prelude::*;
use vstd::string::{StrSliceExecFns, StringExecFns};

use crate::error::{ServerInfo, ZKError};

verus! {

/// The index of the first `sep` in `s`, or `-1` if there is none.
pub open spec fn find_sep(s: Seq<char>, sep: char) -> int
    decreases s.len(),
{
    if s.len() == 0 {
        -1
    } else if s[0] == sep {
        0
    } else {
        let r = find_sep(s.drop_first(), sep);
        if r == -1 {
            -1
        } else {
            r + 1
        }
    }
}

/// `s` cut at every `sep`: one more part than separators, parts holding
/// no separator, in order.
pub open spec fn split_chars(s: Seq<char>, sep: char) -> Seq<Seq<char>>
    decreases s.len(),
{
    let i = find_sep(s, sep);
    if 0 <= i < s.len() {
        seq![s.take(i)] + split_chars(s.skip(i + 1), sep)
    } else {
        seq![s]
    }
}

/// A separator at `i` with none before it is the one `find_sep` finds.
pub proof fn lemma_find_sep_at(s: Seq<char>, sep: char, i: int)
    requires
        0 <= i < s.len(),
        s[i] == sep,
        forall|j: int| 0 <= j < i ==> s[j] != sep,
    ensures
        find_sep(s, sep) == i,
    decreases s.len(),
{
    if i == 0 {
    } else {
        let d = s.drop_first();
        assert(s[0] != sep);
        assert(d[i - 1] == s[i]);
        assert forall|j: int| 0 <= j < i - 1 implies d[j] != sep by {
            assert(d[j] == s[j + 1]);
        }
        lemma_find_sep_at(d, sep, i - 1);
    }
}

/// With no separator anywhere, `find_sep` finds none.
pub proof fn lemma_find_sep_none(s: Seq<char>, sep: char)
    requires
        forall|j: int| 0 <= j < s.len() ==> s[j] != sep,
    ensures
        find_sep(s, sep) == -1,
    decreases s.len(),
{
    if s.len() == 0 {
    } else {
        let d = s.drop_first();
        assert forall|j: int| 0 <= j < d.len() implies d[j] != sep by {
            assert(d[j] == s[j + 1]);
        }
        lemma_find_sep_none(d, sep);
    }
}

/// Cuts a string at every `sep`.
pub fn split_string(s: &str, sep: char) -> (parts: Vec<String>)
    ensures
        crate::resp::strs_v(parts@) == split_chars(s@, sep),
{
    let n = s.unicode_len();
    let mut parts: Vec<String> = Vec::new();
    let mut cursor: usize = 0;
    proof {
        assert(s@.skip(0) =~= s@);
        assert(crate::resp::strs_v(parts@) =~= Seq::<Seq<char>>::empty());
        assert(Seq::<Seq<char>>::empty() + split_chars(s@, sep) =~= split_chars(s@, sep));
    }
    loop
        invariant
            cursor <= n,
            n == s@.len(),
            split_chars(s@, sep) == crate::resp::strs_v(parts@) + split_chars(
                s@.skip(cursor as int),
                sep,
            ),
        decreases n - cursor,
    {
        let ghost suffix = s@.skip(cursor as int);
        let mut e: usize = cursor;
        while e < n && s.get_char(e) != sep
            invariant
                cursor <= e <= n,
                n == s@.len(),
                forall|j: int| cursor <= j < e ==> s@[j] != sep,
            decreases n - e,
        {
            e += 1;
        }
        let part = s.substring_char(cursor, e).to_owned();
        proof {
            assert(part@ =~= suffix.take(e - cursor as int));
        }
        let ghost prev = crate::resp::strs_v(parts@);
        parts.push(part);
        proof {
            assert(crate::resp::strs_v(parts@) =~= prev + seq![part@]);
        }
        if e == n {
            proof {
                assert forall|j: int| 0 <= j < suffix.len() implies suffix[j] != sep by {
                    assert(suffix[j] == s@[cursor + j]);
                }
                lemma_find_sep_none(suffix, sep);
                assert(suffix.take(e - cursor as int) =~= suffix);
                assert(split_chars(suffix, sep) =~= seq![suffix]);
                assert(prev + seq![part@] =~= crate::resp::strs_v(parts@));
            }
            return parts;
        }
        proof {
            assert(suffix[e - cursor as int] == s@[e as int]);
            assert forall|j: int| 0 <= j < e - cursor as int implies suffix[j] != sep by {
                assert(suffix[j] == s@[cursor + j]);
            }
            lemma_find_sep_at(suffix, sep, e - cursor as int);
            assert(suffix.skip(e - cursor as int + 1) =~= s@.skip(e as int + 1));
            assert(split_chars(suffix, sep) == seq![suffix.take(e - cursor as int)] + split_chars(
                s@.skip(e as int + 1),
                sep,
            ));
            assert(prev + (seq![part@] + split_chars(s@.skip(e as int + 1), sep)) =~= (prev + seq![
                part@,
            ]) + split_chars(s@.skip(e as int + 1), sep));
        }
        cursor = e + 1;
    }
}

/// A decimal digit.
pub open spec fn is_digit(c: char) -> bool {
    0x30 <= c as u32 <= 0x39
}

/// A non-empty string of decimal digits.
pub open spec fn is_digits(s: Seq<char>) -> bool {
    s.len() > 0 && forall|i: int| 0 <= i < s.len() ==> is_digit(#[trigger] s[i])
}

/// The number the digits spell, most significant first.
pub open spec fn digits_val(s: Seq<char>) -> int
    decreases s.len(),
{
    if s.len() == 0 {
        0
    } else {
        digits_val(s.drop_last()) * 10 + (s.last() as u32 - 0x30)
    }
}

/// Digit strings spell non-negative numbers.
pub proof fn lemma_digits_val_nonneg(s: Seq<char>)
    requires
        forall|i: int| 0 <= i < s.len() ==> is_digit(#[trigger] s[i]),
    ensures
        digits_val(s) >= 0,
    decreases s.len(),
{
    if s.len() > 0 {
        let d = s.drop_last();
        assert forall|i: int| 0 <= i < d.len() implies is_digit(#[trigger] d[i]) by {
            assert(d[i] == s[i]);
        }
        lemma_digits_val_nonneg(d);
    }
}

/// A prefix of a digit string spells no more than the whole.
pub proof fn lemma_digits_val_take_le(s: Seq<char>, i: int)
    requires
        forall|j: int| 0 <= j < s.len() ==> is_digit(#[trigger] s[j]),
        0 <= i <= s.len(),
    ensures
        digits_val(s.take(i)) <= digits_val(s),
    decreases s.len() - i,
{
    if i == s.len() {
        assert(s.take(i) =~= s);
    } else {
        let t = s.take(i + 1);
        assert(t.drop_last() =~= s.take(i));
        assert(t.last() == s[i]);
        assert forall|j: int| 0 <= j < s.take(i).len() implies is_digit(#[trigger] s.take(i)[j]) by {
            assert(s.take(i)[j] == s[j]);
        }
        lemma_digits_val_nonneg(s.take(i));
        assert(digits_val(t) == digits_val(s.take(i)) * 10 + (s[i] as u32 - 0x30));
        assert(digits_val(s.take(i)) <= digits_val(t));
        lemma_digits_val_take_le(s, i + 1);
    }
}

/// Reads a decimal number no larger than `max`; anything else is
/// refused.
pub fn parse_decimal(s: &str, max: u32) -> (r: Option<u32>)
    requires
        max <= 0xffff,
    ensures
        (match r {
            Some(v) => is_digits(s@) && digits_val(s@) == v && v <= max,
            None => !(is_digits(s@) && 0 <= digits_val(s@) <= max),
        }),
{
    let n = s.unicode_len();
    if n == 0 {
        return None;
    }
    let mut acc: u32 = 0;
    let mut k: usize = 0;
    proof {
        assert(s@.take(0) =~= Seq::<char>::empty());
    }
    while k < n
        invariant
            k <= n,
            n == s@.len(),
            max <= 0xffff,
            acc <= max,
            acc == digits_val(s@.take(k as int)),
            forall|j: int| 0 <= j < k ==> is_digit(#[trigger] s@[j]),
        decreases n - k,
    {
        let c = s.get_char(k);
        let u = c as u32;
        if u < 0x30 || u > 0x39 {
            return None;
        }
        let d = u - 0x30;
        let acc2 = acc * 10 + d;
        proof {
            let t = s@.take(k as int + 1);
            assert(t.drop_last() =~= s@.take(k as int));
            assert(t.last() == s@[k as int]);
            assert(digits_val(t) == digits_val(s@.take(k as int)) * 10 + (s@[k as int] as u32
                - 0x30));
        }
        if acc2 > max {
            proof {
                if is_digits(s@) {
                    lemma_digits_val_take_le(s@, k as int + 1);
                }
            }
            return None;
        }
        acc = acc2;
        k += 1;
    }
    proof {
        assert(s@.take(n as int) =~= s@);
    }
    Some(acc)
}

/// Whether a string is all decimal digits (and not empty).
fn is_digits_str(s: &str) -> (b: bool)
    ensures
        b == is_digits(s@),
{
    let n = s.unicode_len();
    if n == 0 {
        return false;
    }
    let mut k: usize = 0;
    while k < n
        invariant
            k <= n,
            n == s@.len(),
            forall|j: int| 0 <= j < k ==> is_digit(#[trigger] s@[j]),
        decreases n - k,
    {
        let u = s.get_char(k) as u32;
        if u < 0x30 || u > 0x39 {
            return false;
        }
        k += 1;
    }
    true
}

/// A valid port: a decimal number in `1..=65535`.
pub open spec fn port_ok(p: Seq<char>) -> bool {
    is_digits(p) && 1 <= digits_val(p) <= 65535
}

/// Every part of a list is a digit string.
pub open spec fn all_numeric(ls: Seq<Seq<char>>) -> bool {
    forall|k: int| 0 <= k < ls.len() ==> is_digits(#[trigger] ls[k])
}

/// A valid host: non-empty, and where every dotted label is numeric the
/// labels are IPv4 octets in `0..=255`; any other shape is an opaque
/// hostname.
pub open spec fn host_ok(h: Seq<char>) -> bool {
    &&& h.len() > 0
    &&& (all_numeric(split_chars(h, '.')) ==> forall|k: int|
        0 <= k < split_chars(h, '.').len() ==> digits_val(#[trigger] split_chars(h, '.')[k]) <= 255)
}

/// A valid endpoint: exactly one colon, a valid host before it and a
/// valid port after it.
pub open spec fn endpoint_ok(e: Seq<char>) -> bool {
    let parts = split_chars(e, ':');
    parts.len() == 2 && host_ok(parts[0]) && port_ok(parts[1])
}

/// The connect string cut at its (at most one) slash.
pub open spec fn connect_parts(cs: Seq<char>) -> Seq<Seq<char>> {
    split_chars(cs, '/')
}

/// The endpoints the connect string lists, in order.
pub open spec fn endpoints_of(cs: Seq<char>) -> Seq<Seq<char>> {
    split_chars(connect_parts(cs)[0], ',')
}

/// The chroot the connect string carries: `/` followed by what stands
/// after the slash, or `/` alone.
pub open spec fn chroot_of(cs: Seq<char>) -> Seq<char> {
    if connect_parts(cs).len() == 2 {
        seq!['/'] + connect_parts(cs)[1]
    } else {
        seq!['/']
    }
}

/// A valid connect string: at most one slash, and every listed endpoint
/// valid.
pub open spec fn connect_ok(cs: Seq<char>) -> bool {
    &&& connect_parts(cs).len() <= 2
    &&& forall|k: int|
        0 <= k < endpoints_of(cs).len() ==> endpoint_ok(#[trigger] endpoints_of(cs)[k])
}

/// Accepts exactly the valid endpoints, returning the address unchanged.
#[verifier::loop_isolation(false)]
pub fn validate_host(host: &str) -> (r: Result<String, ZKError>)
    ensures
        r is Ok <==> endpoint_ok(host@),
        r matches Ok(h) ==> h@ == host@,
        r matches Err(e) ==> e is ServerInfoError,
{
    let parts = split_string(host, ':');
    if parts.len() != 2 {
        return Err(
            ZKError::ServerInfoError(
                ServerInfo::Host,
                String::from_str("Host address format must be 'host:port'"),
            ),
        );
    }
    let ghost parts_v = split_chars(host@, ':');
    proof {
        assert(parts@[1]@ == parts_v[1]);
        assert(parts@[0]@ == parts_v[0]);
    }
    match parse_decimal(parts[1].as_str(), 65535) {
        Some(p) => {
            if p < 1 {
                return Err(
                    ZKError::ServerInfoError(
                        ServerInfo::Port,
                        String::from_str("Port must be between 1 and 65535"),
                    ),
                );
            }
        },
        None => {
            return Err(
                ZKError::ServerInfoError(
                    ServerInfo::Port,
                    String::from_str("Port must be a number between 1 and 65535"),
                ),
            );
        },
    }
    let hp = parts[0].as_str();
    if hp.unicode_len() == 0 {
        return Err(
            ZKError::ServerInfoError(ServerInfo::Host, String::from_str("Host must not be empty")),
        );
    }
    let labels = split_string(hp, '.');
    let ghost labels_v = split_chars(parts_v[0], '.');
    let mut all_num = true;
    let ghost mut bad: int = 0;
    let mut k: usize = 0;
    while k < labels.len()
        invariant
            k <= labels@.len(),
            crate::resp::strs_v(labels@) == labels_v,
            all_num ==> forall|j: int| 0 <= j < k ==> is_digits(#[trigger] labels_v[j]),
            !all_num ==> 0 <= bad < labels_v.len() && !is_digits(labels_v[bad]),
        decreases labels@.len() - k,
    {
        proof {
            assert(labels@[k as int]@ == labels_v[k as int]);
        }
        if !is_digits_str(labels[k].as_str()) {
            if all_num {
                all_num = false;
                proof {
                    bad = k as int;
                }
            }
        }
        k += 1;
    }
    if all_num {
        let mut m: usize = 0;
        while m < labels.len()
            invariant
                m <= labels@.len(),
                crate::resp::strs_v(labels@) == labels_v,
                all_numeric(labels_v),
                forall|j: int| 0 <= j < m ==> digits_val(#[trigger] labels_v[j]) <= 255,
            decreases labels@.len() - m,
        {
            proof {
                assert(labels@[m as int]@ == labels_v[m as int]);
            }
            match parse_decimal(labels[m].as_str(), 255) {
                Some(_) => {},
                None => {
                    proof {
                        lemma_digits_val_nonneg(labels_v[m as int]);
                    }
                    return Err(
                        ZKError::ServerInfoError(
                            ServerInfo::Ip,
                            String::from_str("An address label must be between 0 and 255"),
                        ),
                    );
                },
            }
            m += 1;
        }
    }
    Ok(host.to_owned())
}

/// Endpoints parsed from a connect string, handed out round-robin.
#[derive(Debug)]
pub struct HostProvider {
    server_list: Vec<String>,
    current_index: usize,
    server_len: usize,
}

impl HostProvider {
    /// A provider holds at least one endpoint and a cursor inside the
    /// list, whose recorded length is the list's.
    pub closed spec fn wf(self) -> bool {
        &&& self.server_len == self.server_list@.len()
        &&& self.server_len > 0
        &&& self.current_index < self.server_len
    }

    /// The endpoints, in connect-string order.
    pub closed spec fn servers(self) -> Seq<Seq<char>> {
        crate::resp::strs_v(self.server_list@)
    }

    /// The cursor: the next endpoint handed out.
    pub closed spec fn index(self) -> int {
        self.current_index as int
    }

    /// Parses and validates a connect string, returning the provider and
    /// the chroot it carries.
    #[verifier::loop_isolation(false)]
    pub fn new(connect_string: &str) -> (r: Result<(HostProvider, String), ZKError>)
        ensures
            r is Ok <==> connect_ok(connect_string@),
            r matches Ok((hp, chroot)) ==> {
                &&& hp.wf()
                &&& hp.servers() == endpoints_of(connect_string@)
                &&& hp.index() == 0
                &&& chroot@ == chroot_of(connect_string@)
            },
            r matches Err(e) ==> e is ServerInfoError,
    {
        let sl = split_string(connect_string, '/');
        if sl.len() > 2 {
            return Err(
                ZKError::ServerInfoError(
                    ServerInfo::Chroot,
                    String::from_str("The connect string holds more than one '/'"),
                ),
            );
        }
        let ghost sl_v = connect_parts(connect_string@);
        proof {
            assert(sl_v.len() >= 1);
            assert(sl@.len() == sl_v.len());
            assert(sl@[0]@ == sl_v[0]);
        }
        let endpoints = split_string(sl[0].as_str(), ',');
        let ghost eps = endpoints_of(connect_string@);
        let mut server_list: Vec<String> = Vec::new();
        let mut k: usize = 0;
        proof {
            assert(crate::resp::strs_v(server_list@) =~= eps.take(0));
        }
        while k < endpoints.len()
            invariant
                k <= endpoints@.len(),
                crate::resp::strs_v(endpoints@) == eps,
                crate::resp::strs_v(server_list@) == eps.take(k as int),
                forall|j: int| 0 <= j < k ==> endpoint_ok(#[trigger] eps[j]),
            decreases endpoints@.len() - k,
        {
            proof {
                assert(endpoints@[k as int]@ == eps[k as int]);
            }
            let ghost prev_list = server_list@;
            match validate_host(endpoints[k].as_str()) {
                Ok(s) => {
                    server_list.push(s);
                    proof {
                        assert forall|j: int| 0 <= j < k + 1 implies crate::resp::strs_v(
                            server_list@,
                        )[j] == eps.take(k as int + 1)[j] by {
                            if j < k as int {
                                assert(server_list@[j] == prev_list[j]);
                                assert(crate::resp::strs_v(prev_list)[j] == eps.take(k as int)[j]);
                            } else {
                                assert(server_list@[j]@ == s@);
                            }
                        }
                        assert(crate::resp::strs_v(server_list@) =~= eps.take(k as int + 1));
                    }
                },
                Err(e) => {
                    proof {
                        assert(!endpoint_ok(endpoints_of(connect_string@)[k as int]));
                    }
                    return Err(e);
                },
            }
            k += 1;
        }
        proof {
            assert(eps.take(endpoints@.len() as int) =~= eps);
        }
        let chroot = if sl.len() == 2 {
            proof {
                assert(sl@[1]@ == sl_v[1]);
            }
            let c = String::from_str("/").concat(sl[1].as_str());
            proof {
                reveal_strlit("/");
                assert("/"@ =~= seq!['/']);
            }
            c
        } else {
            let c = String::from_str("/");
            proof {
                reveal_strlit("/");
                assert("/"@ =~= seq!['/']);
            }
            c
        };
        let server_len = server_list.len();
        Ok((HostProvider { server_list, current_index: 0, server_len }, chroot))
    }

    /// The next endpoint, moving the cursor one step round the list.
    pub fn pick_host(&mut self) -> (r: String)
        requires
            old(self).wf(),
        ensures
            final(self).wf(),
            final(self).servers() == old(self).servers(),
            r@ == old(self).servers()[old(self).index()],
            final(self).index() == if old(self).index() + 1 == old(self).servers().len() {
                0int
            } else {
                old(self).index() + 1
            },
    {
        let address = self.server_list[self.current_index].clone();
        proof {
            assert(self.server_list@[self.current_index as int]@ == self.servers()[self.index()]);
        }
        let mut new_index = self.current_index + 1;
        if new_index == self.server_len {
            new_index = 0;
        }
        self.current_index = new_index;
        address
    }
}

} // verus!
