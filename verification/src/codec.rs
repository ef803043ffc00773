//! Primitive encoders and decoders for the wire format: all integers
//! big-endian, booleans one byte, byte slices and strings length-prefixed
//! by an `i32`, with length `-1` marking an absent value.
//!
//! Every encoder `write_*` appends the bytes given by its `enc_*` spec
//! function; every decoder `read_*` returns exactly what its `rd_*` spec
//! function says, parsing a prefix of the buffer from a position and
//! refusing buffers shorter than the declared length.

use vstd::prelude::*;
use vstd::utf8::{decode_utf8, encode_utf8, valid_utf8};

verus! {

pub const WIRE_LEN_MAX: usize = 0x7fff_ffff;

/// Big-endian bytes of a `u32`.
pub open spec fn enc_u32(x: u32) -> Seq<u8> {
    seq![(x >> 24) as u8, (x >> 16) as u8, (x >> 8) as u8, x as u8]
}

/// Big-endian bytes of a `u64`.
pub open spec fn enc_u64(x: u64) -> Seq<u8> {
    seq![
        (x >> 56) as u8,
        (x >> 48) as u8,
        (x >> 40) as u8,
        (x >> 32) as u8,
        (x >> 24) as u8,
        (x >> 16) as u8,
        (x >> 8) as u8,
        x as u8,
    ]
}

/// Big-endian bytes of an `i32` (two's complement).
pub open spec fn enc_i32(x: i32) -> Seq<u8> {
    enc_u32(x as u32)
}

/// Big-endian bytes of an `i64` (two's complement).
pub open spec fn enc_i64(x: i64) -> Seq<u8> {
    enc_u64(x as u64)
}

/// A boolean as one byte, `0` or `1`.
pub open spec fn enc_bool(x: bool) -> Seq<u8> {
    seq![if x { 1u8 } else { 0u8 }]
}

/// A byte slice: its length as `i32`, then its bytes.
pub open spec fn enc_bytes(s: Seq<u8>) -> Seq<u8> {
    enc_i32(s.len() as i32) + s
}

/// An optional byte slice: absent is the length `-1` with no bytes.
pub open spec fn enc_bytes_opt(s: Option<Seq<u8>>) -> Seq<u8> {
    match s {
        Some(v) => enc_bytes(v),
        None => enc_i32(-1i32),
    }
}

/// A string: its UTF-8 bytes, length-prefixed.
pub open spec fn enc_str(s: Seq<char>) -> Seq<u8> {
    enc_bytes(encode_utf8(s))
}

/// The `u32` held big-endian at `i`; meaningful when `i + 4 <= s.len()`.
pub open spec fn u32_at(s: Seq<u8>, i: int) -> u32 {
    (((s[i] as u32) << 24) | ((s[i + 1] as u32) << 16) | ((s[i + 2] as u32) << 8) | (s[i
        + 3] as u32)) as u32
}

/// The `u64` held big-endian at `i`; meaningful when `i + 8 <= s.len()`.
pub open spec fn u64_at(s: Seq<u8>, i: int) -> u64 {
    (((s[i] as u64) << 56) | ((s[i + 1] as u64) << 48) | ((s[i + 2] as u64) << 40) | ((s[i
        + 3] as u64) << 32) | ((s[i + 4] as u64) << 24) | ((s[i + 5] as u64) << 16) | ((s[i
        + 6] as u64) << 8) | (s[i + 7] as u64)) as u64
}

/// Reads a `u32` at `i`: the value and the next position.
pub open spec fn rd_u32(s: Seq<u8>, i: int) -> Option<(u32, int)> {
    if 0 <= i && i + 4 <= s.len() {
        Some((u32_at(s, i), i + 4))
    } else {
        None
    }
}

/// Reads a `u64` at `i`.
pub open spec fn rd_u64(s: Seq<u8>, i: int) -> Option<(u64, int)> {
    if 0 <= i && i + 8 <= s.len() {
        Some((u64_at(s, i), i + 8))
    } else {
        None
    }
}

/// Reads an `i32` at `i`.
pub open spec fn rd_i32(s: Seq<u8>, i: int) -> Option<(i32, int)> {
    match rd_u32(s, i) {
        Some((x, j)) => Some((x as i32, j)),
        None => None,
    }
}

/// Reads an `i64` at `i`.
pub open spec fn rd_i64(s: Seq<u8>, i: int) -> Option<(i64, int)> {
    match rd_u64(s, i) {
        Some((x, j)) => Some((x as i64, j)),
        None => None,
    }
}

/// Reads one byte at `i` as a boolean: any non-zero byte is true.
pub open spec fn rd_bool(s: Seq<u8>, i: int) -> Option<(bool, int)> {
    if 0 <= i && i + 1 <= s.len() {
        Some((s[i] != 0, i + 1))
    } else {
        None
    }
}

/// Reads a length-prefixed byte slice at `i`. Length `-1` yields the empty
/// slice; a buffer shorter than the declared length is refused.
pub open spec fn rd_bytes(s: Seq<u8>, i: int) -> Option<(Seq<u8>, int)> {
    match rd_i32(s, i) {
        Some((n, j)) => if n == -1 {
            Some((Seq::<u8>::empty(), j))
        } else if n >= 0 && j + n <= s.len() {
            Some((s.subrange(j, j + n), j + n))
        } else {
            None
        },
        None => None,
    }
}

/// Reads a length-prefixed byte slice at `i`, keeping length `-1` distinct
/// as an absent value.
pub open spec fn rd_bytes_opt(s: Seq<u8>, i: int) -> Option<(Option<Seq<u8>>, int)> {
    match rd_i32(s, i) {
        Some((n, j)) => if n == -1 {
            Some((None, j))
        } else if n >= 0 && j + n <= s.len() {
            Some((Some(s.subrange(j, j + n)), j + n))
        } else {
            None
        },
        None => None,
    }
}

/// Reads a length-prefixed UTF-8 string at `i`; bytes that are not valid
/// UTF-8 are refused.
pub open spec fn rd_str(s: Seq<u8>, i: int) -> Option<(Seq<char>, int)> {
    match rd_bytes(s, i) {
        Some((b, j)) => if valid_utf8(b) {
            Some((decode_utf8(b), j))
        } else {
            None
        },
        None => None,
    }
}

/// Appends the big-endian bytes of `x`.
pub fn write_u32(b: &mut Vec<u8>, x: u32)
    ensures
        final(b)@ == old(b)@ + enc_u32(x),
{
    b.push((x >> 24) as u8);
    b.push((x >> 16) as u8);
    b.push((x >> 8) as u8);
    b.push(x as u8);
    proof {
        assert(b@ =~= old(b)@ + enc_u32(x));
    }
}

/// Appends the big-endian bytes of `x`.
pub fn write_u64(b: &mut Vec<u8>, x: u64)
    ensures
        final(b)@ == old(b)@ + enc_u64(x),
{
    b.push((x >> 56) as u8);
    b.push((x >> 48) as u8);
    b.push((x >> 40) as u8);
    b.push((x >> 32) as u8);
    b.push((x >> 24) as u8);
    b.push((x >> 16) as u8);
    b.push((x >> 8) as u8);
    b.push(x as u8);
    proof {
        assert(b@ =~= old(b)@ + enc_u64(x));
    }
}

/// Appends the big-endian bytes of `x`.
pub fn write_i32(b: &mut Vec<u8>, x: i32)
    ensures
        final(b)@ == old(b)@ + enc_i32(x),
{
    write_u32(b, x as u32);
}

/// Appends the big-endian bytes of `x`.
pub fn write_i64(b: &mut Vec<u8>, x: i64)
    ensures
        final(b)@ == old(b)@ + enc_i64(x),
{
    write_u64(b, x as u64);
}

/// Appends one byte, `1` for true and `0` for false.
pub fn write_bool(b: &mut Vec<u8>, x: bool)
    ensures
        final(b)@ == old(b)@ + enc_bool(x),
{
    b.push(if x { 1u8 } else { 0u8 });
    proof {
        assert(b@ =~= old(b)@ + enc_bool(x));
    }
}

/// Appends a length-prefixed byte slice.
pub fn write_bytes(b: &mut Vec<u8>, v: &[u8])
    requires
        v@.len() <= WIRE_LEN_MAX,
    ensures
        final(b)@ == old(b)@ + enc_bytes(v@),
{
    write_i32(b, v.len() as i32);
    b.extend_from_slice(v);
    proof {
        assert(b@ =~= old(b)@ + enc_bytes(v@));
    }
}

/// Appends a length-prefixed optional byte slice, `-1` for an absent one.
pub fn write_bytes_opt(b: &mut Vec<u8>, v: &Option<Vec<u8>>)
    requires
        v matches Some(w) ==> w@.len() <= WIRE_LEN_MAX,
    ensures
        final(b)@ == old(b)@ + enc_bytes_opt(match v {
            Some(w) => Some(w@),
            None => None,
        }),
{
    match v {
        Some(w) => write_bytes(b, w.as_slice()),
        None => write_i32(b, -1),
    }
}

/// Appends a length-prefixed string as UTF-8 bytes.
pub fn write_str(b: &mut Vec<u8>, s: &str)
    requires
        encode_utf8(s@).len() <= WIRE_LEN_MAX,
    ensures
        final(b)@ == old(b)@ + enc_str(s@),
{
    let bytes = s.as_bytes();
    assert(bytes@ == encode_utf8(s@));
    write_bytes(b, bytes);
}

/// Reads a `u32`, returning it with the next position.
pub fn read_u32(b: &Vec<u8>, pos: usize) -> (r: Option<(u32, usize)>)
    ensures
        (match r {
            Some((x, j)) => rd_u32(b@, pos as int) == Some((x, j as int)),
            None => rd_u32(b@, pos as int) is None,
        }),
{
    if b.len() >= 4 && pos <= b.len() - 4 {
        let x: u32 = ((b[pos] as u32) << 24) | ((b[pos + 1] as u32) << 16) | ((b[pos
            + 2] as u32) << 8) | (b[pos + 3] as u32);
        Some((x, pos + 4))
    } else {
        None
    }
}

/// Reads a `u64`, returning it with the next position.
pub fn read_u64(b: &Vec<u8>, pos: usize) -> (r: Option<(u64, usize)>)
    ensures
        (match r {
            Some((x, j)) => rd_u64(b@, pos as int) == Some((x, j as int)),
            None => rd_u64(b@, pos as int) is None,
        }),
{
    if b.len() >= 8 && pos <= b.len() - 8 {
        let x: u64 = ((b[pos] as u64) << 56) | ((b[pos + 1] as u64) << 48) | ((b[pos
            + 2] as u64) << 40) | ((b[pos + 3] as u64) << 32) | ((b[pos + 4] as u64) << 24) | ((b[pos
            + 5] as u64) << 16) | ((b[pos + 6] as u64) << 8) | (b[pos + 7] as u64);
        Some((x, pos + 8))
    } else {
        None
    }
}

/// Reads an `i32`, returning it with the next position.
pub fn read_i32(b: &Vec<u8>, pos: usize) -> (r: Option<(i32, usize)>)
    ensures
        (match r {
            Some((x, j)) => rd_i32(b@, pos as int) == Some((x, j as int)),
            None => rd_i32(b@, pos as int) is None,
        }),
{
    match read_u32(b, pos) {
        Some((x, j)) => Some((x as i32, j)),
        None => None,
    }
}

/// Reads an `i64`, returning it with the next position.
pub fn read_i64(b: &Vec<u8>, pos: usize) -> (r: Option<(i64, usize)>)
    ensures
        (match r {
            Some((x, j)) => rd_i64(b@, pos as int) == Some((x, j as int)),
            None => rd_i64(b@, pos as int) is None,
        }),
{
    match read_u64(b, pos) {
        Some((x, j)) => Some((x as i64, j)),
        None => None,
    }
}

/// Reads one byte as a boolean.
pub fn read_bool(b: &Vec<u8>, pos: usize) -> (r: Option<(bool, usize)>)
    ensures
        (match r {
            Some((x, j)) => rd_bool(b@, pos as int) == Some((x, j as int)),
            None => rd_bool(b@, pos as int) is None,
        }),
{
    if pos < b.len() {
        Some((b[pos] != 0, pos + 1))
    } else {
        None
    }
}

/// Reads a length-prefixed byte slice.
pub fn read_bytes(b: &Vec<u8>, pos: usize) -> (r: Option<(Vec<u8>, usize)>)
    ensures
        (match r {
            Some((v, j)) => rd_bytes(b@, pos as int) == Some((v@, j as int)),
            None => rd_bytes(b@, pos as int) is None,
        }),
{
    match read_i32(b, pos) {
        Some((n, j)) => {
            if n == -1 {
                Some((Vec::new(), j))
            } else if n >= 0 && (n as usize) <= b.len() - j {
                let len = n as usize;
                let mut v: Vec<u8> = Vec::new();
                let mut k: usize = 0;
                while k < len
                    invariant
                        j + len <= b.len(),
                        k <= len,
                        v@ =~= b@.subrange(j as int, j + k),
                    decreases len - k,
                {
                    v.push(b[j + k]);
                    k += 1;
                    proof {
                        assert(v@ =~= b@.subrange(j as int, j + k));
                    }
                }
                Some((v, j + len))
            } else {
                None
            }
        },
        None => None,
    }
}

/// Reads a length-prefixed optional byte slice; length `-1` is absent.
pub fn read_bytes_opt(b: &Vec<u8>, pos: usize) -> (r: Option<(Option<Vec<u8>>, usize)>)
    ensures
        (match r {
            Some((Some(v), j)) => rd_bytes_opt(b@, pos as int) == Some((Some(v@), j as int)),
            Some((None, j)) => rd_bytes_opt(b@, pos as int) == Some((
                None::<Seq<u8>>,
                j as int,
            )),
            None => rd_bytes_opt(b@, pos as int) is None,
        }),
{
    match read_i32(b, pos) {
        Some((n, j)) => {
            if n == -1 {
                Some((None, j))
            } else {
                match read_bytes(b, pos) {
                    Some((v, j2)) => Some((Some(v), j2)),
                    None => None,
                }
            }
        },
        None => None,
    }
}

/// Turns bytes into the string they encode. Relies on
/// `String::from_utf8`: it succeeds exactly on valid UTF-8, and returns
/// the string whose UTF-8 encoding is the input.
#[verifier::external_body]
fn string_from_utf8(v: Vec<u8>) -> (r: Option<String>)
    ensures
        r is Some <==> valid_utf8(v@),
        r matches Some(s) ==> encode_utf8(s@) == v@,
{
    match String::from_utf8(v) {
        Ok(s) => Some(s),
        Err(_) => None,
    }
}

/// Reads a length-prefixed UTF-8 string.
pub fn read_str(b: &Vec<u8>, pos: usize) -> (r: Option<(String, usize)>)
    ensures
        (match r {
            Some((s, j)) => rd_str(b@, pos as int) == Some((s@, j as int)),
            None => rd_str(b@, pos as int) is None,
        }),
{
    proof {
        broadcast use vstd::utf8::encode_utf8_decode_utf8;

    }
    match read_bytes(b, pos) {
        Some((v, j)) => {
            match string_from_utf8(v) {
                Some(s) => Some((s, j)),
                None => None,
            }
        },
        None => None,
    }
}

/// A window into a window: bytes known to sit at `i` can be addressed
/// through any sub-interval of them.
pub proof fn lemma_subrange_at(s: Seq<u8>, i: int, whole: Seq<u8>, o1: int, o2: int)
    requires
        0 <= i,
        i + whole.len() <= s.len(),
        s.subrange(i, i + whole.len()) == whole,
        0 <= o1 <= o2 <= whole.len(),
    ensures
        s.subrange(i + o1, i + o2) == whole.subrange(o1, o2),
{
    assert forall|k: int| 0 <= k < o2 - o1 implies s.subrange(i + o1, i + o2)[k] == whole.subrange(
        o1,
        o2,
    )[k] by {
        assert(s.subrange(i, i + whole.len())[o1 + k] == whole[o1 + k]);
    }
    assert(s.subrange(i + o1, i + o2) =~= whole.subrange(o1, o2));
}

/// The big-endian bytes of a `u32` read back as the value itself.
pub proof fn lemma_rd_enc_u32(s: Seq<u8>, i: int, x: u32)
    requires
        0 <= i,
        i + 4 <= s.len(),
        s.subrange(i, i + 4) == enc_u32(x),
    ensures
        rd_u32(s, i) == Some((x, i + 4)),
{
    assert(s[i] == enc_u32(x)[0]);
    assert(s[i + 1] == enc_u32(x)[1]);
    assert(s[i + 2] == enc_u32(x)[2]);
    assert(s[i + 3] == enc_u32(x)[3]);
    assert((((((x >> 24) as u8) as u32) << 24) | ((((x >> 16) as u8) as u32) << 16) | ((((x
        >> 8) as u8) as u32) << 8) | (((x as u8) as u32))) as u32 == x) by (bit_vector);
}

/// The big-endian bytes of a `u64` read back as the value itself.
pub proof fn lemma_rd_enc_u64(s: Seq<u8>, i: int, x: u64)
    requires
        0 <= i,
        i + 8 <= s.len(),
        s.subrange(i, i + 8) == enc_u64(x),
    ensures
        rd_u64(s, i) == Some((x, i + 8)),
{
    assert(s[i] == enc_u64(x)[0]);
    assert(s[i + 1] == enc_u64(x)[1]);
    assert(s[i + 2] == enc_u64(x)[2]);
    assert(s[i + 3] == enc_u64(x)[3]);
    assert(s[i + 4] == enc_u64(x)[4]);
    assert(s[i + 5] == enc_u64(x)[5]);
    assert(s[i + 6] == enc_u64(x)[6]);
    assert(s[i + 7] == enc_u64(x)[7]);
    assert((((((x >> 56) as u8) as u64) << 56) | ((((x >> 48) as u8) as u64) << 48) | ((((x
        >> 40) as u8) as u64) << 40) | ((((x >> 32) as u8) as u64) << 32) | ((((x
        >> 24) as u8) as u64) << 24) | ((((x >> 16) as u8) as u64) << 16) | ((((x
        >> 8) as u8) as u64) << 8) | (((x as u8) as u64))) as u64 == x) by (bit_vector);
}

/// The big-endian bytes of an `i32` read back as the value itself.
pub proof fn lemma_rd_enc_i32(s: Seq<u8>, i: int, x: i32)
    requires
        0 <= i,
        i + 4 <= s.len(),
        s.subrange(i, i + 4) == enc_i32(x),
    ensures
        rd_i32(s, i) == Some((x, i + 4)),
{
    lemma_rd_enc_u32(s, i, x as u32);
    assert(((x as u32) as i32) == x) by (bit_vector);
}

/// The big-endian bytes of an `i64` read back as the value itself.
pub proof fn lemma_rd_enc_i64(s: Seq<u8>, i: int, x: i64)
    requires
        0 <= i,
        i + 8 <= s.len(),
        s.subrange(i, i + 8) == enc_i64(x),
    ensures
        rd_i64(s, i) == Some((x, i + 8)),
{
    lemma_rd_enc_u64(s, i, x as u64);
    assert(((x as u64) as i64) == x) by (bit_vector);
}

/// Re-encoding the `u32` read at `i` reproduces the bytes it was read
/// from.
pub proof fn lemma_enc_rd_u32(s: Seq<u8>, i: int)
    requires
        0 <= i,
        i + 4 <= s.len(),
    ensures
        enc_u32(u32_at(s, i)) == s.subrange(i, i + 4),
{
    let b0 = s[i];
    let b1 = s[i + 1];
    let b2 = s[i + 2];
    let b3 = s[i + 3];
    let x = u32_at(s, i);
    assert({
        let y = (((b0 as u32) << 24) | ((b1 as u32) << 16) | ((b2 as u32) << 8) | (
        b3 as u32)) as u32;
        (y >> 24) as u8 == b0 && (y >> 16) as u8 == b1 && (y >> 8) as u8 == b2 && y as u8 == b3
    }) by (bit_vector);
    assert(enc_u32(x) =~= s.subrange(i, i + 4));
}

/// Re-encoding the `u64` read at `i` reproduces the bytes it was read
/// from.
pub proof fn lemma_enc_rd_u64(s: Seq<u8>, i: int)
    requires
        0 <= i,
        i + 8 <= s.len(),
    ensures
        enc_u64(u64_at(s, i)) == s.subrange(i, i + 8),
{
    let b0 = s[i];
    let b1 = s[i + 1];
    let b2 = s[i + 2];
    let b3 = s[i + 3];
    let b4 = s[i + 4];
    let b5 = s[i + 5];
    let b6 = s[i + 6];
    let b7 = s[i + 7];
    let x = u64_at(s, i);
    assert({
        let y = (((b0 as u64) << 56) | ((b1 as u64) << 48) | ((b2 as u64) << 40) | ((b3 as u64)
            << 32) | ((b4 as u64) << 24) | ((b5 as u64) << 16) | ((b6 as u64) << 8) | (
        b7 as u64)) as u64;
        (y >> 56) as u8 == b0 && (y >> 48) as u8 == b1 && (y >> 40) as u8 == b2 && (y >> 32) as u8
            == b3 && (y >> 24) as u8 == b4 && (y >> 16) as u8 == b5 && (y >> 8) as u8 == b6 && y
            as u8 == b7
    }) by (bit_vector);
    assert(enc_u64(x) =~= s.subrange(i, i + 8));
}

/// Re-encoding the `i32` read at `i` reproduces the bytes it was read
/// from.
pub proof fn lemma_enc_rd_i32(s: Seq<u8>, i: int)
    requires
        0 <= i,
        i + 4 <= s.len(),
    ensures
        enc_i32(u32_at(s, i) as i32) == s.subrange(i, i + 4),
{
    let x = u32_at(s, i);
    assert((x as i32) as u32 == x) by (bit_vector);
    lemma_enc_rd_u32(s, i);
}

/// Re-encoding the `i64` read at `i` reproduces the bytes it was read
/// from.
pub proof fn lemma_enc_rd_i64(s: Seq<u8>, i: int)
    requires
        0 <= i,
        i + 8 <= s.len(),
    ensures
        enc_i64(u64_at(s, i) as i64) == s.subrange(i, i + 8),
{
    let x = u64_at(s, i);
    assert((x as i64) as u64 == x) by (bit_vector);
    lemma_enc_rd_u64(s, i);
}

/// The one byte of a boolean read back as the value itself.
pub proof fn lemma_rd_enc_bool(s: Seq<u8>, i: int, x: bool)
    requires
        0 <= i,
        i + 1 <= s.len(),
        s.subrange(i, i + 1) == enc_bool(x),
    ensures
        rd_bool(s, i) == Some((x, i + 1)),
{
    assert(s[i] == enc_bool(x)[0]);
}

/// A length-prefixed byte slice read back as the slice itself.
pub proof fn lemma_rd_enc_bytes(s: Seq<u8>, i: int, b: Seq<u8>)
    requires
        0 <= i,
        b.len() <= WIRE_LEN_MAX,
        i + 4 + b.len() <= s.len(),
        s.subrange(i, i + 4 + b.len()) == enc_bytes(b),
    ensures
        rd_bytes(s, i) == Some((b, i + 4 + b.len())),
{
    assert(s.subrange(i, i + 4) =~= enc_i32(b.len() as i32));
    lemma_rd_enc_i32(s, i, b.len() as i32);
    assert(b.len() as i32 >= 0);
    assert forall|k: int| 0 <= k < b.len() implies s[i + 4 + k] == b[k] by {
        assert(s.subrange(i, i + 4 + b.len())[4 + k] == enc_bytes(b)[4 + k]);
    }
    assert(s.subrange(i + 4, i + 4 + b.len()) =~= b);
}

/// A length-prefixed optional byte slice read back as the value itself.
pub proof fn lemma_rd_enc_bytes_opt(s: Seq<u8>, i: int, b: Option<Seq<u8>>)
    requires
        0 <= i,
        b matches Some(v) ==> v.len() <= WIRE_LEN_MAX,
        i + enc_bytes_opt(b).len() <= s.len(),
        s.subrange(i, i + enc_bytes_opt(b).len()) == enc_bytes_opt(b),
    ensures
        rd_bytes_opt(s, i) == Some((b, i + enc_bytes_opt(b).len())),
{
    match b {
        Some(v) => {
            assert(s.subrange(i, i + 4) =~= enc_i32(v.len() as i32));
            lemma_rd_enc_i32(s, i, v.len() as i32);
            assert(v.len() as i32 >= 0);
            assert forall|k: int| 0 <= k < v.len() implies s[i + 4 + k] == v[k] by {
                assert(s.subrange(i, i + 4 + v.len())[4 + k] == enc_bytes(v)[4 + k]);
            }
            assert(s.subrange(i + 4, i + 4 + v.len()) =~= v);
        },
        None => {
            lemma_rd_enc_i32(s, i, -1i32);
        },
    }
}

/// A length-prefixed string read back as the string itself.
pub proof fn lemma_rd_enc_str(s: Seq<u8>, i: int, c: Seq<char>)
    requires
        0 <= i,
        encode_utf8(c).len() <= WIRE_LEN_MAX,
        i + enc_str(c).len() <= s.len(),
        s.subrange(i, i + enc_str(c).len()) == enc_str(c),
    ensures
        rd_str(s, i) == Some((c, i + enc_str(c).len())),
{
    broadcast use vstd::utf8::encode_utf8_valid_utf8;
    broadcast use vstd::utf8::encode_utf8_decode_utf8;

    lemma_rd_enc_bytes(s, i, encode_utf8(c));
}

} // verus!
