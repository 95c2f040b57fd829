//! Byte-level primitives shared by the two binary codecs: little-endian
//! 64-bit integers, and length-prefixed UTF-8 strings.
//!
//! Every primitive comes in three parts: a specification encoder (a total
//! function from the model to its bytes), a specification decoder (a partial
//! function from bytes and a position to the model and the next position),
//! and executable functions proved to match them.  The central lemmas state
//! that decoding an encoding placed anywhere in a buffer succeeds and yields
//! the encoded value.

use vstd::prelude::*;

use vstd::utf8::{decode_utf8, encode_utf8, valid_utf8};

verus! {

broadcast use vstd::utf8::encode_utf8_valid_utf8, vstd::utf8::encode_utf8_decode_utf8;

/// The little-endian bytes of a 64-bit integer.
pub open spec fn le64(x: u64) -> Seq<u8> {
    seq![
        (x & 0xff) as u8,
        ((x >> 8) & 0xff) as u8,
        ((x >> 16) & 0xff) as u8,
        ((x >> 24) & 0xff) as u8,
        ((x >> 32) & 0xff) as u8,
        ((x >> 40) & 0xff) as u8,
        ((x >> 48) & 0xff) as u8,
        ((x >> 56) & 0xff) as u8,
    ]
}

/// The 64-bit integer read from eight little-endian bytes.
pub open spec fn u64_of_le(s: Seq<u8>) -> u64
    recommends
        s.len() == 8,
{
    (s[0] as u64) | ((s[1] as u64) << 8) | ((s[2] as u64) << 16) | ((s[3] as u64) << 24) | ((
    s[4] as u64) << 32) | ((s[5] as u64) << 40) | ((s[6] as u64) << 48) | ((s[7] as u64) << 56)
}

/// Reading back the little-endian bytes of an integer yields the integer.
pub broadcast proof fn lemma_le64_roundtrip(x: u64)
    ensures
        #[trigger] u64_of_le(le64(x)) == x,
        le64(x).len() == 8,
{
    assert((((x & 0xff) as u8) as u64) | ((((x >> 8) & 0xff) as u8) as u64) << 8 | ((((x >> 16)
        & 0xff) as u8) as u64) << 16 | ((((x >> 24) & 0xff) as u8) as u64) << 24 | ((((x >> 32)
        & 0xff) as u8) as u64) << 32 | ((((x >> 40) & 0xff) as u8) as u64) << 40 | ((((x >> 48)
        & 0xff) as u8) as u64) << 48 | ((((x >> 56) & 0xff) as u8) as u64) << 56 == x)
        by (bit_vector);
}

/// Specification encoder for a length-prefixed UTF-8 string.
pub open spec fn enc_str(s: Seq<char>) -> Seq<u8> {
    le64(encode_utf8(s).len() as usize as u64) + encode_utf8(s)
}

/// True when the UTF-8 encoding of `s` is short enough for its length to be
/// stored exactly; every string held in memory satisfies it.
pub open spec fn str_fits(s: Seq<char>) -> bool {
    encode_utf8(s).len() <= usize::MAX
}

/// Specification decoder for a little-endian 64-bit integer.
pub open spec fn dec_u64(s: Seq<u8>, pos: int) -> Option<(u64, int)> {
    if 0 <= pos && pos + 8 <= s.len() {
        Some((u64_of_le(s.subrange(pos, pos + 8)), pos + 8))
    } else {
        None
    }
}

/// Specification decoder for a length-prefixed UTF-8 string.
pub open spec fn dec_str(s: Seq<u8>, pos: int) -> Option<(Seq<char>, int)> {
    match dec_u64(s, pos) {
        Option::Some((n, p)) => {
            if p + n <= s.len() && valid_utf8(s.subrange(p, p + n as int)) {
                Some((decode_utf8(s.subrange(p, p + n as int)), p + n as int))
            } else {
                None
            }
        },
        Option::None => None,
    }
}

/// Splitting a known subrange of a buffer into its two halves.
pub proof fn lemma_subrange_split(s: Seq<u8>, pos: int, a: Seq<u8>, b: Seq<u8>)
    requires
        0 <= pos,
        pos + a.len() + b.len() <= s.len(),
        s.subrange(pos, pos + a.len() + b.len()) == a + b,
    ensures
        s.subrange(pos, pos + a.len()) == a,
        s.subrange(pos + a.len(), pos + a.len() + b.len()) == b,
{
    let whole = s.subrange(pos, pos + a.len() + b.len());
    assert forall|i: int| 0 <= i < a.len() implies s.subrange(pos, pos + a.len())[i] == a[i] by {
        assert(whole[i] == (a + b)[i]);
    }
    assert(s.subrange(pos, pos + a.len()) =~= a);
    assert forall|i: int| 0 <= i < b.len() implies s.subrange(
        pos + a.len(),
        pos + a.len() + b.len(),
    )[i] == b[i] by {
        assert(whole[a.len() + i] == (a + b)[a.len() + i]);
    }
    assert(s.subrange(pos + a.len(), pos + a.len() + b.len()) =~= b);
}

/// Decoding an encoded integer placed at `pos` yields the integer.
pub proof fn lemma_dec_u64(s: Seq<u8>, pos: int, x: u64)
    requires
        0 <= pos,
        pos + 8 <= s.len(),
        s.subrange(pos, pos + 8) == le64(x),
    ensures
        dec_u64(s, pos) == Some((x, pos + 8)),
{
    lemma_le64_roundtrip(x);
}

/// Decoding an encoded string placed at `pos` yields the string.
pub proof fn lemma_dec_str(s: Seq<u8>, pos: int, t: Seq<char>)
    requires
        0 <= pos,
        str_fits(t),
        pos + enc_str(t).len() <= s.len(),
        s.subrange(pos, pos + enc_str(t).len()) == enc_str(t),
    ensures
        dec_str(s, pos) == Some((t, pos + enc_str(t).len())),
{
    let bytes = encode_utf8(t);
    let n = bytes.len() as usize as u64;
    lemma_subrange_split(s, pos, le64(n), bytes);
    lemma_dec_u64(s, pos, n);
    assert(valid_utf8(bytes));
    assert(decode_utf8(bytes) == t);
}

/// Appends the little-endian bytes of `x`.
pub fn push_u64(out: &mut Vec<u8>, x: u64)
    ensures
        final(out)@ == old(out)@ + le64(x),
{
    out.push((x & 0xff) as u8);
    out.push(((x >> 8) & 0xff) as u8);
    out.push(((x >> 16) & 0xff) as u8);
    out.push(((x >> 24) & 0xff) as u8);
    out.push(((x >> 32) & 0xff) as u8);
    out.push(((x >> 40) & 0xff) as u8);
    out.push(((x >> 48) & 0xff) as u8);
    out.push(((x >> 56) & 0xff) as u8);
    proof {
        assert(out@ =~= old(out)@ + le64(x));
    }
}

/// Appends the length-prefixed UTF-8 bytes of `s`.
#[verifier::loop_isolation(false)]
pub fn push_str(out: &mut Vec<u8>, s: &str)
    ensures
        final(out)@ == old(out)@ + enc_str(s@),
{
    let bytes = s.as_bytes();
    let n = bytes.len();
    push_u64(out, n as u64);
    let mut i: usize = 0;
    while i < n
        invariant
            i <= n,
            out@ == old(out)@ + le64(n as u64) + bytes@.subrange(0, i as int),
        decreases n - i,
    {
        out.push(bytes[i]);
        proof {
            assert(out@ =~= old(out)@ + le64(n as u64) + bytes@.subrange(0, i + 1));
        }
        i = i + 1;
    }
    proof {
        assert(bytes@.subrange(0, n as int) =~= bytes@);
        assert(out@ =~= old(out)@ + enc_str(s@));
    }
}

/// Reads a little-endian 64-bit integer at `pos`.
pub fn read_u64(buf: &Vec<u8>, pos: usize) -> (r: Option<(u64, usize)>)
    ensures
        match r {
            Option::Some((x, p)) => dec_u64(buf@, pos as int) == Some((x, p as int)) && pos < p
                <= buf@.len(),
            Option::None => dec_u64(buf@, pos as int) is None,
        },
{
    if buf.len() < 8 || pos > buf.len() - 8 {
        return None;
    }
    let x = (buf[pos] as u64) | ((buf[pos + 1] as u64) << 8) | ((buf[pos + 2] as u64) << 16) | ((
    buf[pos + 3] as u64) << 24) | ((buf[pos + 4] as u64) << 32) | ((buf[pos + 5] as u64) << 40) | ((
    buf[pos + 6] as u64) << 48) | ((buf[pos + 7] as u64) << 56);
    proof {
        let sub = buf@.subrange(pos as int, pos + 8);
        assert(sub[0] == buf@[pos as int]);
        assert(sub[1] == buf@[pos + 1]);
        assert(sub[2] == buf@[pos + 2]);
        assert(sub[3] == buf@[pos + 3]);
        assert(sub[4] == buf@[pos + 4]);
        assert(sub[5] == buf@[pos + 5]);
        assert(sub[6] == buf@[pos + 6]);
        assert(sub[7] == buf@[pos + 7]);
    }
    Some((x, pos + 8))
}

/// Copies `buf[from..to]` into a fresh vector.
#[verifier::loop_isolation(false)]
pub fn subrange_vec(buf: &Vec<u8>, from: usize, to: usize) -> (r: Vec<u8>)
    requires
        from <= to <= buf@.len(),
    ensures
        r@ == buf@.subrange(from as int, to as int),
{
    let mut r: Vec<u8> = Vec::new();
    let mut i: usize = from;
    while i < to
        invariant
            from <= i <= to,
            r@ == buf@.subrange(from as int, i as int),
        decreases to - i,
    {
        r.push(buf[i]);
        proof {
            assert(r@ =~= buf@.subrange(from as int, i + 1));
        }
        i = i + 1;
    }
    r
}

/// Relies on `String::from_utf8`: it accepts exactly the byte sequences that
/// are valid UTF-8, and the accepted string reads back the given bytes.
#[verifier::external_body]
fn string_from_utf8(bytes: Vec<u8>) -> (r: Option<String>)
    ensures
        r is Some <==> valid_utf8(bytes@),
        r matches Some(s) ==> s@ == decode_utf8(bytes@),
{
    String::from_utf8(bytes).ok()
}

/// Reads a length-prefixed UTF-8 string at `pos`.
pub fn read_str(buf: &Vec<u8>, pos: usize) -> (r: Option<(String, usize)>)
    ensures
        match r {
            Option::Some((t, p)) => dec_str(buf@, pos as int) == Some((t@, p as int)) && pos < p
                <= buf@.len(),
            Option::None => dec_str(buf@, pos as int) is None,
        },
{
    match read_u64(buf, pos) {
        Option::Some((n, p)) => {
            if n > (buf.len() - p) as u64 {
                return None;
            }
            let end = p + (n as usize);
            let bytes = subrange_vec(buf, p, end);
            match string_from_utf8(bytes) {
                Option::Some(t) => Some((t, end)),
                Option::None => None,
            }
        },
        Option::None => None,
    }
}

/// Specification encoder for a boolean: one byte, zero or one.
pub open spec fn enc_bool(b: bool) -> Seq<u8> {
    seq![if b { 1u8 } else { 0u8 }]
}

/// Specification decoder for a boolean.  Any other byte is rejected.
pub open spec fn dec_bool(s: Seq<u8>, pos: int) -> Option<(bool, int)> {
    if 0 <= pos < s.len() && (s[pos] == 0u8 || s[pos] == 1u8) {
        Some((s[pos] == 1u8, pos + 1))
    } else {
        None
    }
}

/// Specification encoder for a length-prefixed byte string.
pub open spec fn enc_bytes(b: Seq<u8>) -> Seq<u8> {
    le64(b.len() as usize as u64) + b
}

/// Specification decoder for a length-prefixed byte string.
pub open spec fn dec_bytes(s: Seq<u8>, pos: int) -> Option<(Seq<u8>, int)> {
    match dec_u64(s, pos) {
        Option::Some((n, p)) => {
            if p + n <= s.len() {
                Some((s.subrange(p, p + n as int), p + n as int))
            } else {
                None
            }
        },
        Option::None => None,
    }
}

/// Decoding an encoded boolean placed at `pos` yields the boolean.
pub proof fn lemma_dec_bool(s: Seq<u8>, pos: int, b: bool)
    requires
        0 <= pos,
        pos + 1 <= s.len(),
        s.subrange(pos, pos + 1) == enc_bool(b),
    ensures
        dec_bool(s, pos) == Some((b, pos + 1)),
{
    assert(s[pos] == enc_bool(b)[0]);
}

/// Decoding an encoded byte string placed at `pos` yields the bytes.
pub proof fn lemma_dec_bytes(s: Seq<u8>, pos: int, b: Seq<u8>)
    requires
        0 <= pos,
        b.len() <= usize::MAX,
        pos + enc_bytes(b).len() <= s.len(),
        s.subrange(pos, pos + enc_bytes(b).len()) == enc_bytes(b),
    ensures
        dec_bytes(s, pos) == Some((b, pos + enc_bytes(b).len())),
{
    let n = b.len() as usize as u64;
    lemma_subrange_split(s, pos, le64(n), b);
    lemma_dec_u64(s, pos, n);
}

/// Appends the byte of `b`.
pub fn push_bool(out: &mut Vec<u8>, b: bool)
    ensures
        final(out)@ == old(out)@ + enc_bool(b),
{
    out.push(if b { 1u8 } else { 0u8 });
    proof {
        assert(out@ =~= old(out)@ + enc_bool(b));
    }
}

/// Appends the length-prefixed bytes of `b`.
#[verifier::loop_isolation(false)]
pub fn push_bytes(out: &mut Vec<u8>, b: &Vec<u8>)
    ensures
        final(out)@ == old(out)@ + enc_bytes(b@),
{
    let n = b.len();
    push_u64(out, n as u64);
    let mut i: usize = 0;
    while i < n
        invariant
            i <= n,
            out@ == old(out)@ + le64(n as u64) + b@.subrange(0, i as int),
        decreases n - i,
    {
        out.push(b[i]);
        proof {
            assert(out@ =~= old(out)@ + le64(n as u64) + b@.subrange(0, i + 1));
        }
        i = i + 1;
    }
    proof {
        assert(b@.subrange(0, n as int) =~= b@);
        assert(out@ =~= old(out)@ + enc_bytes(b@));
    }
}

/// Reads a boolean at `pos`.
pub fn read_bool(buf: &Vec<u8>, pos: usize) -> (r: Option<(bool, usize)>)
    ensures
        match r {
            Option::Some((b, p)) => dec_bool(buf@, pos as int) == Some((b, p as int)) && pos < p
                <= buf@.len(),
            Option::None => dec_bool(buf@, pos as int) is None,
        },
{
    if pos < buf.len() {
        let byte = buf[pos];
        if byte == 0 {
            Some((false, pos + 1))
        } else if byte == 1 {
            Some((true, pos + 1))
        } else {
            None
        }
    } else {
        None
    }
}

/// Reads a length-prefixed byte string at `pos`.
pub fn read_bytes(buf: &Vec<u8>, pos: usize) -> (r: Option<(Vec<u8>, usize)>)
    ensures
        match r {
            Option::Some((b, p)) => dec_bytes(buf@, pos as int) == Some((b@, p as int)) && pos < p
                <= buf@.len(),
            Option::None => dec_bytes(buf@, pos as int) is None,
        },
{
    match read_u64(buf, pos) {
        Option::Some((n, p)) => {
            if n > (buf.len() - p) as u64 {
                return None;
            }
            let end = p + (n as usize);
            let b = subrange_vec(buf, p, end);
            Some((b, end))
        },
        Option::None => None,
    }
}

/// Specification decoder for an interned identifier: a 64-bit integer that
/// must fit the platform's index type.
pub open spec fn dec_id(s: Seq<u8>, pos: int) -> Option<(usize, int)> {
    match dec_u64(s, pos) {
        Option::Some((n, p)) => {
            if n <= usize::MAX as u64 {
                Some((n as usize, p))
            } else {
                None
            }
        },
        Option::None => None,
    }
}

/// Decoding an encoded identifier placed at `pos` yields the identifier.
pub proof fn lemma_dec_id(s: Seq<u8>, pos: int, id: usize)
    requires
        0 <= pos,
        pos + 8 <= s.len(),
        s.subrange(pos, pos + 8) == le64(id as u64),
    ensures
        dec_id(s, pos) == Some((id, pos + 8)),
{
    lemma_dec_u64(s, pos, id as u64);
}

/// Specification decoder for a signed 64-bit integer.
pub open spec fn dec_i64(s: Seq<u8>, pos: int) -> Option<(i64, int)> {
    match dec_u64(s, pos) {
        Option::Some((n, p)) => Some((n as i64, p)),
        Option::None => None,
    }
}

/// Decoding an encoded signed integer placed at `pos` yields the integer.
pub proof fn lemma_dec_i64(s: Seq<u8>, pos: int, x: i64)
    requires
        0 <= pos,
        pos + 8 <= s.len(),
        s.subrange(pos, pos + 8) == le64(x as u64),
    ensures
        dec_i64(s, pos) == Some((x, pos + 8)),
{
    lemma_dec_u64(s, pos, x as u64);
    assert((x as u64) as i64 == x) by (bit_vector);
}

/// Reads an interned identifier at `pos`.
pub fn read_id(buf: &Vec<u8>, pos: usize) -> (r: Option<(usize, usize)>)
    ensures
        match r {
            Option::Some((id, p)) => dec_id(buf@, pos as int) == Some((id, p as int)) && pos < p
                <= buf@.len(),
            Option::None => dec_id(buf@, pos as int) is None,
        },
{
    match read_u64(buf, pos) {
        Option::Some((n, p)) => {
            if n <= usize::MAX as u64 {
                Some((n as usize, p))
            } else {
                None
            }
        },
        Option::None => None,
    }
}

/// Reads a signed 64-bit integer at `pos`.
pub fn read_i64(buf: &Vec<u8>, pos: usize) -> (r: Option<(i64, usize)>)
    ensures
        match r {
            Option::Some((x, p)) => dec_i64(buf@, pos as int) == Some((x, p as int)) && pos < p
                <= buf@.len(),
            Option::None => dec_i64(buf@, pos as int) is None,
        },
{
    match read_u64(buf, pos) {
        Option::Some((n, p)) => Some((n as i64, p)),
        Option::None => None,
    }
}

/// Splitting a known subrange of a buffer into three parts.
pub proof fn lemma_subrange_split3(s: Seq<u8>, pos: int, a: Seq<u8>, b: Seq<u8>, c: Seq<u8>)
    requires
        0 <= pos,
        pos + a.len() + b.len() + c.len() <= s.len(),
        s.subrange(pos, pos + a.len() + b.len() + c.len()) == a + b + c,
    ensures
        s.subrange(pos, pos + a.len()) == a,
        s.subrange(pos + a.len(), pos + a.len() + b.len()) == b,
        s.subrange(pos + a.len() + b.len(), pos + a.len() + b.len() + c.len()) == c,
{
    assert(a + b + c =~= (a + b) + c);
    lemma_subrange_split(s, pos, a + b, c);
    lemma_subrange_split(s, pos, a, b);
}

/// Splitting a known subrange of a buffer into four parts.
pub proof fn lemma_subrange_split4(
    s: Seq<u8>,
    pos: int,
    a: Seq<u8>,
    b: Seq<u8>,
    c: Seq<u8>,
    d: Seq<u8>,
)
    requires
        0 <= pos,
        pos + a.len() + b.len() + c.len() + d.len() <= s.len(),
        s.subrange(pos, pos + a.len() + b.len() + c.len() + d.len()) == a + b + c + d,
    ensures
        s.subrange(pos, pos + a.len()) == a,
        s.subrange(pos + a.len(), pos + a.len() + b.len()) == b,
        s.subrange(pos + a.len() + b.len(), pos + a.len() + b.len() + c.len()) == c,
        s.subrange(
            pos + a.len() + b.len() + c.len(),
            pos + a.len() + b.len() + c.len() + d.len(),
        ) == d,
{
    assert(a + b + c + d =~= (a + b + c) + d);
    lemma_subrange_split(s, pos, a + b + c, d);
    lemma_subrange_split3(s, pos, a, b, c);
}

/// Splitting a known subrange of a buffer into five parts.
pub proof fn lemma_subrange_split5(
    s: Seq<u8>,
    pos: int,
    a: Seq<u8>,
    b: Seq<u8>,
    c: Seq<u8>,
    d: Seq<u8>,
    e: Seq<u8>,
)
    requires
        0 <= pos,
        pos + a.len() + b.len() + c.len() + d.len() + e.len() <= s.len(),
        s.subrange(pos, pos + a.len() + b.len() + c.len() + d.len() + e.len()) == a + b + c + d + e,
    ensures
        s.subrange(pos, pos + a.len()) == a,
        s.subrange(pos + a.len(), pos + a.len() + b.len()) == b,
        s.subrange(pos + a.len() + b.len(), pos + a.len() + b.len() + c.len()) == c,
        s.subrange(
            pos + a.len() + b.len() + c.len(),
            pos + a.len() + b.len() + c.len() + d.len(),
        ) == d,
        s.subrange(
            pos + a.len() + b.len() + c.len() + d.len(),
            pos + a.len() + b.len() + c.len() + d.len() + e.len(),
        ) == e,
{
    assert(a + b + c + d + e =~= (a + b + c + d) + e);
    lemma_subrange_split(s, pos, a + b + c + d, e);
    lemma_subrange_split4(s, pos, a, b, c, d);
}

} // verus!
