use vstd::prelude::*;
use vstd::utf8::*;
use vstd::string::*;
use vstd::slice::{slice_subrange, slice_to_vec};
use crate::change::{Change, ChangeModel};
use crate::ids::{ColumnName, TableName};
use crate::value::{Real, SqliteValue, ValueModel, utf8_len};

verus! {

/// Why a byte sequence could not be decoded.
#[derive(Debug, Clone, Copy, PartialEq, Eq, Structural)]
pub enum DecodeError {
    /// The input ended inside a field.
    Truncated,
    /// A value's type tag is none of the five known tags.
    UnknownTag(u8),
    /// A text payload is not valid UTF-8.
    InvalidUtf8,
    /// Bytes remain after a complete record.
    TrailingBytes,
}

/// Largest payload length that a 4-byte length prefix can carry.
pub const MAX_PAYLOAD_LEN: u64 = 0xffff_ffff;

/// The low `n` bytes of `x`, least significant first.
pub open spec fn le_bytes(x: u64, n: nat) -> Seq<u8>
    decreases n,
{
    if n == 0 {
        seq![]
    } else {
        seq![(x & 0xff) as u8] + le_bytes(x >> 8, (n - 1) as nat)
    }
}

/// The number that the first `n` bytes of `b` give, least significant first.
pub open spec fn from_le_bytes(b: Seq<u8>, n: nat) -> int
    decreases n,
{
    if n == 0 || b.len() == 0 {
        0
    } else {
        b[0] as int + 256 * from_le_bytes(b.drop_first(), (n - 1) as nat)
    }
}

/// Two's-complement bit pattern of a signed integer.
pub open spec fn i64_bits(x: i64) -> u64 {
    if x >= 0 {
        x as u64
    } else {
        (x + 0x1_0000_0000_0000_0000) as u64
    }
}

/// Signed integer with a given two's-complement bit pattern.
pub open spec fn i64_of_bits(u: u64) -> i64 {
    if u < 0x8000_0000_0000_0000 {
        u as i64
    } else {
        (u - 0x1_0000_0000_0000_0000) as i64
    }
}

/// A length-prefixed field: the length in 4 bytes, then the bytes.
pub open spec fn bytes_field(b: Seq<u8>) -> Seq<u8> {
    le_bytes(b.len() as u64, 4) + b
}

/// Whether every length inside a value fits a 4-byte prefix.
pub open spec fn value_fits(v: ValueModel) -> bool {
    match v {
        ValueModel::Text(s) => utf8_len(s) <= MAX_PAYLOAD_LEN,
        ValueModel::Blob(b) => b.len() <= MAX_PAYLOAD_LEN,
        _ => true,
    }
}

/// The wire form of a value: a tag byte (0 null, 1 integer, 2 real, 3 text,
/// 4 blob), then 8 little-endian bytes for numbers or a length-prefixed
/// payload for text (as UTF-8) and blobs.
pub open spec fn value_bytes(v: ValueModel) -> Seq<u8> {
    match v {
        ValueModel::Null => seq![0u8],
        ValueModel::Integer(i) => seq![1u8] + le_bytes(i64_bits(i), 8),
        ValueModel::Real(bits) => seq![2u8] + le_bytes(bits, 8),
        ValueModel::Text(s) => seq![3u8] + bytes_field(encode_utf8(s)),
        ValueModel::Blob(b) => seq![4u8] + bytes_field(b),
    }
}

/// Reads an unsigned number of `n` little-endian bytes.
pub open spec fn parse_uint(b: Seq<u8>, n: nat) -> Result<(int, nat), DecodeError> {
    if b.len() < n {
        Err(DecodeError::Truncated)
    } else {
        Ok((from_le_bytes(b, n), n))
    }
}

/// Reads a length-prefixed field.
pub open spec fn parse_bytes_field(b: Seq<u8>) -> Result<(Seq<u8>, nat), DecodeError> {
    match parse_uint(b, 4) {
        Err(e) => Err(e),
        Ok((len, _)) => if b.len() < 4 + len {
            Err(DecodeError::Truncated)
        } else {
            Ok((b.subrange(4, 4 + len), (4 + len) as nat))
        },
    }
}

/// Reads a length-prefixed UTF-8 text field.
pub open spec fn parse_text_field(b: Seq<u8>) -> Result<(Seq<char>, nat), DecodeError> {
    match parse_bytes_field(b) {
        Err(e) => Err(e),
        Ok((t, n)) => if valid_utf8(t) {
            Ok((decode_utf8(t), n))
        } else {
            Err(DecodeError::InvalidUtf8)
        },
    }
}

/// Reads one value from the front of `b`, giving the value and the number of
/// bytes it took.
pub open spec fn parse_value(b: Seq<u8>) -> Result<(ValueModel, nat), DecodeError> {
    if b.len() == 0 {
        Err(DecodeError::Truncated)
    } else {
        let rest = b.drop_first();
        if b[0] == 0 {
            Ok((ValueModel::Null, 1))
        } else if b[0] == 1 {
            match parse_uint(rest, 8) {
                Err(e) => Err(e),
                Ok((x, n)) => Ok((ValueModel::Integer(i64_of_bits(x as u64)), n + 1)),
            }
        } else if b[0] == 2 {
            match parse_uint(rest, 8) {
                Err(e) => Err(e),
                Ok((x, n)) => Ok((ValueModel::Real(x as u64), n + 1)),
            }
        } else if b[0] == 3 {
            match parse_text_field(rest) {
                Err(e) => Err(e),
                Ok((s, n)) => Ok((ValueModel::Text(s), n + 1)),
            }
        } else if b[0] == 4 {
            match parse_bytes_field(rest) {
                Err(e) => Err(e),
                Ok((t, n)) => Ok((ValueModel::Blob(t), n + 1)),
            }
        } else {
            Err(DecodeError::UnknownTag(b[0]))
        }
    }
}

proof fn lemma_le_bytes_len(x: u64, n: nat)
    ensures
        le_bytes(x, n).len() == n,
    decreases n,
{
    if n > 0 {
        lemma_le_bytes_len(x >> 8, (n - 1) as nat);
    }
}

proof fn lemma_byte_split(x: u64)
    ensures
        (x & 0xff) as int == x as int % 256,
        (x >> 8) as int == x as int / 256,
{
    assert(x & 0xff == x % 256) by (bit_vector);
    assert(x >> 8 == x / 256) by (bit_vector);
}

/// Reading `n` little-endian bytes back gives the number they were taken
/// from, when it fits in `n` bytes.
proof fn lemma_le_round_trip(x: u64, n: nat, rest: Seq<u8>)
    requires
        n <= 8,
        (x as int) < pow256(n),
    ensures
        from_le_bytes(le_bytes(x, n) + rest, n) == x as int,
    decreases n,
{
    lemma_le_bytes_len(x, n);
    if n > 0 {
        let b = le_bytes(x, n) + rest;
        lemma_le_bytes_len(x >> 8, (n - 1) as nat);
        assert(b.drop_first() =~= le_bytes(x >> 8, (n - 1) as nat) + rest);
        lemma_byte_split(x);
        assert(((x >> 8) as int) < pow256((n - 1) as nat)) by {
            assert(pow256(n) == 256 * pow256((n - 1) as nat));
        }
        lemma_le_round_trip(x >> 8, (n - 1) as nat, rest);
        assert(b[0] == (x & 0xff) as u8);
    }
}

/// `256` to the power `n`.
pub open spec fn pow256(n: nat) -> int
    decreases n,
{
    if n == 0 {
        1
    } else {
        256 * pow256((n - 1) as nat)
    }
}


proof fn lemma_pow256_facts(n: nat)
    requires
        n <= 8,
    ensures
        pow256(n) >= 1,
        pow256(n) <= pow256(8),
        pow256(4) == 0x1_0000_0000,
        pow256(8) == 0x1_0000_0000_0000_0000,
    decreases 8 - n,
{
    reveal_with_fuel(pow256, 9);
    if n < 8 {
        lemma_pow256_facts(n + 1);
    }
}

proof fn lemma_from_le_bound(b: Seq<u8>, n: nat)
    ensures
        0 <= from_le_bytes(b, n) < pow256(n),
    decreases n,
{
    lemma_pow256_pos(n);
    if n > 0 && b.len() > 0 {
        lemma_from_le_bound(b.drop_first(), (n - 1) as nat);
    }
}

proof fn lemma_pow256_pos(n: nat)
    ensures
        pow256(n) >= 1,
    decreases n,
{
    if n > 0 {
        lemma_pow256_pos((n - 1) as nat);
    }
}

proof fn lemma_i64_bits_round_trip(i: i64)
    ensures
        i64_of_bits(i64_bits(i)) == i,
{
}

proof fn lemma_seq_skip_concat(a: Seq<u8>, b: Seq<u8>)
    ensures
        (a + b).subrange(a.len() as int, (a + b).len() as int) == b,
        (a + b).drop_first() == (if a.len() > 0 { a.drop_first() + b } else { b.drop_first() }),
{
    assert((a + b).subrange(a.len() as int, (a + b).len() as int) =~= b);
    if a.len() > 0 {
        assert((a + b).drop_first() =~= a.drop_first() + b);
    } else {
        assert(a + b =~= b);
    }
}

/// A length-prefixed field reads back as the bytes it was made from, and
/// takes exactly its own length.
pub proof fn lemma_bytes_field_round_trip(b: Seq<u8>, rest: Seq<u8>)
    requires
        b.len() <= MAX_PAYLOAD_LEN,
    ensures
        parse_bytes_field(bytes_field(b) + rest) == Ok::<(Seq<u8>, nat), DecodeError>(
            (b, 4 + b.len()),
        ),
{
    let w = bytes_field(b) + rest;
    lemma_le_bytes_len(b.len() as u64, 4);
    lemma_pow256_facts(4);
    assert(w =~= le_bytes(b.len() as u64, 4) + (b + rest));
    lemma_le_round_trip(b.len() as u64, 4, b + rest);
    assert(w.subrange(4, 4 + b.len() as int) =~= b);
}

/// A UTF-8 text field reads back as the text it was made from.
pub proof fn lemma_text_field_round_trip(s: Seq<char>, rest: Seq<u8>)
    requires
        utf8_len(s) <= MAX_PAYLOAD_LEN,
    ensures
        parse_text_field(bytes_field(encode_utf8(s)) + rest) == Ok::<(Seq<char>, nat), DecodeError>(
            (s, 4 + utf8_len(s)),
        ),
{
    lemma_bytes_field_round_trip(encode_utf8(s), rest);
    encode_utf8_valid_utf8(s);
    encode_utf8_decode_utf8(s);
}

/// Decoding the encoding of a value, followed by anything, gives the value
/// back and consumes exactly its encoding.
pub proof fn lemma_value_round_trip(v: ValueModel, rest: Seq<u8>)
    requires
        value_fits(v),
    ensures
        parse_value(value_bytes(v) + rest) == Ok::<(ValueModel, nat), DecodeError>(
            (v, value_bytes(v).len()),
        ),
{
    let w = value_bytes(v) + rest;
    lemma_pow256_facts(8);
    match v {
        ValueModel::Null => {
        },
        ValueModel::Integer(i) => {
            lemma_le_bytes_len(i64_bits(i), 8);
            assert(w.drop_first() =~= le_bytes(i64_bits(i), 8) + rest);
            lemma_le_round_trip(i64_bits(i), 8, rest);
            lemma_i64_bits_round_trip(i);
        },
        ValueModel::Real(bits) => {
            lemma_le_bytes_len(bits, 8);
            assert(w.drop_first() =~= le_bytes(bits, 8) + rest);
            lemma_le_round_trip(bits, 8, rest);
        },
        ValueModel::Text(s) => {
            assert(w.drop_first() =~= bytes_field(encode_utf8(s)) + rest);
            lemma_le_bytes_len(encode_utf8(s).len() as u64, 4);
            lemma_text_field_round_trip(s, rest);
        },
        ValueModel::Blob(b) => {
            assert(w.drop_first() =~= bytes_field(b) + rest);
            lemma_le_bytes_len(b.len() as u64, 4);
            lemma_bytes_field_round_trip(b, rest);
        },
    }
}

/// A value whose tag byte is not one of the five known tags is rejected as
/// such, never read as some default value.
pub proof fn lemma_unknown_tag_rejected(b: Seq<u8>)
    requires
        b.len() > 0,
        b[0] > 4,
    ensures
        parse_value(b) == Err::<(ValueModel, nat), DecodeError>(DecodeError::UnknownTag(b[0])),
{
}


/// Relies on std::str::from_utf8: it succeeds exactly on valid UTF-8, and the
/// text it returns is made of those very bytes.
#[verifier::external_body]
fn utf8_text(b: &[u8]) -> (r: Option<&str>)
    ensures
        r is Some <==> valid_utf8(b@),
        r matches Some(t) ==> t.spec_bytes() == b@,
{
    std::str::from_utf8(b).ok()
}

fn low_byte(x: u64) -> (r: u8)
    ensures
        r == (x & 0xff) as u8,
{
    assert(x & 0xff <= 0xff) by (bit_vector);
    (x & 0xff) as u8
}

fn i64_to_bits(x: i64) -> (r: u64)
    ensures
        r == i64_bits(x),
{
    if x >= 0 {
        x as u64
    } else {
        ((x + 1 + i64::MAX) as u64) + 0x8000_0000_0000_0000
    }
}

fn bits_to_i64(u: u64) -> (r: i64)
    ensures
        r == i64_of_bits(u),
{
    if u < 0x8000_0000_0000_0000 {
        u as i64
    } else {
        ((u - 0x8000_0000_0000_0000) as i64) - i64::MAX - 1
    }
}

/// Appends the low `n` bytes of `x`, least significant first.
fn push_le(out: &mut Vec<u8>, x: u64, n: usize)
    ensures
        final(out)@ == old(out)@ + le_bytes(x, n as nat),
    decreases n,
{
    let ghost pre = out@;
    if n > 0 {
        out.push(low_byte(x));
        push_le(out, x >> 8, n - 1);
        assert(out@ =~= pre + le_bytes(x, n as nat));
    } else {
        assert(out@ =~= pre + le_bytes(x, n as nat));
    }
}

/// Appends raw bytes.
fn push_bytes(out: &mut Vec<u8>, b: &[u8])
    ensures
        final(out)@ == old(out)@ + b@,
{
    let ghost pre = out@;
    let mut i: usize = 0;
    while i < b.len()
        invariant
            0 <= i <= b.len(),
            out@ == pre + b@.subrange(0, i as int),
        decreases b.len() - i,
    {
        out.push(b[i]);
        i = i + 1;
        assert(out@ =~= pre + b@.subrange(0, i as int));
    }
    assert(b@.subrange(0, b.len() as int) =~= b@);
}

/// Appends a length-prefixed field.
fn push_bytes_field(out: &mut Vec<u8>, b: &[u8])
    requires
        b@.len() <= MAX_PAYLOAD_LEN,
    ensures
        final(out)@ == old(out)@ + bytes_field(b@),
{
    let ghost pre = out@;
    push_le(out, b.len() as u64, 4);
    push_bytes(out, b);
    assert(out@ =~= pre + bytes_field(b@));
}

/// Reads an unsigned number of `n` little-endian bytes at `pos`.
fn read_uint(buf: &[u8], pos: usize, n: usize) -> (r: Result<(u64, usize), DecodeError>)
    requires
        pos <= buf@.len(),
        n <= 8,
    ensures
        r matches Ok((_, p)) ==> pos <= p <= buf@.len(),
        parse_uint(buf@.skip(pos as int), n as nat) matches Ok((x, k)) ==> r matches Ok((y, p))
            && y as int == x && p == pos + k,
        parse_uint(buf@.skip(pos as int), n as nat) matches Err(e) ==> r == Err::<
            (u64, usize),
            DecodeError,
        >(e),
{
    if buf.len() - pos < n {
        return Err(DecodeError::Truncated);
    }
    let mut acc: u64 = 0;
    let mut j: usize = n;
    while j > 0
        invariant
            0 <= j <= n,
            n <= 8,
            pos + n <= buf.len(),
            acc as int == from_le_bytes(buf@.skip((pos + j) as int), (n - j) as nat),
        decreases j,
    {
        j = j - 1;
        proof {
            lemma_from_le_bound(buf@.skip((pos + j + 1) as int), (n - j - 1) as nat);
            lemma_pow256_facts((n - j) as nat);
            assert(pow256((n - j) as nat) == 256 * pow256((n - j - 1) as nat));
            assert(buf@.skip((pos + j) as int).drop_first() =~= buf@.skip((pos + j + 1) as int));
        }
        acc = acc * 256 + buf[pos + j] as u64;
    }
    Ok((acc, pos + n))
}

/// Reads a length-prefixed field at `pos`.
fn read_bytes_field(buf: &[u8], pos: usize) -> (r: Result<(&[u8], usize), DecodeError>)
    requires
        pos <= buf@.len(),
    ensures
        r matches Ok((_, p)) ==> pos <= p <= buf@.len(),
        parse_bytes_field(buf@.skip(pos as int)) matches Ok((t, k)) ==> r matches Ok((s, p))
            && s@ == t && p == pos + k,
        parse_bytes_field(buf@.skip(pos as int)) matches Err(e) ==> r == Err::<
            (&[u8], usize),
            DecodeError,
        >(e),
{
    match read_uint(buf, pos, 4) {
        Err(e) => Err(e),
        Ok((len, p)) => {
            if len > (buf.len() - p) as u64 {
                Err(DecodeError::Truncated)
            } else {
                let end = p + len as usize;
                let t = slice_subrange(buf, p, end);
                assert(t@ =~= buf@.skip(pos as int).subrange(4, 4 + len as int));
                Ok((t, end))
            }
        },
    }
}

/// Reads a length-prefixed UTF-8 text field at `pos`.
fn read_text_field(buf: &[u8], pos: usize) -> (r: Result<(String, usize), DecodeError>)
    requires
        pos <= buf@.len(),
    ensures
        r matches Ok((_, p)) ==> pos <= p <= buf@.len(),
        parse_text_field(buf@.skip(pos as int)) matches Ok((t, k)) ==> r matches Ok((s, p))
            && s@ == t && p == pos + k,
        parse_text_field(buf@.skip(pos as int)) matches Err(e) ==> r == Err::<
            (String, usize),
            DecodeError,
        >(e),
{
    match read_bytes_field(buf, pos) {
        Err(e) => Err(e),
        Ok((t, p)) => match utf8_text(t) {
            None => Err(DecodeError::InvalidUtf8),
            Some(s) => {
                proof {
                    encode_utf8_decode_utf8(s@);
                }
                Ok((String::from_str(s), p))
            },
        },
    }
}

/// Appends the wire form of a value.
fn write_value(v: &SqliteValue, out: &mut Vec<u8>)
    requires
        value_fits(v@),
    ensures
        final(out)@ == old(out)@ + value_bytes(v@),
{
    let ghost pre = out@;
    match v {
        SqliteValue::Null => {
            out.push(0u8);
        },
        SqliteValue::Integer(i) => {
            out.push(1u8);
            push_le(out, i64_to_bits(*i), 8);
        },
        SqliteValue::Real(f) => {
            out.push(2u8);
            push_le(out, f.0, 8);
        },
        SqliteValue::Text(s) => {
            out.push(3u8);
            push_bytes_field(out, s.as_str().as_bytes());
        },
        SqliteValue::Blob(b) => {
            out.push(4u8);
            push_bytes_field(out, b.as_slice());
        },
    }
    assert(out@ =~= pre + value_bytes(v@));
}

/// Reads one value at `pos`.
fn read_value(buf: &[u8], pos: usize) -> (r: Result<(SqliteValue, usize), DecodeError>)
    requires
        pos <= buf@.len(),
    ensures
        r matches Ok((_, p)) ==> pos <= p <= buf@.len(),
        parse_value(buf@.skip(pos as int)) matches Ok((v, k)) ==> r matches Ok((x, p)) && x@ == v
            && p == pos + k,
        parse_value(buf@.skip(pos as int)) matches Err(e) ==> r == Err::<
            (SqliteValue, usize),
            DecodeError,
        >(e),
{
    if pos == buf.len() {
        return Err(DecodeError::Truncated);
    }
    let tag = buf[pos];
    let next = pos + 1;
    assert(buf@.skip(pos as int).drop_first() =~= buf@.skip(next as int));
    if tag == 0 {
        Ok((SqliteValue::Null, next))
    } else if tag == 1 {
        match read_uint(buf, next, 8) {
            Err(e) => Err(e),
            Ok((x, p)) => Ok((SqliteValue::Integer(bits_to_i64(x)), p)),
        }
    } else if tag == 2 {
        match read_uint(buf, next, 8) {
            Err(e) => Err(e),
            Ok((x, p)) => Ok((SqliteValue::Real(Real(x)), p)),
        }
    } else if tag == 3 {
        match read_text_field(buf, next) {
            Err(e) => Err(e),
            Ok((s, p)) => Ok((SqliteValue::Text(s), p)),
        }
    } else if tag == 4 {
        match read_bytes_field(buf, next) {
            Err(e) => Err(e),
            Ok((b, p)) => Ok((SqliteValue::Blob(slice_to_vec(b)), p)),
        }
    } else {
        Err(DecodeError::UnknownTag(tag))
    }
}


/// The 48 fixed bytes that end a change's wire form: the three version
/// counters, the site id and the causal length.
pub open spec fn tail_bytes(c: ChangeModel) -> Seq<u8> {
    le_bytes(i64_bits(c.col_version), 8) + (le_bytes(i64_bits(c.db_version), 8) + (le_bytes(
        i64_bits(c.seq),
        8,
    ) + (c.site_id + le_bytes(i64_bits(c.cl), 8))))
}

/// The wire form of a change: its fields in order (table, primary key,
/// column, value, column version, database version, sequence, site id,
/// causal length). Text and the key are length-prefixed; the site id is 16
/// raw bytes; integers are 8 little-endian bytes.
pub open spec fn change_bytes(c: ChangeModel) -> Seq<u8> {
    bytes_field(encode_utf8(c.table)) + (bytes_field(c.pk) + (bytes_field(encode_utf8(c.cid)) + (
    value_bytes(c.val) + tail_bytes(c))))
}

/// Whether a change can be put on the wire: every length fits its 4-byte
/// prefix and the site id has 16 bytes.
pub open spec fn change_fits(c: ChangeModel) -> bool {
    &&& utf8_len(c.table) <= MAX_PAYLOAD_LEN
    &&& c.pk.len() <= MAX_PAYLOAD_LEN
    &&& utf8_len(c.cid) <= MAX_PAYLOAD_LEN
    &&& value_fits(c.val)
    &&& c.site_id.len() == 16
}

/// Reads a signed 8-byte little-endian integer from the front of `b`.
pub open spec fn le_i64(b: Seq<u8>) -> i64 {
    i64_of_bits(from_le_bytes(b, 8) as u64)
}

/// Reads the fixed 48 bytes that end a change, which must also end the input,
/// and completes the change from the fields read before them.
pub open spec fn parse_tail(
    t: Seq<u8>,
    table: Seq<char>,
    pk: Seq<u8>,
    cid: Seq<char>,
    val: ValueModel,
) -> Result<ChangeModel, DecodeError> {
    if t.len() < 48 {
        Err(DecodeError::Truncated)
    } else if t.len() > 48 {
        Err(DecodeError::TrailingBytes)
    } else {
        Ok(
            ChangeModel {
                table,
                pk,
                cid,
                val,
                col_version: le_i64(t),
                db_version: le_i64(t.skip(8)),
                seq: le_i64(t.skip(16)),
                site_id: t.subrange(24, 40),
                cl: le_i64(t.skip(40)),
            },
        )
    }
}

/// Reads a whole change; the input must hold exactly one change.
pub open spec fn parse_change(b: Seq<u8>) -> Result<ChangeModel, DecodeError> {
    match parse_text_field(b) {
        Err(e) => Err(e),
        Ok((table, n1)) => {
            let b1 = b.skip(n1 as int);
            match parse_bytes_field(b1) {
                Err(e) => Err(e),
                Ok((pk, n2)) => {
                    let b2 = b1.skip(n2 as int);
                    match parse_text_field(b2) {
                        Err(e) => Err(e),
                        Ok((cid, n3)) => {
                            let b3 = b2.skip(n3 as int);
                            match parse_value(b3) {
                                Err(e) => Err(e),
                                Ok((val, n4)) => parse_tail(b3.skip(n4 as int), table, pk, cid, val),
                            }
                        },
                    }
                },
            }
        },
    }
}

proof fn lemma_le_i64_round_trip(x: i64, rest: Seq<u8>)
    ensures
        le_i64(le_bytes(i64_bits(x), 8) + rest) == x,
        le_bytes(i64_bits(x), 8).len() == 8,
{
    lemma_pow256_facts(8);
    lemma_le_bytes_len(i64_bits(x), 8);
    lemma_le_round_trip(i64_bits(x), 8, rest);
    lemma_i64_bits_round_trip(x);
}

/// Decoding the encoding of a change gives the change back.
pub proof fn lemma_change_round_trip(c: ChangeModel)
    requires
        change_fits(c),
    ensures
        parse_change(change_bytes(c)) == Ok::<ChangeModel, DecodeError>(c),
{
    let f1 = bytes_field(encode_utf8(c.table));
    let f2 = bytes_field(c.pk);
    let f3 = bytes_field(encode_utf8(c.cid));
    let f4 = value_bytes(c.val);
    let t = tail_bytes(c);
    let r3 = f4 + t;
    let r2 = f3 + r3;
    let r1 = f2 + r2;
    let w = f1 + r1;
    assert(w == change_bytes(c));
    lemma_le_bytes_len(utf8_len(c.table) as u64, 4);
    lemma_le_bytes_len(c.pk.len() as u64, 4);
    lemma_le_bytes_len(utf8_len(c.cid) as u64, 4);
    lemma_text_field_round_trip(c.table, r1);
    lemma_seq_skip_concat(f1, r1);
    assert(w.skip(f1.len() as int) == r1);
    lemma_bytes_field_round_trip(c.pk, r2);
    lemma_seq_skip_concat(f2, r2);
    assert(r1.skip(f2.len() as int) == r2);
    lemma_text_field_round_trip(c.cid, r3);
    lemma_seq_skip_concat(f3, r3);
    assert(r2.skip(f3.len() as int) == r3);
    lemma_value_round_trip(c.val, t);
    lemma_seq_skip_concat(f4, t);
    assert(r3.skip(f4.len() as int) == t);
    lemma_tail_round_trip(c);
}

proof fn lemma_tail_round_trip(c: ChangeModel)
    requires
        c.site_id.len() == 16,
    ensures
        parse_tail(tail_bytes(c), c.table, c.pk, c.cid, c.val) == Ok::<ChangeModel, DecodeError>(c),
{
    let t = tail_bytes(c);
    let s0 = le_bytes(i64_bits(c.col_version), 8);
    let s1 = le_bytes(i64_bits(c.db_version), 8);
    let s2 = le_bytes(i64_bits(c.seq), 8);
    let s4 = le_bytes(i64_bits(c.cl), 8);
    lemma_le_i64_round_trip(c.col_version, s1 + (s2 + (c.site_id + s4)));
    lemma_le_i64_round_trip(c.db_version, s2 + (c.site_id + s4));
    lemma_le_i64_round_trip(c.seq, c.site_id + s4);
    lemma_le_i64_round_trip(c.cl, seq![]);
    assert(t.len() == 48);
    assert(t.skip(8) =~= s1 + (s2 + (c.site_id + s4)));
    assert(t.skip(16) =~= s2 + (c.site_id + s4));
    assert(t.skip(40) =~= s4 + seq![]);
    assert(t.subrange(24, 40) =~= c.site_id);
}

proof fn lemma_le_canonical(b: Seq<u8>, n: nat)
    requires
        n <= 8,
        b.len() >= n,
    ensures
        le_bytes(from_le_bytes(b, n) as u64, n) == b.take(n as int),
    decreases n,
{
    if n == 0 {
        assert(b.take(0) =~= Seq::<u8>::empty());
    } else {
        let b0 = b[0] as int;
        let y = from_le_bytes(b.drop_first(), (n - 1) as nat);
        let x = from_le_bytes(b, n);
        lemma_from_le_bound(b.drop_first(), (n - 1) as nat);
        lemma_from_le_bound(b, n);
        lemma_pow256_facts(n);
        assert(x == b0 + 256 * y);
        assert((b0 + 256 * y) % 256 == b0 && (b0 + 256 * y) / 256 == y) by (nonlinear_arith)
            requires
                0 <= b0 < 256,
                0 <= y,
        ;
        lemma_byte_split(x as u64);
        lemma_le_canonical(b.drop_first(), (n - 1) as nat);
        assert(b.take(n as int) =~= seq![b[0]] + b.drop_first().take(n - 1));
    }
}

proof fn lemma_i64_bits_canonical(u: u64)
    ensures
        i64_bits(i64_of_bits(u)) == u,
{
}

/// Whatever a length-prefixed field reads is a field that encodes back to
/// exactly the bytes read.
proof fn lemma_bytes_field_canonical(b: Seq<u8>)
    ensures
        parse_bytes_field(b) matches Ok((t, n)) ==> t.len() <= MAX_PAYLOAD_LEN && n <= b.len()
            && bytes_field(t) == b.take(n as int),
{
    if let Ok((t, n)) = parse_bytes_field(b) {
        lemma_from_le_bound(b, 4);
        lemma_pow256_facts(4);
        lemma_le_canonical(b, 4);
        assert(t.len() == from_le_bytes(b, 4));
        assert(b.take(n as int) =~= b.take(4) + t);
    }
}

proof fn lemma_text_field_canonical(b: Seq<u8>)
    ensures
        parse_text_field(b) matches Ok((s, n)) ==> utf8_len(s) <= MAX_PAYLOAD_LEN && n <= b.len()
            && bytes_field(encode_utf8(s)) == b.take(n as int),
{
    lemma_bytes_field_canonical(b);
    if let Ok((t, n)) = parse_bytes_field(b) {
        if valid_utf8(t) {
            decode_utf8_encode_utf8(t);
        }
    }
}

/// Whatever decodes to a value is exactly that value's encoding.
pub proof fn lemma_value_canonical(b: Seq<u8>)
    ensures
        parse_value(b) matches Ok((v, n)) ==> value_fits(v) && n <= b.len() && value_bytes(v)
            == b.take(n as int),
{
    if let Ok((v, n)) = parse_value(b) {
        let rest = b.drop_first();
        lemma_pow256_facts(8);
        if b[0] == 1 || b[0] == 2 {
            lemma_from_le_bound(rest, 8);
            lemma_le_canonical(rest, 8);
            lemma_i64_bits_canonical(from_le_bytes(rest, 8) as u64);
        } else if b[0] == 3 {
            lemma_text_field_canonical(rest);
        } else if b[0] == 4 {
            lemma_bytes_field_canonical(rest);
        }
        assert(b.take(n as int) =~= seq![b[0]] + rest.take(n - 1));
    }
}

proof fn lemma_tail_canonical(t: Seq<u8>, table: Seq<char>, pk: Seq<u8>, cid: Seq<char>, val: ValueModel)
    ensures
        parse_tail(t, table, pk, cid, val) matches Ok(c) ==> c.site_id.len() == 16 && tail_bytes(c)
            == t,
{
    if let Ok(c) = parse_tail(t, table, pk, cid, val) {
        lemma_pow256_facts(8);
        lemma_from_le_bound(t, 8);
        lemma_from_le_bound(t.skip(8), 8);
        lemma_from_le_bound(t.skip(16), 8);
        lemma_from_le_bound(t.skip(40), 8);
        lemma_le_canonical(t, 8);
        lemma_le_canonical(t.skip(8), 8);
        lemma_le_canonical(t.skip(16), 8);
        lemma_le_canonical(t.skip(40), 8);
        lemma_i64_bits_canonical(from_le_bytes(t, 8) as u64);
        lemma_i64_bits_canonical(from_le_bytes(t.skip(8), 8) as u64);
        lemma_i64_bits_canonical(from_le_bytes(t.skip(16), 8) as u64);
        lemma_i64_bits_canonical(from_le_bytes(t.skip(40), 8) as u64);
        assert(t =~= t.take(8) + (t.skip(8).take(8) + (t.skip(16).take(8) + (t.subrange(24, 40)
            + t.skip(40).take(8)))));
    }
}

/// Decoding accepts only canonical input: whatever decodes to a change is
/// exactly that change's encoding. With the round trip, `decode` succeeds on
/// a buffer exactly when it is the encoding of some change.
pub proof fn lemma_change_decode_canonical(b: Seq<u8>)
    ensures
        parse_change(b) matches Ok(c) ==> change_fits(c) && change_bytes(c) == b,
{
    if let Ok(c) = parse_change(b) {
        lemma_text_field_canonical(b);
        let n1 = parse_text_field(b)->Ok_0.1;
        let b1 = b.skip(n1 as int);
        lemma_bytes_field_canonical(b1);
        let n2 = parse_bytes_field(b1)->Ok_0.1;
        let b2 = b1.skip(n2 as int);
        lemma_text_field_canonical(b2);
        let n3 = parse_text_field(b2)->Ok_0.1;
        let b3 = b2.skip(n3 as int);
        lemma_value_canonical(b3);
        let n4 = parse_value(b3)->Ok_0.1;
        let t = b3.skip(n4 as int);
        lemma_tail_canonical(t, c.table, c.pk, c.cid, c.val);
        assert(b3 =~= b3.take(n4 as int) + t);
        assert(b2 =~= b2.take(n3 as int) + b3);
        assert(b1 =~= b1.take(n2 as int) + b2);
        assert(b =~= b.take(n1 as int) + b1);
    }
}

/// Appends the wire form of a change.
fn write_change(c: &Change, out: &mut Vec<u8>)
    requires
        change_fits(c@),
    ensures
        final(out)@ == old(out)@ + change_bytes(c@),
{
    let ghost pre = out@;
    push_bytes_field(out, c.table.as_str().as_bytes());
    push_bytes_field(out, c.pk.as_slice());
    push_bytes_field(out, c.cid.as_str().as_bytes());
    write_value(&c.val, out);
    write_tail(c, out);
    assert(out@ =~= pre + change_bytes(c@));
}

/// Appends the fixed 48 bytes that end a change's wire form.
fn write_tail(c: &Change, out: &mut Vec<u8>)
    ensures
        final(out)@ == old(out)@ + tail_bytes(c@),
{
    let ghost pre = out@;
    push_le(out, i64_to_bits(c.col_version), 8);
    push_le(out, i64_to_bits(c.db_version), 8);
    push_le(out, i64_to_bits(c.seq), 8);
    push_bytes(out, c.site_id.as_slice());
    push_le(out, i64_to_bits(c.cl), 8);
    assert(out@ =~= pre + tail_bytes(c@));
}

/// Reads a signed 8-byte integer at `pos`, which must have 8 bytes after it.
fn read_i64(buf: &[u8], pos: usize) -> (r: i64)
    requires
        pos + 8 <= buf@.len(),
    ensures
        r == le_i64(buf@.skip(pos as int)),
{
    match read_uint(buf, pos, 8) {
        Ok((x, _)) => bits_to_i64(x),
        Err(_) => 0,
    }
}

impl SqliteValue {
    /// Whether every length in this value fits its 4-byte wire prefix.
    pub fn wire_fits(&self) -> (r: bool)
        ensures
            r == value_fits(self@),
    {
        match self {
            SqliteValue::Text(s) => s.as_str().as_bytes().len() as u64 <= MAX_PAYLOAD_LEN,
            SqliteValue::Blob(b) => b.len() as u64 <= MAX_PAYLOAD_LEN,
            _ => true,
        }
    }

    /// Exact number of bytes in this value's wire form.
    pub fn bytes_needed(&self) -> (r: usize)
        requires
            value_bytes(self@).len() <= usize::MAX,
        ensures
            r == value_bytes(self@).len(),
    {
        proof {
            lemma_le_bytes_len(0, 8);
            match self@ {
                ValueModel::Integer(i) => lemma_le_bytes_len(i64_bits(i), 8),
                ValueModel::Real(bits) => lemma_le_bytes_len(bits, 8),
                ValueModel::Text(t) => lemma_le_bytes_len(utf8_len(t) as u64, 4),
                ValueModel::Blob(b) => lemma_le_bytes_len(b.len() as u64, 4),
                _ => {},
            }
        }
        1 + match self {
            SqliteValue::Null => 0,
            SqliteValue::Integer(_) => 8,
            SqliteValue::Real(_) => 8,
            SqliteValue::Text(s) => 4 + s.as_str().as_bytes().len(),
            SqliteValue::Blob(b) => 4 + b.len(),
        }
    }

    /// Appends this value's wire form to `out`.
    pub fn write_to(&self, out: &mut Vec<u8>)
        requires
            value_fits(self@),
        ensures
            final(out)@ == old(out)@ + value_bytes(self@),
    {
        write_value(self, out)
    }

    /// This value's wire form, or `None` when a length does not fit its prefix.
    pub fn encode(&self) -> (r: Option<Vec<u8>>)
        ensures
            r is Some <==> value_fits(self@),
            r matches Some(b) ==> b@ == value_bytes(self@),
    {
        if self.wire_fits() {
            let mut out: Vec<u8> = Vec::new();
            write_value(self, &mut out);
            assert(out@ =~= value_bytes(self@));
            Some(out)
        } else {
            None
        }
    }

    /// Reads one value starting at `pos`, giving it and the position just
    /// after it.
    pub fn read_from(buf: &[u8], pos: usize) -> (r: Result<(SqliteValue, usize), DecodeError>)
        requires
            pos <= buf@.len(),
        ensures
            r matches Ok((_, p)) ==> pos <= p <= buf@.len(),
            parse_value(buf@.skip(pos as int)) matches Ok((v, k)) ==> r matches Ok((x, p)) && x@
                == v && p == pos + k,
            parse_value(buf@.skip(pos as int)) matches Err(e) ==> r == Err::<
                (SqliteValue, usize),
                DecodeError,
            >(e),
    {
        read_value(buf, pos)
    }

    /// Decodes a buffer that holds exactly one value.
    pub fn decode(buf: &[u8]) -> (r: Result<SqliteValue, DecodeError>)
        ensures
            parse_value(buf@) matches Ok((v, k)) ==> if k == buf@.len() {
                r matches Ok(x) && x@ == v
            } else {
                r == Err::<SqliteValue, DecodeError>(DecodeError::TrailingBytes)
            },
            parse_value(buf@) matches Err(e) ==> r == Err::<SqliteValue, DecodeError>(e),
    {
        assert(buf@.skip(0) =~= buf@);
        match read_value(buf, 0) {
            Err(e) => Err(e),
            Ok((v, p)) => if p == buf.len() {
                Ok(v)
            } else {
                Err(DecodeError::TrailingBytes)
            },
        }
    }
}

impl Change {
    /// Whether this change can be put on the wire: every length fits its
    /// 4-byte prefix.
    pub fn wire_fits(&self) -> (r: bool)
        ensures
            r == change_fits(self@),
    {
        self.table.as_str().as_bytes().len() as u64 <= MAX_PAYLOAD_LEN && self.pk.len() as u64
            <= MAX_PAYLOAD_LEN && self.cid.as_str().as_bytes().len() as u64 <= MAX_PAYLOAD_LEN
            && self.val.wire_fits()
    }

    /// Appends this change's wire form to `out`.
    pub fn write_to(&self, out: &mut Vec<u8>)
        requires
            change_fits(self@),
        ensures
            final(out)@ == old(out)@ + change_bytes(self@),
    {
        write_change(self, out)
    }

    /// This change's wire form, or `None` when a length does not fit its
    /// prefix.
    pub fn encode(&self) -> (r: Option<Vec<u8>>)
        ensures
            r is Some <==> change_fits(self@),
            r matches Some(b) ==> b@ == change_bytes(self@),
    {
        if self.wire_fits() {
            let mut out: Vec<u8> = Vec::new();
            write_change(self, &mut out);
            assert(out@ =~= change_bytes(self@));
            Some(out)
        } else {
            None
        }
    }

    /// Decodes a buffer that holds exactly one change.
    pub fn decode(buf: &[u8]) -> (r: Result<Change, DecodeError>)
        ensures
            parse_change(buf@) matches Ok(c) ==> r matches Ok(x) && x@ == c,
            parse_change(buf@) matches Err(e) ==> r == Err::<Change, DecodeError>(e),
    {
        let ghost b = buf@;
        assert(b.skip(0) =~= b);
        let (table, end_table) = match read_text_field(buf, 0) {
            Err(e) => return Err(e),
            Ok(x) => x,
        };
        let ghost b1 = b.skip(end_table as int);
        let (pk, end_pk) = match read_bytes_field(buf, end_table) {
            Err(e) => return Err(e),
            Ok(x) => x,
        };
        assert(b1.skip((end_pk - end_table) as int) =~= b.skip(end_pk as int));
        let ghost b2 = b.skip(end_pk as int);
        let (cid, end_cid) = match read_text_field(buf, end_pk) {
            Err(e) => return Err(e),
            Ok(x) => x,
        };
        assert(b2.skip((end_cid - end_pk) as int) =~= b.skip(end_cid as int));
        let ghost b3 = b.skip(end_cid as int);
        let (val, end_val) = match read_value(buf, end_cid) {
            Err(e) => return Err(e),
            Ok(x) => x,
        };
        assert(b3.skip((end_val - end_cid) as int) =~= b.skip(end_val as int));
        finish_change(buf, end_val, table, pk, cid, val)
    }
}

/// Reads the fixed 48 bytes at `pos` that end a change and builds the change.
fn finish_change(
    buf: &[u8],
    pos: usize,
    table: String,
    pk: &[u8],
    cid: String,
    val: SqliteValue,
) -> (r: Result<Change, DecodeError>)
    requires
        pos <= buf@.len(),
    ensures
        parse_tail(buf@.skip(pos as int), table@, pk@, cid@, val@) matches Ok(c) ==> r matches Ok(
            x,
        ) && x@ == c,
        parse_tail(buf@.skip(pos as int), table@, pk@, cid@, val@) matches Err(e) ==> r == Err::<
            Change,
            DecodeError,
        >(e),
{
    let ghost b = buf@;
    let ghost t = b.skip(pos as int);
    let remaining = buf.len() - pos;
    if remaining < 48 {
        return Err(DecodeError::Truncated);
    }
    if remaining > 48 {
        return Err(DecodeError::TrailingBytes);
    }
    let col_version = read_i64(buf, pos);
    let db_version = read_i64(buf, pos + 8);
    let seq = read_i64(buf, pos + 16);
    let q = pos + 24;
    let site_id: [u8; 16] = [
        buf[q],
        buf[q + 1],
        buf[q + 2],
        buf[q + 3],
        buf[q + 4],
        buf[q + 5],
        buf[q + 6],
        buf[q + 7],
        buf[q + 8],
        buf[q + 9],
        buf[q + 10],
        buf[q + 11],
        buf[q + 12],
        buf[q + 13],
        buf[q + 14],
        buf[q + 15],
    ];
    let cl = read_i64(buf, pos + 40);
    assert(t.skip(8) =~= b.skip(pos + 8));
    assert(t.skip(16) =~= b.skip(pos + 16));
    assert(t.skip(40) =~= b.skip(pos + 40));
    assert(site_id@ =~= t.subrange(24, 40));
    let pk_vec = slice_to_vec(pk);
    Ok(
        Change {
            table: TableName(table),
            pk: pk_vec,
            cid: ColumnName(cid),
            val,
            col_version,
            db_version,
            seq,
            site_id,
            cl,
        },
    )
}

} // verus!
