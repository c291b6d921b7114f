//! The binary encoding of payload fields: fixed-width little-endian integers,
//! one-byte booleans and option tags, and byte sequences and strings that
//! carry their length in front as a 64-bit integer.
//!
//! Each kind of field has an encoding (a spec function from the value to its
//! bytes) and a reader (a spec function from bytes and a position to the value
//! and the position behind it). The executable functions are proved against
//! these, and the lemmas at the end say that reader and encoding agree.

use vstd::prelude::*;
use vstd::slice::*;
use vstd::string::*;
use vstd::utf8::*;

verus! {

// ---------------------------------------------------------------------------
// Encodings
// ---------------------------------------------------------------------------

/// Four bytes, least significant first.
#[verifier::opaque]
pub open spec fn le_u32(x: u32) -> Seq<u8> {
    seq![
        (x % 256) as u8,
        (x / 256 % 256) as u8,
        (x / 65536 % 256) as u8,
        (x / 16777216) as u8,
    ]
}

/// Eight bytes, least significant first.
#[verifier::opaque]
pub open spec fn le_u64(x: u64) -> Seq<u8> {
    seq![
        (x % 256) as u8,
        (x / 256 % 256) as u8,
        (x / 65536 % 256) as u8,
        (x / 16777216 % 256) as u8,
        (x / 4294967296 % 256) as u8,
        (x / 1099511627776 % 256) as u8,
        (x / 281474976710656 % 256) as u8,
        (x / 72057594037927936) as u8,
    ]
}

/// The unsigned number with the same 32 bits in two's complement.
pub open spec fn twos32(x: i32) -> u32 {
    if x < 0 {
        (x + 0x1_0000_0000) as u32
    } else {
        x as u32
    }
}

/// The unsigned number with the same 64 bits in two's complement.
pub open spec fn twos64(x: i64) -> u64 {
    if x < 0 {
        (x + 0x1_0000_0000_0000_0000) as u64
    } else {
        x as u64
    }
}

/// The signed number that 32 bits stand for in two's complement.
pub open spec fn signed32(u: u32) -> i32 {
    if u >= 0x8000_0000 {
        (u - 0x1_0000_0000) as i32
    } else {
        u as i32
    }
}

/// The signed number that 64 bits stand for in two's complement.
pub open spec fn signed64(u: u64) -> i64 {
    if u >= 0x8000_0000_0000_0000 {
        (u - 0x1_0000_0000_0000_0000) as i64
    } else {
        u as i64
    }
}

/// Four bytes, least significant first, in two's complement.
pub open spec fn le_i32(x: i32) -> Seq<u8> {
    le_u32(twos32(x))
}

/// Eight bytes, least significant first, in two's complement.
pub open spec fn le_i64(x: i64) -> Seq<u8> {
    le_u64(twos64(x))
}

/// One byte.
pub open spec fn enc_u8(x: u8) -> Seq<u8> {
    seq![x]
}

/// One byte: 1 for true, 0 for false.
pub open spec fn enc_bool(b: bool) -> Seq<u8> {
    seq![if b { 1u8 } else { 0u8 }]
}

/// The length as a 64-bit integer, then the bytes themselves.
pub open spec fn enc_bytes(data: Seq<u8>) -> Seq<u8> {
    le_u64(data.len() as u64) + data
}

/// A string is written as its UTF-8 bytes.
pub open spec fn enc_str(s: Seq<char>) -> Seq<u8> {
    enc_bytes(encode_utf8(s))
}

/// One byte that says whether a string follows, then the string if it does.
pub open spec fn enc_opt_str(o: Option<Seq<char>>) -> Seq<u8> {
    match o {
        None => seq![0u8],
        Some(s) => seq![1u8] + enc_str(s),
    }
}

/// A byte sequence whose length a 64-bit prefix can hold.
pub open spec fn fits_bytes(data: Seq<u8>) -> bool {
    data.len() <= u64::MAX
}

/// A string whose UTF-8 length a 64-bit prefix can hold.
pub open spec fn fits_str(s: Seq<char>) -> bool {
    encode_utf8(s).len() <= u64::MAX
}

// ---------------------------------------------------------------------------
// Readers
// ---------------------------------------------------------------------------

/// The number that four bytes stand for, least significant first.
#[verifier::opaque]
pub open spec fn u32_of_le(b0: u8, b1: u8, b2: u8, b3: u8) -> u32 {
    (b0 + 256 * b1 + 65536 * b2 + 16777216 * b3) as u32
}

/// The number that eight bytes stand for, least significant first.
#[verifier::opaque]
pub open spec fn u64_of_le(
    b0: u8,
    b1: u8,
    b2: u8,
    b3: u8,
    b4: u8,
    b5: u8,
    b6: u8,
    b7: u8,
) -> u64 {
    (b0 + 256 * b1 + 65536 * b2 + 16777216 * b3 + 4294967296 * b4 + 1099511627776 * b5
        + 281474976710656 * b6 + 72057594037927936 * b7) as u64
}

/// Reads one byte at a position.
pub open spec fn read_u8(b: Seq<u8>, pos: int) -> Option<(u8, int)> {
    if 0 <= pos && pos + 1 <= b.len() {
        Some((b[pos], pos + 1))
    } else {
        None
    }
}

/// Reads four bytes at a position as a number.
pub open spec fn read_u32(b: Seq<u8>, pos: int) -> Option<(u32, int)> {
    if 0 <= pos && pos + 4 <= b.len() {
        Some((u32_of_le(b[pos], b[pos + 1], b[pos + 2], b[pos + 3]), pos + 4))
    } else {
        None
    }
}

/// Reads eight bytes at a position as a number.
pub open spec fn read_u64(b: Seq<u8>, pos: int) -> Option<(u64, int)> {
    if 0 <= pos && pos + 8 <= b.len() {
        Some(
            (
                u64_of_le(
                    b[pos],
                    b[pos + 1],
                    b[pos + 2],
                    b[pos + 3],
                    b[pos + 4],
                    b[pos + 5],
                    b[pos + 6],
                    b[pos + 7],
                ),
                pos + 8,
            ),
        )
    } else {
        None
    }
}

/// Reads four bytes at a position as a signed number.
pub open spec fn read_i32(b: Seq<u8>, pos: int) -> Option<(i32, int)> {
    match read_u32(b, pos) {
        Some((u, p)) => Some((signed32(u), p)),
        None => None,
    }
}

/// Reads eight bytes at a position as a signed number.
pub open spec fn read_i64(b: Seq<u8>, pos: int) -> Option<(i64, int)> {
    match read_u64(b, pos) {
        Some((u, p)) => Some((signed64(u), p)),
        None => None,
    }
}

/// A boolean is the byte 0 or 1; any other byte is refused.
pub open spec fn read_bool(b: Seq<u8>, pos: int) -> Option<(bool, int)> {
    match read_u8(b, pos) {
        Some((v, p)) => if v == 0 {
            Some((false, p))
        } else if v == 1 {
            Some((true, p))
        } else {
            None
        },
        None => None,
    }
}

/// The length prefix must be followed by at least that many bytes.
pub open spec fn read_bytes(b: Seq<u8>, pos: int) -> Option<(Seq<u8>, int)> {
    match read_u64(b, pos) {
        Some((n, p)) => if p + n <= b.len() {
            Some((b.subrange(p, p + n), p + n))
        } else {
            None
        },
        None => None,
    }
}

/// A string is a byte sequence that is valid UTF-8.
pub open spec fn read_str(b: Seq<u8>, pos: int) -> Option<(Seq<char>, int)> {
    match read_bytes(b, pos) {
        Some((raw, p)) => if valid_utf8(raw) {
            Some((decode_utf8(raw), p))
        } else {
            None
        },
        None => None,
    }
}

/// The tag byte is 0 (nothing follows) or 1 (a string follows).
pub open spec fn read_opt_str(b: Seq<u8>, pos: int) -> Option<(Option<Seq<char>>, int)> {
    match read_u8(b, pos) {
        Some((t, p)) => if t == 0 {
            Some((None, p))
        } else if t == 1 {
            match read_str(b, p) {
                Some((s, q)) => Some((Some(s), q)),
                None => None,
            }
        } else {
            None
        },
        None => None,
    }
}

// ---------------------------------------------------------------------------
// Executable encoders
// ---------------------------------------------------------------------------

/// Appends one byte.
pub fn put_u8(out: &mut Vec<u8>, x: u8)
    ensures
        final(out)@ == old(out)@ + enc_u8(x),
{
    out.push(x);
    assert(out@ =~= old(out)@ + enc_u8(x));
}

/// Appends a boolean.
pub fn put_bool(out: &mut Vec<u8>, b: bool)
    ensures
        final(out)@ == old(out)@ + enc_bool(b),
{
    let byte: u8 = if b { 1 } else { 0 };
    out.push(byte);
    assert(out@ =~= old(out)@ + enc_bool(b));
}

/// Appends a 32-bit number.
pub fn put_u32(out: &mut Vec<u8>, x: u32)
    ensures
        final(out)@ == old(out)@ + le_u32(x),
{
    out.push((x % 256) as u8);
    out.push((x / 256 % 256) as u8);
    out.push((x / 65536 % 256) as u8);
    out.push((x / 16777216) as u8);
    proof {
        reveal(le_u32);
    }
    assert(out@ =~= old(out)@ + le_u32(x));
}

/// Appends a 64-bit number.
pub fn put_u64(out: &mut Vec<u8>, x: u64)
    ensures
        final(out)@ == old(out)@ + le_u64(x),
{
    out.push((x % 256) as u8);
    out.push((x / 256 % 256) as u8);
    out.push((x / 65536 % 256) as u8);
    out.push((x / 16777216 % 256) as u8);
    out.push((x / 4294967296 % 256) as u8);
    out.push((x / 1099511627776 % 256) as u8);
    out.push((x / 281474976710656 % 256) as u8);
    out.push((x / 72057594037927936) as u8);
    proof {
        reveal(le_u64);
    }
    assert(out@ =~= old(out)@ + le_u64(x));
}

/// Appends a signed 32-bit number.
pub fn put_i32(out: &mut Vec<u8>, x: i32)
    ensures
        final(out)@ == old(out)@ + le_i32(x),
{
    let wide: i64 = x as i64;
    let bits: u32 = if wide < 0 {
        (wide + 0x1_0000_0000) as u32
    } else {
        wide as u32
    };
    put_u32(out, bits);
}

/// Appends a signed 64-bit number.
pub fn put_i64(out: &mut Vec<u8>, x: i64)
    ensures
        final(out)@ == old(out)@ + le_i64(x),
{
    let wide: i128 = x as i128;
    let bits: u64 = if wide < 0 {
        (wide + 0x1_0000_0000_0000_0000) as u64
    } else {
        wide as u64
    };
    put_u64(out, bits);
}

/// Appends data with its length in front.
pub fn put_bytes(out: &mut Vec<u8>, data: &[u8])
    ensures
        final(out)@ == old(out)@ + enc_bytes(data@),
        fits_bytes(data@),
{
    put_u64(out, data.len() as u64);
    out.extend_from_slice(data);
    assert(out@ =~= old(out)@ + enc_bytes(data@));
}

/// Appends text with the length of its UTF-8 bytes in front.
pub fn put_str(out: &mut Vec<u8>, s: &str)
    ensures
        final(out)@ == old(out)@ + enc_str(s@),
        fits_str(s@),
{
    put_bytes(out, s.as_bytes());
}

/// Appends an optional text.
pub fn put_opt_str(out: &mut Vec<u8>, o: &Option<String>)
    ensures
        final(out)@ == old(out)@ + enc_opt_str(opt_str_view(*o)),
        *o matches Some(s) ==> fits_str(s@),
{
    match o {
        None => {
            out.push(0u8);
            assert(out@ =~= old(out)@ + enc_opt_str(None));
        },
        Some(s) => {
            out.push(1u8);
            put_str(out, s.as_str());
            assert(out@ =~= old(out)@ + enc_opt_str(Some(s@)));
        },
    }
}

/// The text of an optional string.
pub open spec fn opt_str_view(o: Option<String>) -> Option<Seq<char>> {
    match o {
        Some(s) => Some(s@),
        None => None,
    }
}

// ---------------------------------------------------------------------------
// Executable readers
// ---------------------------------------------------------------------------

/// Reads one byte at a position; `None` behind the end.
pub fn get_u8(b: &[u8], pos: usize) -> (r: Option<(u8, usize)>)
    ensures
        match r {
            Some((v, p)) => read_u8(b@, pos as int) == Some((v, p as int)),
            None => read_u8(b@, pos as int) is None,
        },
{
    if pos < b.len() {
        Some((b[pos], pos + 1))
    } else {
        None
    }
}

/// Reads a 32-bit number at a position; `None` if the bytes end too early.
pub fn get_u32(b: &[u8], pos: usize) -> (r: Option<(u32, usize)>)
    ensures
        match r {
            Some((v, p)) => read_u32(b@, pos as int) == Some((v, p as int)),
            None => read_u32(b@, pos as int) is None,
        },
{
    if b.len() < 4 || pos > b.len() - 4 {
        return None;
    }
    proof {
        reveal(u32_of_le);
    }
    let v: u32 = b[pos] as u32 + 256 * (b[pos + 1] as u32) + 65536 * (b[pos + 2] as u32) + 16777216
        * (b[pos + 3] as u32);
    Some((v, pos + 4))
}

/// Reads a 64-bit number at a position; `None` if the bytes end too early.
pub fn get_u64(b: &[u8], pos: usize) -> (r: Option<(u64, usize)>)
    ensures
        match r {
            Some((v, p)) => read_u64(b@, pos as int) == Some((v, p as int)),
            None => read_u64(b@, pos as int) is None,
        },
{
    if b.len() < 8 || pos > b.len() - 8 {
        return None;
    }
    proof {
        reveal(u64_of_le);
    }
    let v: u64 = b[pos] as u64 + 256 * (b[pos + 1] as u64) + 65536 * (b[pos + 2] as u64) + 16777216
        * (b[pos + 3] as u64) + 4294967296 * (b[pos + 4] as u64) + 1099511627776 * (b[pos
        + 5] as u64) + 281474976710656 * (b[pos + 6] as u64) + 72057594037927936 * (b[pos
        + 7] as u64);
    Some((v, pos + 8))
}

/// Reads a signed 32-bit number at a position.
pub fn get_i32(b: &[u8], pos: usize) -> (r: Option<(i32, usize)>)
    ensures
        match r {
            Some((v, p)) => read_i32(b@, pos as int) == Some((v, p as int)),
            None => read_i32(b@, pos as int) is None,
        },
{
    match get_u32(b, pos) {
        Some((u, p)) => {
            let v: i32 = if u >= 0x8000_0000 {
                (u as i64 - 0x1_0000_0000) as i32
            } else {
                u as i32
            };
            Some((v, p))
        },
        None => None,
    }
}

/// Reads a signed 64-bit number at a position.
pub fn get_i64(b: &[u8], pos: usize) -> (r: Option<(i64, usize)>)
    ensures
        match r {
            Some((v, p)) => read_i64(b@, pos as int) == Some((v, p as int)),
            None => read_i64(b@, pos as int) is None,
        },
{
    match get_u64(b, pos) {
        Some((u, p)) => {
            let v: i64 = if u >= 0x8000_0000_0000_0000 {
                (u as i128 - 0x1_0000_0000_0000_0000) as i64
            } else {
                u as i64
            };
            Some((v, p))
        },
        None => None,
    }
}

/// Reads a boolean at a position; `None` for a byte other than 0 and 1.
pub fn get_bool(b: &[u8], pos: usize) -> (r: Option<(bool, usize)>)
    ensures
        match r {
            Some((v, p)) => read_bool(b@, pos as int) == Some((v, p as int)),
            None => read_bool(b@, pos as int) is None,
        },
{
    match get_u8(b, pos) {
        Some((v, p)) => {
            if v == 0 {
                Some((false, p))
            } else if v == 1 {
                Some((true, p))
            } else {
                None
            }
        },
        None => None,
    }
}

/// Reads data with its length in front; `None` if the bytes end too early.
pub fn get_bytes(b: &[u8], pos: usize) -> (r: Option<(Vec<u8>, usize)>)
    ensures
        match r {
            Some((v, p)) => read_bytes(b@, pos as int) == Some((v@, p as int)),
            None => read_bytes(b@, pos as int) is None,
        },
{
    match get_u64(b, pos) {
        Some((n, p)) => {
            if n > (b.len() - p) as u64 {
                None
            } else {
                let end: usize = p + n as usize;
                let data = slice_to_vec(slice_subrange(b, p, end));
                Some((data, end))
            }
        },
        None => None,
    }
}

/// `String::from_utf8`: the bytes become a string exactly when they are
/// valid UTF-8, and the string's UTF-8 bytes are then the bytes given.
#[verifier::external_body]
fn string_from_utf8(bytes: Vec<u8>) -> (out: Option<String>)
    ensures
        out is Some <==> valid_utf8(bytes@),
        out matches Some(s) ==> encode_utf8(s@) == bytes@,
{
    String::from_utf8(bytes).ok()
}

/// Turns bytes into text; `None` when they are not valid UTF-8.
pub fn text_of_bytes(bytes: Vec<u8>) -> (out: Option<String>)
    ensures
        out is Some <==> valid_utf8(bytes@),
        out matches Some(s) ==> s@ == decode_utf8(bytes@) && encode_utf8(s@) == bytes@,
{
    let out = string_from_utf8(bytes);
    proof {
        if let Some(ref s) = out {
            encode_utf8_decode_utf8(s@);
        }
    }
    out
}

/// Reads text with its length in front; `None` if it is not UTF-8.
pub fn get_str(b: &[u8], pos: usize) -> (r: Option<(String, usize)>)
    ensures
        match r {
            Some((v, p)) => read_str(b@, pos as int) == Some((v@, p as int)),
            None => read_str(b@, pos as int) is None,
        },
{
    match get_bytes(b, pos) {
        Some((raw, p)) => {
            match text_of_bytes(raw) {
                Some(s) => Some((s, p)),
                None => None,
            }
        },
        None => None,
    }
}

/// Reads an optional text; `None` for a tag other than 0 and 1.
pub fn get_opt_str(b: &[u8], pos: usize) -> (r: Option<(Option<String>, usize)>)
    ensures
        match r {
            Some((v, p)) => read_opt_str(b@, pos as int) == Some((opt_str_view(v), p as int)),
            None => read_opt_str(b@, pos as int) is None,
        },
{
    match get_u8(b, pos) {
        Some((t, p)) => {
            if t == 0 {
                Some((None, p))
            } else if t == 1 {
                match get_str(b, p) {
                    Some((s, q)) => Some((Some(s), q)),
                    None => None,
                }
            } else {
                None
            }
        },
        None => None,
    }
}

// ---------------------------------------------------------------------------
// Reader and encoding agree
// ---------------------------------------------------------------------------

/// The bytes `e` stand in `b` from position `pos` on.
pub open spec fn holds_at(b: Seq<u8>, pos: int, e: Seq<u8>) -> bool {
    &&& 0 <= pos
    &&& pos + e.len() <= b.len()
    &&& b.subrange(pos, pos + e.len()) == e
}

/// Two encodings one after the other stand at a position exactly when the
/// first stands there and the second stands right behind it.
pub proof fn lemma_holds_at_concat(b: Seq<u8>, pos: int, e1: Seq<u8>, e2: Seq<u8>)
    ensures
        holds_at(b, pos, e1 + e2) <==> holds_at(b, pos, e1) && holds_at(b, pos + e1.len(), e2),
{
    if holds_at(b, pos, e1 + e2) {
        let whole = b.subrange(pos, pos + (e1 + e2).len());
        assert(b.subrange(pos, pos + e1.len()) =~= whole.subrange(0, e1.len() as int));
        assert(whole.subrange(0, e1.len() as int) =~= e1);
        assert(b.subrange(pos + e1.len(), pos + e1.len() + e2.len()) =~= whole.subrange(
            e1.len() as int,
            (e1 + e2).len() as int,
        ));
        assert(whole.subrange(e1.len() as int, (e1 + e2).len() as int) =~= e2);
    }
    if holds_at(b, pos, e1) && holds_at(b, pos + e1.len(), e2) {
        assert(b.subrange(pos, pos + (e1 + e2).len()) =~= b.subrange(pos, pos + e1.len())
            + b.subrange(pos + e1.len(), pos + e1.len() + e2.len()));
    }
}

/// An encoding stands at the front of itself followed by anything.
pub proof fn lemma_holds_at_front(e: Seq<u8>, rest: Seq<u8>)
    ensures
        holds_at(e + rest, 0, e),
{
    assert((e + rest).subrange(0, e.len() as int) =~= e);
}

/// Thirty-two bits read as signed give the number they were made from.
pub proof fn lemma_twos32(x: i32)
    ensures
        signed32(twos32(x)) == x,
{
}

/// Sixty-four bits read as signed give the number they were made from.
pub proof fn lemma_twos64(x: i64)
    ensures
        signed64(twos64(x)) == x,
{
}

/// A byte stands at a position exactly when reading there gives it.
pub proof fn lemma_read_u8(b: Seq<u8>, pos: int, x: u8)
    ensures
        holds_at(b, pos, enc_u8(x)) <==> read_u8(b, pos) == Some((x, pos + 1)),
{
    if holds_at(b, pos, enc_u8(x)) {
        assert(b.subrange(pos, pos + 1)[0] == x);
    }
    if read_u8(b, pos) == Some((x, pos + 1)) {
        assert(b.subrange(pos, pos + 1) =~= enc_u8(x));
    }
}

/// A boolean stands at a position exactly when reading there gives it.
pub proof fn lemma_read_bool(b: Seq<u8>, pos: int, x: bool)
    ensures
        holds_at(b, pos, enc_bool(x)) <==> read_bool(b, pos) == Some((x, pos + 1)),
{
    if holds_at(b, pos, enc_bool(x)) {
        assert(b.subrange(pos, pos + 1)[0] == enc_bool(x)[0]);
    }
    if read_bool(b, pos) == Some((x, pos + 1)) {
        assert(b.subrange(pos, pos + 1) =~= enc_bool(x));
    }
}

/// Splitting a 32-bit number into its four bytes and joining them again
/// gives the number back.
pub proof fn lemma_u32_split(x: u32)
    by (bit_vector)
    ensures
        x == (x % 256) + 256 * (x / 256 % 256) + 65536 * (x / 65536 % 256) + 16777216 * (x
            / 16777216),
        x / 16777216 < 256,
{
}

/// Joining four bytes and splitting the number again gives the bytes back.
pub proof fn lemma_u32_join(b0: u8, b1: u8, b2: u8, b3: u8)
    ensures
        b0 + 256 * b1 + 65536 * b2 + 16777216 * b3 <= u32::MAX,
        u32_of_le(b0, b1, b2, b3) % 256 == b0,
        u32_of_le(b0, b1, b2, b3) / 256 % 256 == b1,
        u32_of_le(b0, b1, b2, b3) / 65536 % 256 == b2,
        u32_of_le(b0, b1, b2, b3) / 16777216 == b3,
{
    reveal(u32_of_le);
    let v: u32 = u32_of_le(b0, b1, b2, b3);
    assert(v == b0 + 256 * b1 + 65536 * b2 + 16777216 * b3);
    let q1: int = b1 + 256 * b2 + 65536 * b3;
    let q2: int = b2 + 256 * b3;
    assert(v == 256 * q1 + b0);
    assert(v / 256 == q1);
    assert(q1 == 256 * q2 + b1);
    assert(q1 / 256 == q2);
    assert(v / 65536 == q2) by {
        assert(v == 65536 * q2 + (b0 + 256 * b1));
    }
    assert(v / 16777216 == b3) by {
        assert(v == 16777216 * b3 + (b0 + 256 * b1 + 65536 * b2));
    }
}

/// A 32-bit number stands at a position exactly when reading there gives it.
pub proof fn lemma_read_u32(b: Seq<u8>, pos: int, x: u32)
    ensures
        holds_at(b, pos, le_u32(x)) <==> read_u32(b, pos) == Some((x, pos + 4)),
        le_u32(x).len() == 4,
{
    reveal(le_u32);
    reveal(u32_of_le);
    if holds_at(b, pos, le_u32(x)) {
        let s = b.subrange(pos, pos + 4);
        assert(s[0] == b[pos] && s[1] == b[pos + 1] && s[2] == b[pos + 2] && s[3] == b[pos + 3]);
        lemma_u32_split(x);
    }
    if read_u32(b, pos) == Some((x, pos + 4)) {
        lemma_u32_join(b[pos], b[pos + 1], b[pos + 2], b[pos + 3]);
        assert(b.subrange(pos, pos + 4) =~= le_u32(x));
    }
}

/// Splitting a 64-bit number into its eight bytes and joining them again
/// gives the number back.
pub proof fn lemma_u64_split(x: u64)
    by (bit_vector)
    ensures
        x == (x % 256) + 256 * (x / 256 % 256) + 65536 * (x / 65536 % 256) + 16777216 * (x
            / 16777216 % 256) + 4294967296 * (x / 4294967296 % 256) + 1099511627776 * (x
            / 1099511627776 % 256) + 281474976710656 * (x / 281474976710656 % 256)
            + 72057594037927936 * (x / 72057594037927936),
        x / 72057594037927936 < 256,
{
}

/// Joining eight bytes and splitting the number again gives the bytes back.
pub proof fn lemma_u64_join(b0: u8, b1: u8, b2: u8, b3: u8, b4: u8, b5: u8, b6: u8, b7: u8)
    ensures
        b0 + 256 * b1 + 65536 * b2 + 16777216 * b3 + 4294967296 * b4 + 1099511627776 * b5
            + 281474976710656 * b6 + 72057594037927936 * b7 <= u64::MAX,
        u64_of_le(b0, b1, b2, b3, b4, b5, b6, b7) % 256 == b0,
        u64_of_le(b0, b1, b2, b3, b4, b5, b6, b7) / 256 % 256 == b1,
        u64_of_le(b0, b1, b2, b3, b4, b5, b6, b7) / 65536 % 256 == b2,
        u64_of_le(b0, b1, b2, b3, b4, b5, b6, b7) / 16777216 % 256 == b3,
        u64_of_le(b0, b1, b2, b3, b4, b5, b6, b7) / 4294967296 % 256 == b4,
        u64_of_le(b0, b1, b2, b3, b4, b5, b6, b7) / 1099511627776 % 256 == b5,
        u64_of_le(b0, b1, b2, b3, b4, b5, b6, b7) / 281474976710656 % 256 == b6,
        u64_of_le(b0, b1, b2, b3, b4, b5, b6, b7) / 72057594037927936 == b7,
{
    reveal(u64_of_le);
    let v: u64 = u64_of_le(b0, b1, b2, b3, b4, b5, b6, b7);
    let q6: int = b6 + 256 * b7;
    let q5: int = b5 + 256 * q6;
    let q4: int = b4 + 256 * q5;
    let q3: int = b3 + 256 * q4;
    let q2: int = b2 + 256 * q3;
    let q1: int = b1 + 256 * q2;
    assert(v == b0 + 256 * q1);
    assert(v / 256 == q1);
    assert(v / 65536 == q2) by {
        assert(v == 65536 * q2 + (b0 + 256 * b1));
    }
    assert(v / 16777216 == q3) by {
        assert(v == 16777216 * q3 + (b0 + 256 * b1 + 65536 * b2));
    }
    assert(v / 4294967296 == q4) by {
        assert(v == 4294967296 * q4 + (b0 + 256 * b1 + 65536 * b2 + 16777216 * b3));
    }
    assert(v / 1099511627776 == q5) by {
        assert(v == 1099511627776 * q5 + (b0 + 256 * b1 + 65536 * b2 + 16777216 * b3 + 4294967296
            * b4));
    }
    assert(v / 281474976710656 == q6) by {
        assert(v == 281474976710656 * q6 + (b0 + 256 * b1 + 65536 * b2 + 16777216 * b3
            + 4294967296 * b4 + 1099511627776 * b5));
    }
    assert(v / 72057594037927936 == b7) by {
        assert(v == 72057594037927936 * b7 + (b0 + 256 * b1 + 65536 * b2 + 16777216 * b3
            + 4294967296 * b4 + 1099511627776 * b5 + 281474976710656 * b6));
    }
}

/// A 64-bit number stands at a position exactly when reading there gives it.
pub proof fn lemma_read_u64(b: Seq<u8>, pos: int, x: u64)
    ensures
        holds_at(b, pos, le_u64(x)) <==> read_u64(b, pos) == Some((x, pos + 8)),
        le_u64(x).len() == 8,
{
    reveal(le_u64);
    reveal(u64_of_le);
    if holds_at(b, pos, le_u64(x)) {
        let s = b.subrange(pos, pos + 8);
        assert(s[0] == b[pos] && s[1] == b[pos + 1] && s[2] == b[pos + 2] && s[3] == b[pos + 3]);
        assert(s[4] == b[pos + 4] && s[5] == b[pos + 5] && s[6] == b[pos + 6] && s[7] == b[pos
            + 7]);
        lemma_u64_split(x);
    }
    if read_u64(b, pos) == Some((x, pos + 8)) {
        lemma_u64_join(
            b[pos],
            b[pos + 1],
            b[pos + 2],
            b[pos + 3],
            b[pos + 4],
            b[pos + 5],
            b[pos + 6],
            b[pos + 7],
        );
        assert(b.subrange(pos, pos + 8) =~= le_u64(x));
    }
}

/// A signed 32-bit number stands at a position exactly when reading there gives it.
pub proof fn lemma_read_i32(b: Seq<u8>, pos: int, x: i32)
    ensures
        holds_at(b, pos, le_i32(x)) <==> read_i32(b, pos) == Some((x, pos + 4)),
        le_i32(x).len() == 4,
{
    lemma_read_u32(b, pos, twos32(x));
    if read_i32(b, pos) == Some((x, pos + 4)) {
        let u = read_u32(b, pos).unwrap().0;
        assert(twos32(signed32(u)) == u);
    }
}

/// A signed 64-bit number stands at a position exactly when reading there gives it.
pub proof fn lemma_read_i64(b: Seq<u8>, pos: int, x: i64)
    ensures
        holds_at(b, pos, le_i64(x)) <==> read_i64(b, pos) == Some((x, pos + 8)),
        le_i64(x).len() == 8,
{
    lemma_read_u64(b, pos, twos64(x));
    if read_i64(b, pos) == Some((x, pos + 8)) {
        let u = read_u64(b, pos).unwrap().0;
        assert(twos64(signed64(u)) == u);
    }
}

/// Data stands at a position exactly when reading there gives it.
pub proof fn lemma_read_bytes(b: Seq<u8>, pos: int, data: Seq<u8>)
    requires
        fits_bytes(data),
    ensures
        holds_at(b, pos, enc_bytes(data)) <==> read_bytes(b, pos) == Some(
            (data, pos + 8 + data.len()),
        ),
        enc_bytes(data).len() == 8 + data.len(),
{
    let n = data.len() as u64;
    lemma_holds_at_concat(b, pos, le_u64(n), data);
    lemma_read_u64(b, pos, n);
}

/// Text stands at a position exactly when reading there gives it.
pub proof fn lemma_read_str(b: Seq<u8>, pos: int, s: Seq<char>)
    requires
        fits_str(s),
    ensures
        holds_at(b, pos, enc_str(s)) <==> read_str(b, pos) == Some(
            (s, pos + 8 + encode_utf8(s).len()),
        ),
        enc_str(s).len() == 8 + encode_utf8(s).len(),
{
    let raw = encode_utf8(s);
    lemma_read_bytes(b, pos, raw);
    encode_utf8_valid_utf8(s);
    encode_utf8_decode_utf8(s);
    if read_str(b, pos) == Some((s, pos + 8 + raw.len())) {
        let got = read_bytes(b, pos).unwrap().0;
        decode_utf8_encode_utf8(got);
    }
}

/// An optional text stands at a position exactly when reading there gives it.
pub proof fn lemma_read_opt_str(b: Seq<u8>, pos: int, o: Option<Seq<char>>)
    requires
        o matches Some(s) ==> fits_str(s),
    ensures
        holds_at(b, pos, enc_opt_str(o)) <==> read_opt_str(b, pos) == Some(
            (o, pos + enc_opt_str(o).len()),
        ),
{
    match o {
        None => {
            lemma_read_u8(b, pos, 0u8);
        },
        Some(s) => {
            lemma_holds_at_concat(b, pos, enc_u8(1u8), enc_str(s));
            lemma_read_u8(b, pos, 1u8);
            lemma_read_str(b, pos + 1, s);
            assert(seq![1u8] =~= enc_u8(1u8));
        },
    }
}

// ---------------------------------------------------------------------------
// What is read stands there
// ---------------------------------------------------------------------------

/// What `read_u8` reads is the value whose encoding stands at the position,
/// and the position behind it is the position behind that encoding.
pub proof fn lemma_stands_u8(b: Seq<u8>, pos: int)
    requires
        read_u8(b, pos) is Some,
    ensures
        holds_at(b, pos, enc_u8(read_u8(b, pos).unwrap().0)),
        read_u8(b, pos).unwrap().1 == pos + enc_u8(read_u8(b, pos).unwrap().0).len(),
{
    lemma_read_u8(b, pos, read_u8(b, pos).unwrap().0);
}

/// What `read_bool` reads is the value whose encoding stands at the position,
/// and the position behind it is the position behind that encoding.
pub proof fn lemma_stands_bool(b: Seq<u8>, pos: int)
    requires
        read_bool(b, pos) is Some,
    ensures
        holds_at(b, pos, enc_bool(read_bool(b, pos).unwrap().0)),
        read_bool(b, pos).unwrap().1 == pos + enc_bool(read_bool(b, pos).unwrap().0).len(),
{
    lemma_read_bool(b, pos, read_bool(b, pos).unwrap().0);
}

/// What `read_u32` reads is the value whose encoding stands at the position,
/// and the position behind it is the position behind that encoding.
pub proof fn lemma_stands_u32(b: Seq<u8>, pos: int)
    requires
        read_u32(b, pos) is Some,
    ensures
        holds_at(b, pos, le_u32(read_u32(b, pos).unwrap().0)),
        read_u32(b, pos).unwrap().1 == pos + le_u32(read_u32(b, pos).unwrap().0).len(),
{
    lemma_read_u32(b, pos, read_u32(b, pos).unwrap().0);
}

/// What `read_u64` reads is the value whose encoding stands at the position,
/// and the position behind it is the position behind that encoding.
pub proof fn lemma_stands_u64(b: Seq<u8>, pos: int)
    requires
        read_u64(b, pos) is Some,
    ensures
        holds_at(b, pos, le_u64(read_u64(b, pos).unwrap().0)),
        read_u64(b, pos).unwrap().1 == pos + le_u64(read_u64(b, pos).unwrap().0).len(),
{
    lemma_read_u64(b, pos, read_u64(b, pos).unwrap().0);
}

/// What `read_i32` reads is the value whose encoding stands at the position,
/// and the position behind it is the position behind that encoding.
pub proof fn lemma_stands_i32(b: Seq<u8>, pos: int)
    requires
        read_i32(b, pos) is Some,
    ensures
        holds_at(b, pos, le_i32(read_i32(b, pos).unwrap().0)),
        read_i32(b, pos).unwrap().1 == pos + le_i32(read_i32(b, pos).unwrap().0).len(),
{
    lemma_read_i32(b, pos, read_i32(b, pos).unwrap().0);
}

/// What `read_i64` reads is the value whose encoding stands at the position,
/// and the position behind it is the position behind that encoding.
pub proof fn lemma_stands_i64(b: Seq<u8>, pos: int)
    requires
        read_i64(b, pos) is Some,
    ensures
        holds_at(b, pos, le_i64(read_i64(b, pos).unwrap().0)),
        read_i64(b, pos).unwrap().1 == pos + le_i64(read_i64(b, pos).unwrap().0).len(),
{
    lemma_read_i64(b, pos, read_i64(b, pos).unwrap().0);
}

/// What `read_bytes` reads is the data whose encoding stands at the
/// position, and its length fits the prefix.
pub proof fn lemma_stands_bytes(b: Seq<u8>, pos: int)
    requires
        read_bytes(b, pos) is Some,
    ensures
        fits_bytes(read_bytes(b, pos).unwrap().0),
        holds_at(b, pos, enc_bytes(read_bytes(b, pos).unwrap().0)),
        read_bytes(b, pos).unwrap().1 == pos + enc_bytes(read_bytes(b, pos).unwrap().0).len(),
{
    let data = read_bytes(b, pos).unwrap().0;
    lemma_read_bytes(b, pos, data);
}

/// What `read_str` reads is the text whose encoding stands at the position,
/// and its length fits the prefix.
pub proof fn lemma_stands_str(b: Seq<u8>, pos: int)
    requires
        read_str(b, pos) is Some,
    ensures
        fits_str(read_str(b, pos).unwrap().0),
        holds_at(b, pos, enc_str(read_str(b, pos).unwrap().0)),
        read_str(b, pos).unwrap().1 == pos + enc_str(read_str(b, pos).unwrap().0).len(),
{
    let raw = read_bytes(b, pos).unwrap().0;
    let s = read_str(b, pos).unwrap().0;
    decode_utf8_encode_utf8(raw);
    lemma_stands_bytes(b, pos);
    lemma_read_str(b, pos, s);
}

/// What `read_opt_str` reads is the optional text whose encoding stands at
/// the position.
pub proof fn lemma_stands_opt_str(b: Seq<u8>, pos: int)
    requires
        read_opt_str(b, pos) is Some,
    ensures
        read_opt_str(b, pos).unwrap().0 matches Some(s) ==> fits_str(s),
        holds_at(b, pos, enc_opt_str(read_opt_str(b, pos).unwrap().0)),
        read_opt_str(b, pos).unwrap().1 == pos + enc_opt_str(
            read_opt_str(b, pos).unwrap().0,
        ).len(),
{
    let o = read_opt_str(b, pos).unwrap().0;
    if o is Some {
        lemma_stands_str(b, pos + 1);
    }
    lemma_read_opt_str(b, pos, o);
}

} // verus!
