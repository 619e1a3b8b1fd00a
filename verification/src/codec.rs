//! The frame decoder's core: a variable-byte length field (base 128,
//! little-endian, continuation via the high bit, at most 4 bytes) follows a
//! single header byte; the declared number of payload bytes completes the
//! frame.

use vstd::prelude::*;

verus! {

/// A definite violation of the framing format, as opposed to a buffer that is
/// merely too short so far.
#[derive(Debug, Clone, Copy, PartialEq, Eq)]
pub enum DecodeError {
    /// More bytes are required before a frame can be extracted.
    Incomplete,
    /// The length field does not terminate within its permitted 4 bytes.
    Malformed,
}

/// What scanning the length field of a buffer (header byte at index 0, length
/// bytes from index 1 on) established.
#[derive(Debug, Clone, Copy, PartialEq, Eq)]
pub enum LengthScan {
    /// The length field terminates after `len_bytes` bytes and decodes to
    /// `value` payload bytes.
    Done { len_bytes: usize, value: usize },
    /// No terminator yet, but fewer than 4 length bytes are available: the
    /// field may still terminate legitimately.
    NeedMore,
    /// All 4 permitted length bytes carry the continuation bit: the field can
    /// never terminate.
    TooLong,
}

/// A length byte without the continuation bit ends the length field.
pub open spec fn is_term(b: u8) -> bool {
    b & 0x80 == 0
}

/// The 7 payload bits of one length byte.
pub open spec fn low7(b: u8) -> int {
    (b & 0x7f) as int
}

/// 128 to the power `n`.
pub open spec fn pow128(n: int) -> int
    decreases n,
{
    if n <= 0 {
        1
    } else {
        128 * pow128(n - 1)
    }
}

/// The value a sequence of length bytes denotes: base 128, least significant
/// byte first.
pub open spec fn lenfield_value(enc: Seq<u8>) -> int
    decreases enc.len(),
{
    if enc.len() <= 0 {
        0
    } else {
        low7(enc[0]) + 128 * lenfield_value(enc.drop_first())
    }
}

/// The index of the byte that terminates the length field, scanning indices 1
/// through 4; 0 when no terminator stands within the bytes available there.
pub open spec fn term_pos(buf: Seq<u8>) -> int {
    if 1 < buf.len() && is_term(buf[1]) {
        1
    } else if 2 < buf.len() && is_term(buf[2]) {
        2
    } else if 3 < buf.len() && is_term(buf[3]) {
        3
    } else if 4 < buf.len() && is_term(buf[4]) {
        4
    } else {
        0
    }
}

/// The payload length the buffer's length field declares.
pub open spec fn decoded_len(buf: Seq<u8>) -> int {
    lenfield_value(buf.subrange(1, 1 + term_pos(buf)))
}

/// The total size of the frame at the buffer's front: header byte, length
/// bytes, payload.
pub open spec fn frame_len(buf: Seq<u8>) -> int {
    1 + term_pos(buf) + decoded_len(buf)
}

/// The buffer holds one complete frame at its front.
pub open spec fn decode_yields_frame(buf: Seq<u8>) -> bool {
    term_pos(buf) != 0 && frame_len(buf) <= buf.len()
}

/// The length field occupies all 4 permitted bytes without terminating: a
/// protocol violation whatever bytes follow.
pub open spec fn decode_malformed(buf: Seq<u8>) -> bool {
    term_pos(buf) == 0 && buf.len() >= 5
}

/// The buffer must grow before either a frame or a violation can be
/// established.
pub open spec fn decode_incomplete(buf: Seq<u8>) -> bool {
    !decode_yields_frame(buf) && !decode_malformed(buf)
}

/// The fewest bytes that can encode a payload length.
pub open spec fn min_len_bytes(l: int) -> int {
    if l < 128 {
        1
    } else if l < 16384 {
        2
    } else if l < 2097152 {
        3
    } else {
        4
    }
}

/// The minimal variable-byte encoding of a payload length: low 7 bits first,
/// the continuation bit on every byte but the last.
pub open spec fn encode_len_spec(l: int) -> Seq<u8>
    decreases l,
{
    if l < 128 {
        seq![l as u8]
    } else {
        seq![(128 + l % 128) as u8] + encode_len_spec(l / 128)
    }
}

proof fn lemma_pow128_bounds(n: int)
    requires
        0 <= n <= 4,
    ensures
        pow128(0) == 1,
        pow128(1) == 128,
        pow128(2) == 16384,
        pow128(3) == 2097152,
        pow128(4) == 268435456,
        n <= 3 ==> pow128(n) <= 2097152,
        1 <= pow128(n) <= 268435456,
{
    assert(pow128(0) == 1);
    assert(pow128(1) == 128 * pow128(0));
    assert(pow128(2) == 128 * pow128(1));
    assert(pow128(3) == 128 * pow128(2));
    assert(pow128(4) == 128 * pow128(3));
}

proof fn lemma_lenfield_snoc(enc: Seq<u8>, b: u8)
    ensures
        lenfield_value(enc.push(b)) == lenfield_value(enc) + low7(b) * pow128(enc.len() as int),
    decreases enc.len(),
{
    let ep = enc.push(b);
    if enc.len() == 0 {
        assert(ep.drop_first() =~= Seq::<u8>::empty());
        assert(ep[0] == b);
        assert(ep.drop_first().len() == 0);
        assert(lenfield_value(ep.drop_first()) == 0);
        assert(lenfield_value(ep) == low7(b));
        assert(pow128(0) == 1);
    } else {
        assert(ep.drop_first() =~= enc.drop_first().push(b));
        lemma_lenfield_snoc(enc.drop_first(), b);
        let p = pow128(enc.len() - 1);
        let v = low7(b);
        let rest = lenfield_value(enc.drop_first());
        assert(ep[0] == enc[0]);
        assert(lenfield_value(ep) == low7(enc[0]) + 128 * (rest + v * p));
        assert(128 * (rest + v * p) == 128 * rest + v * (128 * p)) by (nonlinear_arith);
        assert(pow128(enc.len() as int) == 128 * p);
        assert(lenfield_value(enc) == low7(enc[0]) + 128 * rest);
    }
}

proof fn lemma_encode_props(l: int)
    requires
        0 <= l <= 268435455,
    ensures
        ({
            let enc = encode_len_spec(l);
            &&& enc.len() == min_len_bytes(l)
            &&& is_term(enc[enc.len() - 1])
            &&& (forall|j: int| 0 <= j < enc.len() - 1 ==> !is_term(#[trigger] enc[j]))
            &&& lenfield_value(enc) == l
        }),
    decreases l,
{
    let enc = encode_len_spec(l);
    if l < 128 {
        let b = l as u8;
        assert(b < 128);
        assert(b & 0x80 == 0 && b & 0x7f == b) by (bit_vector)
            requires
                b < 128,
        ;
        assert(enc.drop_first() =~= Seq::<u8>::empty());
        assert(lenfield_value(enc.drop_first()) == 0);
        assert(lenfield_value(enc) == low7(b));
    } else {
        let q = l / 128;
        let m = l % 128;
        vstd::arithmetic::div_mod::lemma_fundamental_div_mod(l, 128);
        assert(0 <= m < 128);
        assert(1 <= q <= 2097151);
        let b0 = (128 + m) as u8;
        assert(128 <= 128 + m <= 255);
        assert(b0 & 0x80 != 0 && b0 & 0x7f == b0 - 128) by (bit_vector)
            requires
                b0 >= 128,
        ;
        lemma_encode_props(q);
        let rest = encode_len_spec(q);
        assert(enc == seq![b0] + rest);
        assert(enc[0] == b0);
        assert(forall|j: int| 0 <= j < rest.len() ==> enc[1 + j] == rest[j]);
        assert(is_term(enc[enc.len() - 1]));
        assert(forall|j: int| 1 <= j < enc.len() - 1 ==> enc[j] == rest[j - 1]
            && !is_term(enc[j]));
        assert(l < 16384 ==> q < 128) by (nonlinear_arith)
            requires
                q == l / 128,
                l >= 0,
        ;
        assert(l >= 16384 ==> q >= 128) by (nonlinear_arith)
            requires
                q == l / 128,
                l >= 0,
        ;
        assert(l < 2097152 ==> q < 16384) by (nonlinear_arith)
            requires
                q == l / 128,
                l >= 0,
        ;
        assert(l >= 2097152 ==> q >= 16384) by (nonlinear_arith)
            requires
                q == l / 128,
                l >= 0,
        ;
        assert(enc.len() == min_len_bytes(l));
        assert(enc.drop_first() =~= rest);
        assert(lenfield_value(enc) == low7(b0) + 128 * lenfield_value(rest));
        assert(lenfield_value(enc) == m + 128 * q);
    }
}

proof fn lemma_term_pos_of_lenfield(buf: Seq<u8>, n: int)
    requires
        1 <= n <= 4,
        buf.len() > n,
        is_term(buf[n]),
        forall|j: int| 1 <= j < n ==> !is_term(#[trigger] buf[j]),
    ensures
        term_pos(buf) == n,
{
}

/// Law: a buffer that starts with one complete well-formed frame — a header
/// byte, a length field that terminates within its 4 permitted bytes, and
/// exactly the declared number of payload bytes — decodes to exactly that
/// frame, and the bytes after it are untouched and in order.
pub proof fn lemma_decode_valid_encoding(
    header: u8,
    lenfield: Seq<u8>,
    payload: Seq<u8>,
    trailing: Seq<u8>,
)
    requires
        1 <= lenfield.len() <= 4,
        is_term(lenfield[lenfield.len() - 1]),
        forall|j: int| 0 <= j < lenfield.len() - 1 ==> !is_term(#[trigger] lenfield[j]),
        payload.len() == lenfield_value(lenfield),
    ensures
        ({
            let buf = seq![header] + lenfield + payload + trailing;
            &&& term_pos(buf) == lenfield.len()
            &&& decoded_len(buf) == payload.len()
            &&& frame_len(buf) == 1 + lenfield.len() + payload.len()
            &&& decode_yields_frame(buf)
            &&& buf.take(frame_len(buf)) == seq![header] + lenfield + payload
            &&& buf.skip(frame_len(buf)) == trailing
        }),
{
    let buf = seq![header] + lenfield + payload + trailing;
    let n = lenfield.len() as int;
    assert(buf.len() == 1 + n + payload.len() + trailing.len());
    assert(forall|j: int| 0 <= j < n ==> buf[1 + j] == lenfield[j]);
    assert(buf[n] == lenfield[n - 1]);
    assert(forall|j: int| 1 <= j < n ==> buf[j] == lenfield[j - 1] && !is_term(buf[j]));
    lemma_term_pos_of_lenfield(buf, n);
    assert(buf.subrange(1, 1 + n) =~= lenfield);
    assert(decoded_len(buf) == payload.len());
    assert(buf.take(frame_len(buf)) =~= seq![header] + lenfield + payload);
    assert(buf.skip(frame_len(buf)) =~= trailing);
}

/// Law: a buffer of length 0 or 1 is always incomplete, never a frame and
/// never malformed.
pub proof fn lemma_short_buffer_incomplete(buf: Seq<u8>)
    requires
        buf.len() < 2,
    ensures
        decode_incomplete(buf),
{
}

/// Law: when the bytes at the length-field positions 1 through 4 all carry
/// the continuation bit, the buffer is malformed, regardless of any further
/// bytes present.
pub proof fn lemma_all_continuation_malformed(buf: Seq<u8>)
    requires
        buf.len() >= 5,
        forall|j: int| 1 <= j <= 4 ==> !is_term(#[trigger] buf[j]),
    ensures
        decode_malformed(buf),
{
}

/// Law: encoding a length with the minimal number of continuation bytes and
/// then scanning it back recovers that length exactly, whatever header byte
/// precedes the field and whatever bytes follow it.
pub proof fn lemma_length_round_trip(header: u8, l: int, rest: Seq<u8>)
    requires
        0 <= l <= 268435455,
    ensures
        ({
            let buf = seq![header] + encode_len_spec(l) + rest;
            &&& encode_len_spec(l).len() == min_len_bytes(l)
            &&& term_pos(buf) == min_len_bytes(l)
            &&& decoded_len(buf) == l
        }),
{
    lemma_encode_props(l);
    let enc = encode_len_spec(l);
    let buf = seq![header] + enc + rest;
    let n = enc.len() as int;
    assert(forall|j: int| 0 <= j < n ==> buf[1 + j] == enc[j]);
    assert(buf[n] == enc[n - 1]);
    assert(forall|j: int| 1 <= j < n ==> buf[j] == enc[j - 1] && !is_term(buf[j]));
    lemma_term_pos_of_lenfield(buf, n);
    assert(buf.subrange(1, 1 + n) =~= enc);
}

/// Encode a payload length as a minimal variable-byte length field.
pub fn encode_length(l: u32) -> (out: Vec<u8>)
    requires
        l <= 268435455,
    ensures
        out@ == encode_len_spec(l as int),
        1 <= out@.len() <= 4,
{
    proof {
        lemma_encode_props(l as int);
    }
    let mut out: Vec<u8> = Vec::new();
    let mut x: u32 = l;
    let mut more = true;
    while more
        invariant
            x <= l <= 268435455,
            more ==> encode_len_spec(l as int) == out@ + encode_len_spec(x as int),
            !more ==> out@ == encode_len_spec(l as int),
        decreases x, (if more { 1int } else { 0int }),
    {
        let d = (x % 128) as u8;
        if x >= 128 {
            out.push(d + 128);
            proof {
                assert(out@ + encode_len_spec(x as int / 128) =~= out@.drop_last() + (seq![
                    (128 + x as int % 128) as u8,
                ] + encode_len_spec(x as int / 128)));
            }
            x = x / 128;
        } else {
            out.push(d);
            proof {
                assert(out@ =~= out@.drop_last() + seq![(x as int) as u8]);
            }
            more = false;
        }
    }
    out
}

/// Scan the length field of `s` (header byte at index 0, length bytes from
/// index 1 on): report the field's byte count and decoded value, that the
/// field may yet terminate, or that it cannot.
pub fn scan_length(s: &[u8]) -> (r: LengthScan)
    ensures
        match r {
            LengthScan::Done { len_bytes, value } => {
                &&& 1 <= len_bytes <= 4
                &&& len_bytes == term_pos(s@)
                &&& value == decoded_len(s@)
                &&& value <= 268435455
            },
            LengthScan::NeedMore => term_pos(s@) == 0 && s@.len() < 5,
            LengthScan::TooLong => term_pos(s@) == 0 && s@.len() >= 5,
        },
{
    let n = s.len();
    if n < 2 {
        return LengthScan::NeedMore;
    }
    let lim: usize = if n < 5 {
        n
    } else {
        5
    };
    let mut value: usize = 0;
    let mut multiplier: usize = 1;
    let mut i: usize = 1;
    let mut done = false;
    proof {
        lemma_pow128_bounds(0);
        assert(s@.subrange(1, 1) =~= Seq::<u8>::empty());
    }
    while i < lim && !done
        invariant
            2 <= n == s@.len(),
            lim == if n < 5 {
                n as int
            } else {
                5int
            },
            1 <= i <= lim,
            forall|j: int| 1 <= j < i ==> !is_term(s@[j]),
            !done ==> {
                &&& multiplier == pow128(i as int - 1)
                &&& value == lenfield_value(s@.subrange(1, i as int))
                &&& value < multiplier
            },
            done ==> {
                &&& i < lim
                &&& is_term(s@[i as int])
                &&& term_pos(s@) == i as int
                &&& value == lenfield_value(s@.subrange(1, i as int + 1))
                &&& value < pow128(i as int)
            },
        decreases lim - i + (if done { 0int } else { 1 }),
    {
        let byte = s[i];
        proof {
            lemma_pow128_bounds(i as int - 1);
            assert(byte & 0x7f < 128) by (bit_vector);
            assert(s@.subrange(1, i as int + 1) =~= s@.subrange(1, i as int).push(
                s@[i as int],
            ));
            lemma_lenfield_snoc(s@.subrange(1, i as int), s@[i as int]);
            let low_g = low7(byte);
            let p = pow128(i as int - 1);
            assert(low_g * p <= 127 * p) by (nonlinear_arith)
                requires
                    0 <= low_g <= 127,
                    p >= 0,
            ;
        }
        let low = (byte & 0x7f) as usize;
        value = value + low * multiplier;
        if byte & 0x80 == 0 {
            done = true;
        } else {
            multiplier = multiplier * 128;
            i = i + 1;
        }
    }
    if done {
        return LengthScan::Done { len_bytes: i, value };
    }
    if n >= 5 {
        LengthScan::TooLong
    } else {
        LengthScan::NeedMore
    }
}

} // verus!
