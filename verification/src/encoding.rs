//! Canonical binary encoding: big-endian integers, variable-length integers
//! and length-prefixed byte strings.

use vstd::prelude::*;

verus! {

/// Why a byte string is not an encoding.
#[derive(Clone, Copy, Debug, PartialEq, Eq, Structural)]
pub enum DecodeError {
    /// The input ends inside a field.
    UnexpectedEnd,
    /// A variable-length integer is written in more bytes than it needs.
    NonCanonical,
    /// An integer does not fit the field it is read for.
    OutOfRange,
    /// A tag byte names no known variant.
    InvalidTag,
    /// Bytes follow the last field.
    TrailingBytes,
    /// No decoder is registered for the module instance of a state.
    DecoderMissing(u16),
}

/// `256^n`.
pub open spec fn pow256(n: nat) -> nat
    decreases n,
{
    if n == 0 {
        1
    } else {
        256 * pow256((n - 1) as nat)
    }
}

/// The `width` low-order base-256 digits of `v`, most significant first.
pub open spec fn be_bytes(v: nat, width: nat) -> Seq<u8>
    decreases width,
{
    if width == 0 {
        Seq::empty()
    } else {
        be_bytes(v / 256, (width - 1) as nat).push((v % 256) as u8)
    }
}

/// The number that `bytes` writes in base 256, most significant digit first.
pub open spec fn be_value(bytes: Seq<u8>) -> nat
    decreases bytes.len(),
{
    if bytes.len() == 0 {
        0
    } else {
        be_value(bytes.drop_last()) * 256 + bytes.last() as nat
    }
}

/// A number is written in as many bytes as asked for.
pub proof fn lemma_be_bytes_len(v: nat, width: nat)
    ensures
        be_bytes(v, width).len() == width,
    decreases width,
{
    if width > 0 {
        lemma_be_bytes_len(v / 256, (width - 1) as nat);
    }
}

/// What `n` bytes write is below `256^n`.
pub proof fn lemma_be_value_bound(bytes: Seq<u8>)
    ensures
        be_value(bytes) < pow256(bytes.len()),
    decreases bytes.len(),
{
    if bytes.len() > 0 {
        lemma_be_value_bound(bytes.drop_last());
    }
}

/// Reading back what was written gives the number, when it fits the width.
pub proof fn lemma_be_value_of_bytes(v: nat, width: nat)
    requires
        v < pow256(width),
    ensures
        be_value(be_bytes(v, width)) == v,
    decreases width,
{
    if width > 0 {
        let rest = be_bytes(v / 256, (width - 1) as nat);
        lemma_be_value_of_bytes(v / 256, (width - 1) as nat);
        assert(be_bytes(v, width).drop_last() == rest);
    }
}

/// Writing what was read gives the bytes.
pub proof fn lemma_be_bytes_of_value(bytes: Seq<u8>)
    ensures
        be_bytes(be_value(bytes), bytes.len()) == bytes,
    decreases bytes.len(),
{
    if bytes.len() > 0 {
        lemma_be_bytes_of_value(bytes.drop_last());
        let v = be_value(bytes);
        assert(v / 256 == be_value(bytes.drop_last()));
        assert(v % 256 == bytes.last() as nat);
        assert(be_bytes(v, bytes.len()) == bytes.drop_last().push(bytes.last()));
    }
}

/// The powers of 256 that bound the integers of one, two, four and eight
/// bytes.
pub proof fn lemma_pow256_values()
    ensures
        pow256(0) == 1,
        pow256(1) == 0x100,
        pow256(2) == 0x1_0000,
        pow256(4) == 0x1_0000_0000,
        pow256(8) == 0x1_0000_0000_0000_0000,
{
    reveal_with_fuel(pow256, 9);
}

/// Appends the `width` low-order bytes of `v`, most significant first.
pub fn write_be(v: u64, width: usize, out: &mut Vec<u8>)
    requires
        width <= 8,
    ensures
        final(out)@ == old(out)@ + be_bytes(v as nat, width as nat),
    decreases width,
{
    if width > 0 {
        write_be(v / 256, width - 1, out);
        out.push((v % 256) as u8);
    }
}

/// Reads `width` bytes at `pos` as a big-endian number.
pub fn read_be(bytes: &[u8], pos: usize, width: usize) -> (v: u64)
    requires
        width <= 8,
        pos + width <= bytes@.len(),
    ensures
        v == be_value(bytes@.subrange(pos as int, pos + width)),
{
    let len: usize = bytes.len();
    let mut v: u64 = 0;
    let mut i: usize = 0;
    while i < width
        invariant
            i <= width <= 8,
            pos + width <= bytes@.len() == len,
            v == be_value(bytes@.subrange(pos as int, pos + i)),
        decreases width - i,
    {
        proof {
            let done = bytes@.subrange(pos as int, pos + i);
            let next = bytes@.subrange(pos as int, pos + i + 1);
            assert(next.drop_last() == done);
            assert(next.last() == bytes@[pos + i]);
            lemma_be_value_bound(done);
            lemma_be_value_bound(next);
            lemma_pow256_monotone(next.len(), 8);
            lemma_pow256_values();
        }
        v = v * 256 + bytes[pos + i] as u64;
        i += 1;
    }
    v
}

/// The powers of 256 grow with the exponent.
pub proof fn lemma_pow256_monotone(a: nat, b: nat)
    requires
        a <= b,
    ensures
        pow256(a) <= pow256(b),
    decreases b,
{
    if a < b {
        lemma_pow256_monotone(a, (b - 1) as nat);
    }
}

/// The marker byte that opens a variable-length integer of `width` more bytes.
pub open spec fn varint_marker(width: nat) -> u8 {
    if width == 2 {
        0xFD
    } else if width == 4 {
        0xFE
    } else {
        0xFF
    }
}

/// How many bytes follow the first byte of a variable-length integer.
pub open spec fn varint_width(first: u8) -> nat {
    if first < 0xFD {
        0
    } else if first == 0xFD {
        2
    } else if first == 0xFE {
        4
    } else {
        8
    }
}

/// The least number that may be written after the marker `first`.
pub open spec fn varint_floor(first: u8) -> nat {
    if first < 0xFD {
        0
    } else if first == 0xFD {
        0xFD
    } else if first == 0xFE {
        0x1_0000
    } else {
        0x1_0000_0000
    }
}

/// The variable-length encoding of `v`: one byte below `0xFD`, otherwise a
/// marker and the shortest of 2, 4 or 8 big-endian bytes that hold it.
pub open spec fn varint_bytes(v: u64) -> Seq<u8> {
    if v < 0xFD {
        seq![v as u8]
    } else if v <= 0xFFFF {
        seq![0xFDu8] + be_bytes(v as nat, 2)
    } else if v <= 0xFFFF_FFFF {
        seq![0xFEu8] + be_bytes(v as nat, 4)
    } else {
        seq![0xFFu8] + be_bytes(v as nat, 8)
    }
}

/// Reads a variable-length integer at the start of `s`: the number and how
/// many bytes it took.
pub open spec fn parse_varint(s: Seq<u8>) -> Result<(u64, nat), DecodeError> {
    if s.len() == 0 {
        Err(DecodeError::UnexpectedEnd)
    } else if s[0] < 0xFD {
        Ok((s[0] as u64, 1))
    } else {
        let width = varint_width(s[0]);
        if s.len() < 1 + width {
            Err(DecodeError::UnexpectedEnd)
        } else {
            let v = be_value(s.subrange(1, 1 + width as int));
            if v < varint_floor(s[0]) {
                Err(DecodeError::NonCanonical)
            } else {
                Ok((v as u64, 1 + width))
            }
        }
    }
}

/// A variable-length integer takes one byte, or a marker and the bytes
/// that the marker announces.
pub proof fn lemma_varint_len(v: u64)
    ensures
        1 <= varint_bytes(v).len() <= 9,
        varint_bytes(v).len() == 1 + varint_width(varint_bytes(v)[0]),
{
    lemma_be_bytes_len(v as nat, 2);
    lemma_be_bytes_len(v as nat, 4);
    lemma_be_bytes_len(v as nat, 8);
}

/// An encoded integer is read back, whatever follows it.
pub proof fn lemma_parse_varint_of_bytes(v: u64, rest: Seq<u8>)
    ensures
        parse_varint(varint_bytes(v) + rest) == Ok::<(u64, nat), DecodeError>(
            (v, varint_bytes(v).len()),
        ),
{
    let s = varint_bytes(v) + rest;
    lemma_varint_len(v);
    lemma_pow256_values();
    if v >= 0xFD {
        let width = varint_width(s[0]);
        lemma_be_bytes_len(v as nat, width);
        assert(s.subrange(1, 1 + width as int) == be_bytes(v as nat, width));
        lemma_be_value_of_bytes(v as nat, width);
    }
}

/// Only the canonical encoding of a number is read as that number.
pub proof fn lemma_parse_varint_canonical(s: Seq<u8>)
    ensures
        parse_varint(s) matches Ok((v, n)) ==> n <= s.len() && s.subrange(0, n as int)
            == varint_bytes(v),
{
    if let Ok((v, n)) = parse_varint(s) {
        if s[0] < 0xFD {
            assert(s.subrange(0, 1) == seq![s[0]]);
        } else {
            let width = varint_width(s[0]);
            let digits = s.subrange(1, 1 + width as int);
            lemma_be_bytes_of_value(digits);
            lemma_be_value_bound(digits);
            lemma_pow256_values();
            assert(s.subrange(0, n as int) == seq![s[0]] + digits);
        }
    }
}

/// Appends the variable-length encoding of `v`.
pub fn write_varint(v: u64, out: &mut Vec<u8>)
    ensures
        final(out)@ == old(out)@ + varint_bytes(v),
{
    if v < 0xFD {
        out.push(v as u8);
        assert(out@ == old(out)@ + seq![v as u8]);
    } else {
        let ghost before = out@;
        let width: usize = if v <= 0xFFFF {
            out.push(0xFD);
            2
        } else if v <= 0xFFFF_FFFF {
            out.push(0xFE);
            4
        } else {
            out.push(0xFF);
            8
        };
        write_be(v, width, out);
        assert(out@ == before + (seq![varint_marker(width as nat)] + be_bytes(
            v as nat,
            width as nat,
        )));
    }
}

/// Reads the variable-length integer that starts at `pos`; gives the number
/// and the position after it.
pub fn read_varint(bytes: &[u8], pos: usize) -> (r: Result<(u64, usize), DecodeError>)
    requires
        pos <= bytes@.len(),
    ensures
        match parse_varint(bytes@.skip(pos as int)) {
            Ok((v, n)) => r matches Ok((got, next)) && got == v && next == pos + n && next
                <= bytes@.len(),
            Err(e) => r matches Err(got) && got == e,
        },
{
    let len: usize = bytes.len();
    let ghost s = bytes@.skip(pos as int);
    if pos == len {
        return Err(DecodeError::UnexpectedEnd);
    }
    let first: u8 = bytes[pos];
    assert(s[0] == first);
    if first < 0xFD {
        return Ok((first as u64, pos + 1));
    }
    let (width, floor): (usize, u64) = if first == 0xFD {
        (2, 0xFD)
    } else if first == 0xFE {
        (4, 0x1_0000)
    } else {
        (8, 0x1_0000_0000)
    };
    if len - pos - 1 < width {
        return Err(DecodeError::UnexpectedEnd);
    }
    let v: u64 = read_be(bytes, pos + 1, width);
    assert(bytes@.subrange(pos + 1, pos + 1 + width) == s.subrange(1, 1 + width as int));
    if v < floor {
        return Err(DecodeError::NonCanonical);
    }
    Ok((v, pos + 1 + width))
}

/// A byte string behind its length, the length as a variable-length integer.
pub open spec fn prefixed_bytes(payload: Seq<u8>) -> Seq<u8>
    recommends
        payload.len() <= u64::MAX,
{
    varint_bytes(payload.len() as u64) + payload
}

/// Reads a length-prefixed byte string at the start of `s`: the string and
/// how many bytes it took with its prefix.
pub open spec fn parse_prefixed(s: Seq<u8>) -> Result<(Seq<u8>, nat), DecodeError> {
    match parse_varint(s) {
        Err(e) => Err(e),
        Ok((len, n)) => if s.len() - n < len {
            Err(DecodeError::UnexpectedEnd)
        } else {
            Ok((s.subrange(n as int, n + len), (n + len) as nat))
        },
    }
}

/// A length-prefixed string is read back, whatever follows it.
pub proof fn lemma_parse_prefixed_of_bytes(payload: Seq<u8>, rest: Seq<u8>)
    requires
        payload.len() <= u64::MAX,
    ensures
        parse_prefixed(prefixed_bytes(payload) + rest) == Ok::<(Seq<u8>, nat), DecodeError>(
            (payload, prefixed_bytes(payload).len()),
        ),
{
    let head = varint_bytes(payload.len() as u64);
    let s = prefixed_bytes(payload) + rest;
    assert(s == head + (payload + rest));
    lemma_parse_varint_of_bytes(payload.len() as u64, payload + rest);
    assert(s.subrange(head.len() as int, head.len() as int + payload.len()) == payload);
}

/// Only the canonical encoding of a string is read as that string.
pub proof fn lemma_parse_prefixed_canonical(s: Seq<u8>)
    ensures
        parse_prefixed(s) matches Ok((payload, n)) ==> n <= s.len() && s.subrange(0, n as int)
            == prefixed_bytes(payload),
{
    if let Ok((payload, n)) = parse_prefixed(s) {
        lemma_parse_varint_canonical(s);
        let (len, m) = parse_varint(s)->Ok_0;
        assert(s.subrange(0, n as int) == s.subrange(0, m as int) + payload);
    }
}

/// Appends `payload` behind its length.
pub fn write_prefixed(payload: &[u8], out: &mut Vec<u8>)
    ensures
        final(out)@ == old(out)@ + prefixed_bytes(payload@),
{
    let len: usize = payload.len();
    write_varint(len as u64, out);
    let ghost head = out@;
    let mut i: usize = 0;
    while i < len
        invariant
            i <= len == payload@.len(),
            out@ == head + payload@.subrange(0, i as int),
        decreases len - i,
    {
        out.push(payload[i]);
        assert(payload@.subrange(0, i + 1) == payload@.subrange(0, i as int).push(
            payload@[i as int],
        ));
        i += 1;
    }
    assert(payload@.subrange(0, len as int) == payload@);
}

/// Copies `bytes[from..to]`.
pub fn copy_range(bytes: &[u8], from: usize, to: usize) -> (out: Vec<u8>)
    requires
        from <= to <= bytes@.len(),
    ensures
        out@ == bytes@.subrange(from as int, to as int),
{
    let mut out: Vec<u8> = Vec::with_capacity(to - from);
    let mut i: usize = from;
    while i < to
        invariant
            from <= i <= to <= bytes@.len(),
            out@ == bytes@.subrange(from as int, i as int),
        decreases to - i,
    {
        out.push(bytes[i]);
        assert(bytes@.subrange(from as int, i + 1) == bytes@.subrange(from as int, i as int).push(
            bytes@[i as int],
        ));
        i += 1;
    }
    out
}

/// Reads the length-prefixed byte string that starts at `pos`; gives the
/// string and the position after it.
pub fn read_prefixed(bytes: &[u8], pos: usize) -> (r: Result<(Vec<u8>, usize), DecodeError>)
    requires
        pos <= bytes@.len(),
    ensures
        match parse_prefixed(bytes@.skip(pos as int)) {
            Ok((payload, n)) => r matches Ok((got, next)) && got@ == payload && next == pos + n
                && next <= bytes@.len(),
            Err(e) => r matches Err(got) && got == e,
        },
{
    let total: usize = bytes.len();
    let ghost s = bytes@.skip(pos as int);
    match read_varint(bytes, pos) {
        Err(e) => Err(e),
        Ok((len, start)) => {
            if ((total - start) as u64) < len {
                return Err(DecodeError::UnexpectedEnd);
            }
            let end: usize = start + len as usize;
            let payload = copy_range(bytes, start, end);
            assert(payload@ == s.subrange(start - pos, start - pos + len));
            Ok((payload, end))
        },
    }
}

} // verus!
