//! The primitives of the tag/length/value wire format: base-128 varints,
//! length-delimited payloads, and the skipping of fields that are not known.

use vstd::prelude::*;
use vstd::slice::slice_subrange;

verus! {

/// Why a byte string is not a message.
#[derive(Debug, Clone, Copy, PartialEq, Eq, Structural)]
pub enum DecodeError {
    /// A string field does not hold UTF-8.
    Utf8,
    /// A field of a group wire type, which the format no longer has.
    Deprecated,
    /// A field of a wire type that does not exist.
    UnknownWireType(u8),
    /// A varint of more than ten bytes, or an unknown field that claims more
    /// bytes than there are.
    Varint,
    /// The bytes end in the middle of a field.
    UnexpectedEndOfBuffer,
}

/// The base-128 varint of `n`: seven bits to a byte, the low ones first, the
/// high bit set on every byte but the last.
pub open spec fn varint(n: nat) -> Seq<u8>
    decreases n,
{
    if n < 128 {
        seq![n as u8]
    } else {
        seq![(128 + n % 128) as u8] + varint(n / 128)
    }
}

/// 128 to the power `k`.
pub open spec fn pow128(k: nat) -> nat
    decreases k,
{
    if k == 0 {
        1
    } else {
        128 * pow128((k - 1) as nat)
    }
}

/// Where the varint that starts at index 0 of `s` ends, the bytes before
/// index `i` having been seen to carry the continuation bit. A varint has at
/// most ten bytes.
pub open spec fn varint_span(s: Seq<u8>, i: nat) -> Result<nat, DecodeError>
    decreases 10 - i,
{
    if i >= 10 {
        Err(DecodeError::Varint)
    } else if i >= s.len() {
        Err(DecodeError::UnexpectedEndOfBuffer)
    } else if s[i as int] < 128 {
        Ok(i + 1)
    } else {
        varint_span(s, i + 1)
    }
}

/// The number that the bytes of `s` from index `i` up to `n` spell, seven
/// bits to a byte, the low ones first.
pub open spec fn varint_value(s: Seq<u8>, i: nat, n: nat) -> nat
    decreases n - i,
{
    if i >= n {
        0
    } else {
        (s[i as int] % 128) as nat + 128 * varint_value(s, i + 1, n)
    }
}

/// The 32-bit number at the head of `s` and the count of bytes it takes. Of
/// a varint that spells more than 32 bits the low 32 are kept.
pub open spec fn take_varint32(s: Seq<u8>) -> Result<(u32, nat), DecodeError> {
    match varint_span(s, 0) {
        Err(e) => Err(e),
        Ok(n) => Ok(
            ((varint_value(s, 0, if n < 5 { n } else { 5 }) % 0x1_0000_0000) as u32, n),
        ),
    }
}

/// The 64-bit number at the head of `s` and the count of bytes it takes. Of
/// a varint that spells more than 64 bits the low 64 are kept.
pub open spec fn take_varint64(s: Seq<u8>) -> Result<(u64, nat), DecodeError> {
    match varint_span(s, 0) {
        Err(e) => Err(e),
        Ok(n) => Ok(((varint_value(s, 0, n) % 0x1_0000_0000_0000_0000) as u64, n)),
    }
}

/// The length-delimited payload at the head of `s` and the count of bytes
/// that length and payload take together.
pub open spec fn take_delimited(s: Seq<u8>) -> Result<(Seq<u8>, nat), DecodeError> {
    match take_varint32(s) {
        Err(e) => Err(e),
        Ok((len, n)) => if s.len() - n < len {
            Err(DecodeError::UnexpectedEndOfBuffer)
        } else {
            Ok((s.subrange(n as int, n + len), (n + len) as nat))
        },
    }
}

/// The count of bytes that the value of a field with tag `tag` takes at the
/// head of `s`, going by the wire type in the low three bits of the tag
/// alone.
pub open spec fn skip_unknown(tag: u32, s: Seq<u8>) -> Result<nat, DecodeError> {
    let wire_type = tag % 8;
    if wire_type == 0 {
        varint_span(s, 0)
    } else if wire_type == 1 {
        if s.len() < 8 {
            Err(DecodeError::Varint)
        } else {
            Ok(8)
        }
    } else if wire_type == 5 {
        if s.len() < 4 {
            Err(DecodeError::Varint)
        } else {
            Ok(4)
        }
    } else if wire_type == 2 {
        match take_varint64(s) {
            Err(e) => Err(e),
            Ok((len, n)) => if s.len() - n < len {
                Err(DecodeError::Varint)
            } else {
                Ok((n + len) as nat)
            },
        }
    } else if wire_type == 3 || wire_type == 4 {
        Err(DecodeError::Deprecated)
    } else {
        Err(DecodeError::UnknownWireType(wire_type as u8))
    }
}

/// A field of wire type 2: the one-byte tag, the length, the payload.
pub open spec fn delimited(tag: u8, payload: Seq<u8>) -> Seq<u8> {
    seq![tag] + varint(payload.len()) + payload
}

/// A field of wire type 2 that is left out when its payload is empty.
pub open spec fn optional_delimited(tag: u8, payload: Seq<u8>) -> Seq<u8> {
    if payload.len() == 0 {
        Seq::<u8>::empty()
    } else {
        delimited(tag, payload)
    }
}

/// The powers of 128 that the codec meets.
pub proof fn lemma_pow128_values()
    ensures
        pow128(0) == 1,
        pow128(1) == 0x80,
        pow128(2) == 0x4000,
        pow128(3) == 0x20_0000,
        pow128(4) == 0x1000_0000,
        pow128(5) == 0x8_0000_0000,
        pow128(6) == 0x400_0000_0000,
        pow128(7) == 0x2_0000_0000_0000,
        pow128(8) == 0x100_0000_0000_0000,
        pow128(9) == 0x8000_0000_0000_0000,
        pow128(10) == 0x40_0000_0000_0000_0000,
{
    reveal_with_fuel(pow128, 11);
}

/// A varint ends after the index it is scanned from and within both the
/// bytes and the limit of ten.
pub proof fn lemma_span_bounds(s: Seq<u8>, i: nat)
    ensures
        varint_span(s, i) matches Ok(n) ==> i < n <= 10 && n <= s.len() && s[n - 1] < 128,
    decreases 10 - i,
{
    if i < 10 && i < s.len() && s[i as int] >= 128 {
        lemma_span_bounds(s, i + 1);
    }
}

/// The bytes from `i` up to `n` spell less than 128 to the power `n - i`.
pub proof fn lemma_value_bound(s: Seq<u8>, i: nat, n: nat)
    requires
        i <= n,
    ensures
        varint_value(s, i, n) < pow128((n - i) as nat),
    decreases n - i,
{
    if i < n {
        lemma_value_bound(s, i + 1, n);
        assert(pow128((n - i) as nat) == 128 * pow128((n - i - 1) as nat));
    }
}

/// A varint has as many bytes as its number has base-128 digits.
pub proof fn lemma_varint_len(v: nat, k: nat)
    requires
        k >= 1,
        v < pow128(k),
    ensures
        1 <= varint(v).len() <= k,
    decreases v,
{
    if v >= 128 {
        if k == 1 {
            assert(pow128(1) == 128) by {
                reveal_with_fuel(pow128, 2);
            }
        } else {
            assert(pow128(k) == 128 * pow128((k - 1) as nat));
            lemma_varint_len(v / 128, (k - 1) as nat);
        }
    }
}

/// Where the varint of `v` stands in `s` from index `i` on, the scan from `i`
/// ends behind it and the bytes spell `v`.
pub proof fn lemma_varint_at(s: Seq<u8>, i: nat, v: nat)
    requires
        i + varint(v).len() <= s.len(),
        i + varint(v).len() <= 10,
        s.subrange(i as int, (i + varint(v).len()) as int) == varint(v),
    ensures
        varint_span(s, i) == Ok::<nat, DecodeError>(i + varint(v).len()),
        varint_value(s, i, i + varint(v).len()) == v,
    decreases v,
{
    let e = varint(v);
    let n = i + e.len();
    assert(s[i as int] == s.subrange(i as int, n as int)[0]);
    if v < 128 {
        assert(e =~= seq![v as u8]);
        assert(varint_value(s, i + 1, n) == 0);
    } else {
        let tail = varint(v / 128);
        assert(e =~= seq![(128 + v % 128) as u8] + tail);
        assert(e[0] == (128 + v % 128) as u8);
        assert(s.subrange(i as int + 1, n as int) =~= tail) by {
            assert forall|k: int| 0 <= k < tail.len() implies s.subrange(i as int + 1, n as int)[k]
                == tail[k] by {
                assert(s.subrange(i as int, n as int)[k + 1] == e[k + 1]);
            }
        }
        lemma_varint_at(s, i + 1, v / 128);
        assert(s[i as int] % 128 == v % 128);
    }
}

/// A 32-bit number comes back from its varint, whatever follows it.
pub proof fn lemma_take_varint32_of_varint(v: nat, rest: Seq<u8>)
    requires
        v < 0x1_0000_0000,
    ensures
        take_varint32(varint(v) + rest) == Ok::<(u32, nat), DecodeError>(
            (v as u32, varint(v).len()),
        ),
        varint(v).len() <= 5,
{
    lemma_pow128_values();
    lemma_varint_len(v, 5);
    let s = varint(v) + rest;
    assert(s.subrange(0, varint(v).len() as int) =~= varint(v));
    lemma_varint_at(s, 0, v);
}

/// A 64-bit number comes back from its varint, whatever follows it.
pub proof fn lemma_take_varint64_of_varint(v: nat, rest: Seq<u8>)
    requires
        v < 0x1_0000_0000_0000_0000,
    ensures
        take_varint64(varint(v) + rest) == Ok::<(u64, nat), DecodeError>(
            (v as u64, varint(v).len()),
        ),
        varint(v).len() <= 10,
{
    lemma_pow128_values();
    lemma_varint_len(v, 10);
    let s = varint(v) + rest;
    assert(s.subrange(0, varint(v).len() as int) =~= varint(v));
    lemma_varint_at(s, 0, v);
}

/// A payload of less than 2^32 bytes comes back from behind its length,
/// whatever follows it.
pub proof fn lemma_take_delimited_of_payload(payload: Seq<u8>, rest: Seq<u8>)
    requires
        payload.len() < 0x1_0000_0000,
    ensures
        take_delimited(varint(payload.len()) + payload + rest) == Ok::<(Seq<u8>, nat), DecodeError>(
            (payload, (varint(payload.len()).len() + payload.len()) as nat),
        ),
{
    let head = varint(payload.len());
    let s = head + payload + rest;
    assert(s =~= head + (payload + rest));
    lemma_take_varint32_of_varint(payload.len(), payload + rest);
    assert(s.subrange(head.len() as int, (head.len() + payload.len()) as int) =~= payload);
}

/// The powers of 128 grow with their exponent.
pub proof fn lemma_pow128_monotone(a: nat, b: nat)
    requires
        a <= b,
    ensures
        1 <= pow128(a) <= pow128(b),
    decreases b,
{
    if a < b {
        lemma_pow128_monotone(a, (b - 1) as nat);
    } else if a > 0 {
        lemma_pow128_monotone((a - 1) as nat, (b - 1) as nat);
    }
}

/// Appends the varint of `v`.
pub fn write_varint(out: &mut Vec<u8>, v: u64)
    ensures
        final(out)@ == old(out)@ + varint(v as nat),
{
    let ghost start = out@;
    let mut rest: u64 = v;
    while rest >= 128
        invariant
            start + varint(v as nat) == out@ + varint(rest as nat),
        decreases rest,
    {
        let ghost before = out@;
        let low: u8 = (128 + rest % 128) as u8;
        out.push(low);
        proof {
            assert(varint(rest as nat) == seq![low] + varint((rest / 128) as nat));
            assert(before + (seq![low] + varint((rest / 128) as nat)) =~= before.push(low) + varint(
                (rest / 128) as nat,
            ));
        }
        rest = rest / 128;
    }
    let ghost before = out@;
    out.push(rest as u8);
    proof {
        assert(varint(rest as nat) == seq![rest as u8]);
        assert(before + seq![rest as u8] =~= before.push(rest as u8));
    }
}

/// The count of bytes of the varint of `v`.
pub fn sizeof_varint(v: u64) -> (r: usize)
    ensures
        r == varint(v as nat).len(),
        1 <= r <= 10,
{
    proof {
        lemma_pow128_values();
        lemma_varint_len(v as nat, 10);
    }
    let mut rest: u64 = v;
    let mut count: usize = 1;
    while rest >= 128
        invariant
            1 <= count,
            count + varint(rest as nat).len() == 1 + varint(v as nat).len(),
            varint(v as nat).len() <= 10,
        decreases rest,
    {
        proof {
            assert(varint(rest as nat) == seq![(128 + rest % 128) as u8] + varint(
                (rest / 128) as nat,
            ));
        }
        rest = rest / 128;
        count += 1;
    }
    proof {
        assert(varint(rest as nat) == seq![rest as u8]);
    }
    count
}

/// Finds the end of the varint at the head of `s`.
fn scan_varint(s: &[u8]) -> (r: Result<usize, DecodeError>)
    ensures
        match varint_span(s@, 0) {
            Ok(n) => r == Ok::<usize, DecodeError>(n as usize) && n <= 10 && n <= s@.len(),
            Err(e) => r == Err::<usize, DecodeError>(e),
        },
{
    let mut i: usize = 0;
    while i < 10 && i < s.len() && s[i] >= 128
        invariant
            i <= 10,
            varint_span(s@, 0) == varint_span(s@, i as nat),
        decreases 10 - i,
    {
        i += 1;
    }
    proof {
        lemma_span_bounds(s@, 0);
    }
    if i >= 10 {
        Err(DecodeError::Varint)
    } else if i >= s.len() {
        Err(DecodeError::UnexpectedEndOfBuffer)
    } else {
        Ok(i + 1)
    }
}

/// Spells the number in the first `n` bytes of `s`.
fn spell_varint(s: &[u8], n: usize) -> (r: u128)
    requires
        n <= 10,
        n <= s@.len(),
    ensures
        r == varint_value(s@, 0, n as nat),
{
    let mut acc: u128 = 0;
    let mut i: usize = n;
    while i > 0
        invariant
            i <= n <= 10,
            n <= s@.len(),
            acc == varint_value(s@, i as nat, n as nat),
        decreases i,
    {
        proof {
            lemma_value_bound(s@, i as nat, n as nat);
            lemma_pow128_monotone((n - i) as nat, 9);
            lemma_pow128_values();
        }
        i -= 1;
        acc = (s[i] % 128) as u128 + 128 * acc;
    }
    acc
}

/// Reads the 32-bit varint at the head of `s`: its value and the count of
/// bytes it takes.
pub fn read_varint32(s: &[u8]) -> (r: Result<(u32, usize), DecodeError>)
    ensures
        match take_varint32(s@) {
            Ok((v, n)) => r == Ok::<(u32, usize), DecodeError>((v, n as usize)) && 1 <= n <= 10 && n
                <= s@.len(),
            Err(e) => r == Err::<(u32, usize), DecodeError>(e),
        },
{
    proof {
        lemma_span_bounds(s@, 0);
    }
    match scan_varint(s) {
        Err(e) => Err(e),
        Ok(n) => {
            let used: usize = if n < 5 {
                n
            } else {
                5
            };
            let bits = spell_varint(s, used);
            Ok(((bits % 0x1_0000_0000) as u32, n))
        },
    }
}

/// Reads the 64-bit varint at the head of `s`: its value and the count of
/// bytes it takes.
pub fn read_varint64(s: &[u8]) -> (r: Result<(u64, usize), DecodeError>)
    ensures
        match take_varint64(s@) {
            Ok((v, n)) => r == Ok::<(u64, usize), DecodeError>((v, n as usize)) && 1 <= n <= 10 && n
                <= s@.len(),
            Err(e) => r == Err::<(u64, usize), DecodeError>(e),
        },
{
    proof {
        lemma_span_bounds(s@, 0);
    }
    match scan_varint(s) {
        Err(e) => Err(e),
        Ok(n) => {
            let bits = spell_varint(s, n);
            Ok(((bits % 0x1_0000_0000_0000_0000) as u64, n))
        },
    }
}

/// Reads the length-delimited payload at the head of `s`: the payload and
/// the count of bytes that length and payload take together.
pub fn read_delimited(s: &[u8]) -> (r: Result<(&[u8], usize), DecodeError>)
    ensures
        match take_delimited(s@) {
            Ok((payload, n)) => r matches Ok((p, m)) && p@ == payload && m == n && 1 <= n
                <= s@.len(),
            Err(e) => r == Err::<(&[u8], usize), DecodeError>(e),
        },
{
    match read_varint32(s) {
        Err(e) => Err(e),
        Ok((len, n)) => {
            if s.len() - n < len as usize {
                Err(DecodeError::UnexpectedEndOfBuffer)
            } else {
                let end: usize = n + len as usize;
                Ok((slice_subrange(s, n, end), end))
            }
        },
    }
}

/// Finds the end of the value of a field that is not known, going by the
/// wire type in its tag.
pub fn read_unknown(tag: u32, s: &[u8]) -> (r: Result<usize, DecodeError>)
    ensures
        match skip_unknown(tag, s@) {
            Ok(n) => r == Ok::<usize, DecodeError>(n as usize) && n <= s@.len(),
            Err(e) => r == Err::<usize, DecodeError>(e),
        },
{
    let wire_type: u32 = tag % 8;
    if wire_type == 0 {
        scan_varint(s)
    } else if wire_type == 1 {
        if s.len() < 8 {
            Err(DecodeError::Varint)
        } else {
            Ok(8)
        }
    } else if wire_type == 5 {
        if s.len() < 4 {
            Err(DecodeError::Varint)
        } else {
            Ok(4)
        }
    } else if wire_type == 2 {
        match read_varint64(s) {
            Err(e) => Err(e),
            Ok((len, n)) => {
                if ((s.len() - n) as u64) < len {
                    Err(DecodeError::Varint)
                } else {
                    Ok(n + len as usize)
                }
            },
        }
    } else if wire_type == 3 || wire_type == 4 {
        Err(DecodeError::Deprecated)
    } else {
        Err(DecodeError::UnknownWireType(wire_type as u8))
    }
}

} // verus!
