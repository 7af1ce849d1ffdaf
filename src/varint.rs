//! Base-128 big-endian variable-length integers, as used throughout the file format.
use vstd::prelude::*;

verus! {

/// The number of bytes taken by the varint that starts at position `i` of `s`,
/// given that the bytes before `i` all carry the continuation bit. A result
/// greater than `s.len()` means the encoding runs past the end of `s`.
pub open spec fn varint_len_from(s: Seq<u8>, i: nat) -> nat
    decreases 8 - i,
{
    if i >= 8 {
        9
    } else if i >= s.len() {
        i + 1
    } else if s[i as int] < 0x80 {
        i + 1
    } else {
        varint_len_from(s, i + 1)
    }
}

/// The number of bytes of the varint at the start of `s` (between 1 and 9).
pub open spec fn varint_len(s: Seq<u8>) -> nat {
    varint_len_from(s, 0)
}

/// The value packed into the first `k` bytes of a varint: seven bits from each
/// of the first eight bytes, all eight bits of the ninth.
pub open spec fn varint_pack(s: Seq<u8>, k: nat) -> nat
    decreases k,
{
    if k == 0 {
        0
    } else if k == 9 {
        varint_pack(s, 8) * 256 + s[8] as nat
    } else {
        varint_pack(s, (k - 1) as nat) * 128 + (s[k - 1] % 128) as nat
    }
}

/// The value of the varint at the start of `s`.
pub open spec fn varint_value(s: Seq<u8>) -> nat {
    varint_pack(s, varint_len(s))
}

/// `s` starts with a complete varint.
pub open spec fn varint_fits(s: Seq<u8>) -> bool {
    varint_len(s) <= s.len()
}

pub open spec fn pow128(k: nat) -> nat
    decreases k,
{
    if k == 0 {
        1
    } else {
        128 * pow128((k - 1) as nat)
    }
}

proof fn lemma_pack_bound(s: Seq<u8>, k: nat)
    requires
        k <= 8,
    ensures
        varint_pack(s, k) < pow128(k),
    decreases k,
{
    if k > 0 {
        lemma_pack_bound(s, (k - 1) as nat);
        let p = varint_pack(s, (k - 1) as nat);
        let b = pow128((k - 1) as nat);
        assert(p * 128 + 127 < 128 * b) by (nonlinear_arith)
            requires
                p < b,
        ;
    }
}

proof fn lemma_len_from_bounds(s: Seq<u8>, i: nat)
    requires
        i <= 8,
    ensures
        i < varint_len_from(s, i) <= 9,
    decreases 8 - i,
{
    if i < 8 && i < s.len() && s[i as int] >= 0x80 {
        lemma_len_from_bounds(s, i + 1);
    }
}

/// The length of a varint is between 1 and 9 bytes.
pub proof fn lemma_varint_len_bounds(s: Seq<u8>)
    ensures
        1 <= varint_len(s) <= 9,
{
    lemma_len_from_bounds(s, 0);
}

/// `p` is exactly one well-formed varint: up to eight bytes with the
/// continuation bit, closed by a byte without it, or eight continuation bytes
/// followed by a ninth byte of any value.
pub open spec fn is_varint_encoding(p: Seq<u8>) -> bool {
    &&& 1 <= p.len() <= 9
    &&& forall|j: int| 0 <= j < p.len() - 1 ==> p[j] >= 0x80
    &&& p.len() <= 8 ==> p[p.len() - 1] < 0x80
}

proof fn lemma_len_prefix(p: Seq<u8>, rest: Seq<u8>, i: nat)
    requires
        is_varint_encoding(p),
        i < p.len(),
        i <= 8,
    ensures
        varint_len_from(p + rest, i) == p.len(),
    decreases 8 - i,
{
    let s = p + rest;
    if i < 8 && i + 1 < p.len() {
        assert(s[i as int] == p[i as int]);
        lemma_len_prefix(p, rest, i + 1);
    } else if i < 8 {
        assert(s[i as int] == p[i as int]);
    }
}

proof fn lemma_pack_prefix(p: Seq<u8>, rest: Seq<u8>, k: nat)
    requires
        k <= p.len(),
        k <= 9,
    ensures
        varint_pack(p + rest, k) == varint_pack(p, k),
    decreases k,
{
    if k > 0 {
        if k == 9 {
            lemma_pack_prefix(p, rest, 8);
            assert((p + rest)[8] == p[8]);
        } else {
            lemma_pack_prefix(p, rest, (k - 1) as nat);
            assert((p + rest)[k - 1] == p[k - 1]);
        }
    }
}

/// Whatever follows a well-formed varint, the decoder takes exactly the bytes
/// of that varint, and its value is the packing of those bytes alone.
pub proof fn lemma_varint_round_trip(p: Seq<u8>, rest: Seq<u8>)
    requires
        is_varint_encoding(p),
    ensures
        varint_fits(p + rest),
        varint_len(p + rest) == p.len(),
        varint_value(p + rest) == varint_pack(p, p.len()),
{
    lemma_len_prefix(p, rest, 0);
    lemma_pack_prefix(p, rest, p.len());
}

/// Decodes the varint at the start of `bytes`, returning its value and the
/// number of bytes it occupies; `None` when `bytes` ends before the varint does.
pub fn parse_varint(bytes: &[u8]) -> (r: Option<(u64, usize)>)
    ensures
        match r {
            Some((v, n)) => varint_fits(bytes@) && n == varint_len(bytes@) && v as nat
                == varint_value(bytes@),
            None => !varint_fits(bytes@),
        },
{
    let ghost s = bytes@;
    let mut value: u64 = 0;
    let mut i: usize = 0;
    proof {
        lemma_varint_len_bounds(s);
    }
    while i < 8
        invariant
            i <= 8,
            s == bytes@,
            varint_len(s) == varint_len_from(s, i as nat),
            value as nat == varint_pack(s, i as nat),
            forall|j: int| 0 <= j < i ==> s[j] >= 0x80,
        decreases 8 - i,
    {
        if i >= bytes.len() {
            return None;
        }
        let b = bytes[i];
        proof {
            lemma_pack_bound(s, i as nat);
            assert(pow128(i as nat) <= pow128(7)) by {
                lemma_pow128_mono(i as nat, 7);
            }
            reveal_with_fuel(pow128, 8);
            assert(pow128(7) == 562949953421312);
            assert(b & 0x7f == b % 128) by (bit_vector);
        }
        value = value * 128 + (b & 0x7f) as u64;
        i = i + 1;
        if b < 0x80 {
            return Some((value, i));
        }
    }
    if bytes.len() < 9 {
        return None;
    }
    proof {
        lemma_pack_bound(s, 8);
        reveal_with_fuel(pow128, 9);
        assert(pow128(8) == 72057594037927936);
    }
    let last = bytes[8];
    value = value * 256 + last as u64;
    Some((value, 9))
}

proof fn lemma_pow128_mono(a: nat, b: nat)
    requires
        a <= b,
    ensures
        pow128(a) <= pow128(b),
    decreases b,
{
    if a < b {
        lemma_pow128_mono(a, (b - 1) as nat);
    }
}

} // verus!
