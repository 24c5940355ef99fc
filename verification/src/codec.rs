//! The integer codecs of the wire format: varint (little-endian base-128),
//! the zigzag signed transform, and fixed-width little-endian bytes.
//!
//! The spec functions here are the single source of truth for what every
//! writer emits and every reader accepts; the proof functions state the
//! round-trip laws of the format.

use vstd::prelude::*;
use vstd::arithmetic::div_mod::{
    lemma_add_mod_noop, lemma_div_multiples_vanish_fancy, lemma_div_pos_is_pos,
    lemma_mod_multiples_vanish, lemma_mul_mod_noop_right, lemma_multiply_divide_lt,
    lemma_small_mod,
};
use vstd::arithmetic::power::{lemma_pow_adds, lemma_pow_positive, pow};

verus! {

/// The canonical varint encoding of `v`: 7 payload bits per byte, low group
/// first, continuation bit 0x80 on every byte but the last.
pub open spec fn varint_bytes(v: u64) -> Seq<u8>
    decreases v,
{
    if v < 0x80 {
        seq![v as u8]
    } else {
        seq![(v % 0x80 + 0x80) as u8] + varint_bytes((v / 0x80) as u64)
    }
}

/// The base-128 value of a byte group sequence, before truncation to 64 bits.
pub open spec fn varint_value_int(s: Seq<u8>) -> int
    decreases s.len(),
{
    if s.len() == 0 {
        0
    } else {
        (s[0] % 0x80) + 0x80 * varint_value_int(s.subrange(1, s.len() as int))
    }
}

/// The value a varint decoder yields for the byte groups `s`: the base-128
/// value truncated to 64 bits.
pub open spec fn varint_value(s: Seq<u8>) -> u64 {
    (varint_value_int(s) % 0x1_0000_0000_0000_0000) as u64
}

/// `s` is a complete varint: one to ten bytes, every byte but the last
/// carrying the continuation bit.
pub open spec fn is_varint(s: Seq<u8>) -> bool {
    &&& 1 <= s.len() <= 10
    &&& (forall|i: int| 0 <= i < s.len() - 1 ==> s[i] >= 0x80)
    &&& s[s.len() - 1] < 0x80
}

/// The length of the first complete varint of `s`, scanning at most `fuel`
/// bytes; `None` when no byte without the continuation bit is found in reach.
pub open spec fn varint_scan(s: Seq<u8>, fuel: nat) -> Option<nat>
    decreases fuel,
{
    if fuel == 0 {
        None
    } else if s.len() == 0 {
        None
    } else if s[0] < 0x80 {
        Some(1nat)
    } else {
        match varint_scan(s.subrange(1, s.len() as int), (fuel - 1) as nat) {
            Some(k) => Some((k + 1) as nat),
            None => None,
        }
    }
}

/// The length of the varint a decoder consumes at the head of `s`, if any:
/// a decoder gives up after ten bytes.
pub open spec fn varint_parse_len(s: Seq<u8>) -> Option<nat> {
    varint_scan(s, 10)
}

/// The zigzag image of a signed 64-bit value: non-negative `v` maps to `2v`,
/// negative `v` to `-2v - 1`.
pub open spec fn zigzag64(v: i64) -> u64 {
    (if v >= 0 {
        2 * (v as int)
    } else {
        -2 * (v as int) - 1
    }) as u64
}

/// The inverse of the zigzag transform on 64 bits.
pub open spec fn zigzag64_inv(n: u64) -> i64 {
    (if n % 2 == 0 {
        (n as int) / 2
    } else {
        -(((n as int) + 1) / 2)
    }) as i64
}

/// The zigzag image of a signed 32-bit value.
pub open spec fn zigzag32(v: i32) -> u32 {
    (if v >= 0 {
        2 * (v as int)
    } else {
        -2 * (v as int) - 1
    }) as u32
}

/// The inverse of the zigzag transform on 32 bits.
pub open spec fn zigzag32_inv(n: u32) -> i32 {
    (if n % 2 == 0 {
        (n as int) / 2
    } else {
        -(((n as int) + 1) / 2)
    }) as i32
}

/// The `n` little-endian bytes of the non-negative value `v`.
pub open spec fn le_bytes(v: int, n: nat) -> Seq<u8>
    decreases n,
{
    if n == 0 {
        Seq::empty()
    } else {
        seq![(v % 0x100) as u8] + le_bytes(v / 0x100, (n - 1) as nat)
    }
}

/// The value of a little-endian byte sequence.
pub open spec fn le_value(s: Seq<u8>) -> int
    decreases s.len(),
{
    if s.len() == 0 {
        0
    } else {
        s[0] + 0x100 * le_value(s.subrange(1, s.len() as int))
    }
}

/// A canonical varint is one to ten bytes long.
pub proof fn lemma_varint_bytes_len(v: u64)
    ensures
        1 <= varint_bytes(v).len() <= 10,
{
    lemma_u64_below_pow80_10(v);
    lemma_varint_len_bound(v, 10);
}

proof fn lemma_varint_len_bound(v: u64, k: nat)
    requires
        k >= 1,
        v < pow(0x80, k),
    ensures
        1 <= varint_bytes(v).len() <= k,
    decreases k,
{
    reveal(pow);
    if v < 0x80 {
    } else {
        assert(pow(0x80, k) == 0x80 * pow(0x80, (k - 1) as nat)) by {
            lemma_pow_adds(0x80, 1, (k - 1) as nat);
            assert(pow(0x80, 1) == 0x80 * pow(0x80, 0));
        }
        lemma_pow_positive(0x80, (k - 1) as nat);
        lemma_multiply_divide_lt(v as int, pow(0x80, (k - 1) as nat), 0x80);
        lemma_varint_len_bound((v / 0x80) as u64, (k - 1) as nat);
    }
}

/// `u64::MAX` needs ten bytes, so every `u64` fits the ten-byte bound.
proof fn lemma_u64_below_pow80_10(v: u64)
    ensures
        v < pow(0x80, 10),
{
    reveal(pow);
    assert(pow(0x80, 0) == 1);
    assert(pow(0x80, 1) == 0x80 * pow(0x80, 0));
    assert(pow(0x80, 2) == 0x80 * pow(0x80, 1));
    assert(pow(0x80, 3) == 0x80 * pow(0x80, 2));
    assert(pow(0x80, 4) == 0x80 * pow(0x80, 3));
    assert(pow(0x80, 5) == 0x80 * pow(0x80, 4));
    assert(pow(0x80, 5) == 0x8_0000_0000);
    lemma_pow_adds(0x80, 5, 5);
    assert(pow(0x80, 10) == 0x8_0000_0000 * 0x8_0000_0000);
    assert(v < 0x1_0000_0000_0000_0000);
}

/// The canonical encoding is a well-formed varint.
pub proof fn lemma_varint_bytes_wf(v: u64)
    ensures
        is_varint(varint_bytes(v)),
    decreases v,
{
    lemma_varint_bytes_len(v);
    if v < 0x80 {
    } else {
        let c = (v % 0x80 + 0x80) as u8;
        let rest = varint_bytes((v / 0x80) as u64);
        lemma_varint_bytes_wf((v / 0x80) as u64);
        lemma_varint_bytes_len((v / 0x80) as u64);
        assert(varint_bytes(v) == seq![c] + rest);
        assert forall|i: int| 0 <= i < varint_bytes(v).len() - 1 implies varint_bytes(v)[i]
            >= 0x80 by {
            if i > 0 {
                assert(varint_bytes(v)[i] == rest[i - 1]);
            }
        }
        assert(varint_bytes(v)[varint_bytes(v).len() - 1] == rest[rest.len() - 1]);
    }
}

/// Decoding the canonical encoding of `v` gives back exactly `v`.
pub proof fn lemma_varint_value_of_bytes(v: u64)
    ensures
        varint_value_int(varint_bytes(v)) == v,
        varint_value(varint_bytes(v)) == v,
    decreases v,
{
    if v < 0x80 {
        assert(varint_bytes(v) == seq![v as u8]);
        assert(varint_bytes(v).subrange(1, 1) =~= Seq::<u8>::empty());
        assert(varint_value_int(Seq::<u8>::empty()) == 0);
        assert(varint_value_int(varint_bytes(v)) == v);
        lemma_small_mod(v as nat, 0x1_0000_0000_0000_0000);
    } else {
        let c = (v % 0x80 + 0x80) as u8;
        let rest = varint_bytes((v / 0x80) as u64);
        lemma_varint_value_of_bytes((v / 0x80) as u64);
        assert(varint_bytes(v) == seq![c] + rest);
        assert((seq![c] + rest).subrange(1, (seq![c] + rest).len() as int) =~= rest);
        assert(varint_value_int(varint_bytes(v)) == (c % 0x80) + 0x80 * varint_value_int(rest));
        assert(c % 0x80 == v % 0x80);
        assert((v % 0x80) + 0x80 * ((v / 0x80) as u64) == v);
        lemma_small_mod(v as nat, 0x1_0000_0000_0000_0000);
    }
}

/// A decoder scanning a buffer that begins with a complete varint stops at
/// exactly its end, whatever follows.
pub proof fn lemma_scan_of_varint_prefix(s: Seq<u8>, t: Seq<u8>, fuel: nat)
    requires
        is_varint(s),
        s.len() <= fuel,
    ensures
        varint_scan(s + t, fuel) == Some(s.len() as nat),
    decreases s.len(),
{
    let u = s + t;
    assert(u[0] == s[0]);
    if s.len() == 1 {
        assert(s[0] < 0x80);
    } else {
        assert(s[0] >= 0x80);
        let s1 = s.subrange(1, s.len() as int);
        assert(is_varint(s1)) by {
            assert forall|i: int| 0 <= i < s1.len() - 1 implies s1[i] >= 0x80 by {
                assert(s1[i] == s[i + 1]);
            }
            assert(s1[s1.len() - 1] == s[s.len() - 1]);
        }
        assert(u.subrange(1, u.len() as int) =~= s1 + t);
        lemma_scan_of_varint_prefix(s1, t, (fuel - 1) as nat);
    }
}

/// Round trip of the varint codec: in any buffer that starts with the
/// canonical encoding of `v`, a decoder consumes exactly that encoding and
/// yields `v`.
pub proof fn lemma_varint_roundtrip(v: u64, t: Seq<u8>)
    ensures
        varint_parse_len(varint_bytes(v) + t) == Some(varint_bytes(v).len() as nat),
        (varint_bytes(v) + t).subrange(0, varint_bytes(v).len() as int) == varint_bytes(v),
        varint_value((varint_bytes(v) + t).subrange(0, varint_bytes(v).len() as int)) == v,
{
    lemma_varint_bytes_wf(v);
    lemma_varint_bytes_len(v);
    lemma_scan_of_varint_prefix(varint_bytes(v), t, 10);
    assert((varint_bytes(v) + t).subrange(0, varint_bytes(v).len() as int) =~= varint_bytes(v));
    lemma_varint_value_of_bytes(v);
}

/// Round trip of the zigzag transform on 64 bits.
pub proof fn lemma_zigzag64_roundtrip(v: i64)
    ensures
        zigzag64_inv(zigzag64(v)) == v,
{
    if v >= 0 {
        assert(zigzag64(v) == 2 * (v as int));
    } else {
        assert(zigzag64(v) == -2 * (v as int) - 1);
    }
}

/// Round trip of the zigzag transform on 32 bits.
pub proof fn lemma_zigzag32_roundtrip(v: i32)
    ensures
        zigzag32_inv(zigzag32(v)) == v,
{
    if v >= 0 {
        assert(zigzag32(v) == 2 * (v as int));
    } else {
        assert(zigzag32(v) == -2 * (v as int) - 1);
    }
}

/// Fixed-width little-endian bytes have exactly the declared width.
pub proof fn lemma_le_bytes_len(v: int, n: nat)
    ensures
        le_bytes(v, n).len() == n,
    decreases n,
{
    if n > 0 {
        lemma_le_bytes_len(v / 0x100, (n - 1) as nat);
    }
}

/// Round trip of the fixed-width little-endian codec.
pub proof fn lemma_le_roundtrip(v: int, n: nat)
    requires
        0 <= v < pow(0x100, n),
    ensures
        le_value(le_bytes(v, n)) == v,
    decreases n,
{
    reveal(pow);
    if n == 0 {
        assert(pow(0x100, 0) == 1);
    } else {
        assert(pow(0x100, n) == 0x100 * pow(0x100, (n - 1) as nat)) by {
            lemma_pow_adds(0x100, 1, (n - 1) as nat);
            assert(pow(0x100, 1) == 0x100 * pow(0x100, 0));
        }
        lemma_pow_positive(0x100, (n - 1) as nat);
        lemma_multiply_divide_lt(v, pow(0x100, (n - 1) as nat), 0x100);
        lemma_div_pos_is_pos(v, 0x100);
        lemma_le_roundtrip(v / 0x100, (n - 1) as nat);
        let s = seq![(v % 0x100) as u8] + le_bytes(v / 0x100, (n - 1) as nat);
        assert(s.subrange(1, s.len() as int) =~= le_bytes(v / 0x100, (n - 1) as nat));
        assert(le_value(s) == (v % 0x100) + 0x100 * (v / 0x100));
    }
}

/// A length-prefixed frame is cut short: either its length varint itself is
/// truncated, or the length it declares exceeds the bytes that follow.
pub open spec fn frame_truncated(region: Seq<u8>) -> bool {
    match varint_parse_len(region) {
        None => region.len() < 10,
        Some(k) => (varint_value(region.subrange(0, k as int)) as int) > region.len() - k,
    }
}

/// How many bytes a field of the given wire type occupies at the head of
/// `region`: the varint, the fixed width, or the length prefix plus its
/// payload; `None` when the bytes run out first or the wire type is
/// unsupported.
pub open spec fn field_skip_len(region: Seq<u8>, wire_type: u32) -> Option<int> {
    if wire_type == 0 {
        match varint_parse_len(region) {
            Some(k) => Some(k as int),
            None => None,
        }
    } else if wire_type == 1 {
        if region.len() >= 8 {
            Some(8)
        } else {
            None
        }
    } else if wire_type == 5 {
        if region.len() >= 4 {
            Some(4)
        } else {
            None
        }
    } else if wire_type == 2 {
        match varint_parse_len(region) {
            Some(k) => {
                let len = varint_value(region.subrange(0, k as int)) as int;
                if len <= region.len() - k {
                    Some(k + len)
                } else {
                    None
                }
            },
            None => None,
        }
    } else {
        None
    }
}

/// One decoding step of a varint reader: merging the next 7-bit group into
/// the value read so far equals the base-128 sum, truncated to 64 bits.
pub proof fn lemma_varint_combine(b: u8, rest: u64, vi: int)
    requires
        vi >= 0,
        rest == vi % 0x1_0000_0000_0000_0000,
    ensures
        (((b & 0x7f) as u64) | (rest << 7)) == ((b % 0x80) + 0x80 * vi) % 0x1_0000_0000_0000_0000,
{
    assert((((b & 0x7f) as u64) | (rest << 7)) == ((b as int) % 0x80 + (rest as int) * 0x80)
        % 0x1_0000_0000_0000_0000) by (bit_vector);
    let m: int = 0x1_0000_0000_0000_0000;
    let a: int = (b as int) % 0x80;
    lemma_mul_mod_noop_right(0x80, vi, m);
    lemma_add_mod_noop(a, 0x80 * (vi % m), m);
    lemma_add_mod_noop(a, 0x80 * vi, m);
    lemma_small_mod(a as nat, m as nat);
    assert((a + 0x80 * (vi % m)) % m == (a + 0x80 * vi) % m);
}

/// A little-endian byte sequence's value fits its width.
pub proof fn lemma_le_value_bound(s: Seq<u8>)
    ensures
        0 <= le_value(s) < pow(0x100, s.len()),
    decreases s.len(),
{
    reveal(pow);
    if s.len() == 0 {
    } else {
        let rest = s.subrange(1, s.len() as int);
        lemma_le_value_bound(rest);
        assert(pow(0x100, s.len()) == 0x100 * pow(0x100, (s.len() - 1) as nat)) by {
            lemma_pow_adds(0x100, 1, (s.len() - 1) as nat);
            assert(pow(0x100, 1) == 0x100 * pow(0x100, 0));
        }
        assert(le_value(s) == s[0] + 0x100 * le_value(rest));
    }
}

/// The value of four little-endian bytes, written out.
pub proof fn lemma_le_value4(s: Seq<u8>)
    requires
        s.len() == 4,
    ensures
        le_value(s) == s[0] + 0x100 * s[1] + 0x10000 * s[2] + 0x1000000 * s[3],
        0 <= le_value(s) < 0x1_0000_0000,
{
    reveal_with_fuel(le_value, 6);
    let s1 = s.subrange(1, 4);
    let s2 = s1.subrange(1, 3);
    let s3 = s2.subrange(1, 2);
    let s4 = s3.subrange(1, 1);
    assert(s4 =~= Seq::<u8>::empty());
    assert(le_value(s4) == 0);
    assert(s3[0] == s[3]);
    assert(s2[0] == s[2]);
    assert(s2[1] == s[3]);
    assert(s1[0] == s[1]);
    assert(s1[1] == s[2]);
    assert(s1[2] == s[3]);
    assert(le_value(s) == s[0] + 0x100 * le_value(s1));
}

/// The value of eight little-endian bytes, written out.
pub proof fn lemma_le_value8(s: Seq<u8>)
    requires
        s.len() == 8,
    ensures
        le_value(s) == s[0] + 0x100 * s[1] + 0x10000 * s[2] + 0x1000000 * s[3] + 0x1_0000_0000 * s[4]
            + 0x100_0000_0000 * s[5] + 0x1_0000_0000_0000 * s[6] + 0x100_0000_0000_0000 * s[7],
        0 <= le_value(s) < 0x1_0000_0000_0000_0000,
{
    let s1 = s.subrange(1, 8);
    lemma_le_value8_tail(s1);
    assert forall|i: int| 0 <= i < 7 implies s1[i] == s[i + 1] by {}
    assert(le_value(s) == s[0] + 0x100 * le_value(s1));
}

proof fn lemma_le_value8_tail(s: Seq<u8>)
    requires
        s.len() == 7,
    ensures
        le_value(s) == s[0] + 0x100 * s[1] + 0x10000 * s[2] + 0x1000000 * s[3] + 0x1_0000_0000
            * s[4] + 0x100_0000_0000 * s[5] + 0x1_0000_0000_0000 * s[6],
        0 <= le_value(s) < 0x100_0000_0000_0000,
{
    reveal_with_fuel(le_value, 9);
    let s1 = s.subrange(1, 7);
    let s2 = s1.subrange(1, 6);
    let s3 = s2.subrange(1, 5);
    let s4 = s3.subrange(1, 4);
    let s5 = s4.subrange(1, 3);
    let s6 = s5.subrange(1, 2);
    let s7 = s6.subrange(1, 1);
    assert(s7 =~= Seq::<u8>::empty());
    assert(le_value(s7) == 0);
    assert(s6[0] == s[6]);
    assert(s5[0] == s[5]);
    assert(s5[1] == s[6]);
    assert(s4[0] == s[4]);
    assert(s4[1] == s[5]);
    assert(s4[2] == s[6]);
    assert(s3[0] == s[3]);
    assert(s3[1] == s[4]);
    assert(s3[2] == s[5]);
    assert(s3[3] == s[6]);
    assert(s2[0] == s[2]);
    assert(s2[1] == s[3]);
    assert(s2[2] == s[4]);
    assert(s2[3] == s[5]);
    assert(s2[4] == s[6]);
    assert(s1[0] == s[1]);
    assert(s1[1] == s[2]);
    assert(s1[2] == s[3]);
    assert(s1[3] == s[4]);
    assert(s1[4] == s[5]);
    assert(s1[5] == s[6]);
    assert(le_value(s) == s[0] + 0x100 * le_value(s1));
}

/// The payload of a packed repeated varint field: the concatenation of the
/// canonical varint encodings of the elements, with no per-element tag.
pub open spec fn packed_varint_payload(s: Seq<u64>) -> Seq<u8>
    decreases s.len(),
{
    if s.len() == 0 {
        Seq::empty()
    } else {
        varint_bytes(s[0]) + packed_varint_payload(s.subrange(1, s.len() as int))
    }
}

/// The payload of a packed repeated fixed32 field: four little-endian bytes
/// per element.
pub open spec fn packed_fixed32_payload(s: Seq<u32>) -> Seq<u8>
    decreases s.len(),
{
    if s.len() == 0 {
        Seq::empty()
    } else {
        le_bytes(s[0] as int, 4) + packed_fixed32_payload(s.subrange(1, s.len() as int))
    }
}

/// The payload of a packed repeated fixed64 field: eight little-endian bytes
/// per element.
pub open spec fn packed_fixed64_payload(s: Seq<u64>) -> Seq<u8>
    decreases s.len(),
{
    if s.len() == 0 {
        Seq::empty()
    } else {
        le_bytes(s[0] as int, 8) + packed_fixed64_payload(s.subrange(1, s.len() as int))
    }
}

/// Appending an element appends its encoding to the packed payload.
pub proof fn lemma_packed_varint_payload_push(s: Seq<u64>, x: u64)
    ensures
        packed_varint_payload(s.push(x)) == packed_varint_payload(s) + varint_bytes(x),
    decreases s.len(),
{
    if s.len() == 0 {
        assert(s.push(x).subrange(1, 1) =~= Seq::<u64>::empty());
        assert(packed_varint_payload(Seq::<u64>::empty()) == Seq::<u8>::empty());
        assert(packed_varint_payload(s.push(x)) =~= packed_varint_payload(s) + varint_bytes(x));
    } else {
        let rest = s.subrange(1, s.len() as int);
        lemma_packed_varint_payload_push(rest, x);
        assert(s.push(x).subrange(1, s.push(x).len() as int) =~= rest.push(x));
        assert(s.push(x)[0] == s[0]);
        assert(packed_varint_payload(s.push(x)) =~= packed_varint_payload(s) + varint_bytes(x));
    }
}

/// Appending an element appends its encoding to the packed payload.
pub proof fn lemma_packed_fixed32_payload_push(s: Seq<u32>, x: u32)
    ensures
        packed_fixed32_payload(s.push(x)) == packed_fixed32_payload(s) + le_bytes(x as int, 4),
    decreases s.len(),
{
    if s.len() == 0 {
        assert(s.push(x).subrange(1, 1) =~= Seq::<u32>::empty());
        assert(packed_fixed32_payload(Seq::<u32>::empty()) == Seq::<u8>::empty());
        assert(packed_fixed32_payload(s.push(x)) =~= packed_fixed32_payload(s) + le_bytes(
            x as int,
            4,
        ));
    } else {
        let rest = s.subrange(1, s.len() as int);
        lemma_packed_fixed32_payload_push(rest, x);
        assert(s.push(x).subrange(1, s.push(x).len() as int) =~= rest.push(x));
        assert(s.push(x)[0] == s[0]);
        assert(packed_fixed32_payload(s.push(x)) =~= packed_fixed32_payload(s) + le_bytes(
            x as int,
            4,
        ));
    }
}

/// Appending an element appends its encoding to the packed payload.
pub proof fn lemma_packed_fixed64_payload_push(s: Seq<u64>, x: u64)
    ensures
        packed_fixed64_payload(s.push(x)) == packed_fixed64_payload(s) + le_bytes(x as int, 8),
    decreases s.len(),
{
    if s.len() == 0 {
        assert(s.push(x).subrange(1, 1) =~= Seq::<u64>::empty());
        assert(packed_fixed64_payload(Seq::<u64>::empty()) == Seq::<u8>::empty());
        assert(packed_fixed64_payload(s.push(x)) =~= packed_fixed64_payload(s) + le_bytes(
            x as int,
            8,
        ));
    } else {
        let rest = s.subrange(1, s.len() as int);
        lemma_packed_fixed64_payload_push(rest, x);
        assert(s.push(x).subrange(1, s.push(x).len() as int) =~= rest.push(x));
        assert(s.push(x)[0] == s[0]);
        assert(packed_fixed64_payload(s.push(x)) =~= packed_fixed64_payload(s) + le_bytes(
            x as int,
            8,
        ));
    }
}

/// A packed varint payload splits at any element boundary.
pub proof fn lemma_packed_varint_payload_split(s: Seq<u64>, k: int)
    requires
        0 <= k <= s.len(),
    ensures
        packed_varint_payload(s) == packed_varint_payload(s.subrange(0, k))
            + packed_varint_payload(s.subrange(k, s.len() as int)),
    decreases k,
{
    if k == 0 {
        assert(s.subrange(0, 0) =~= Seq::<u64>::empty());
        assert(s.subrange(0, s.len() as int) =~= s);
        assert(packed_varint_payload(s.subrange(0, 0)) + packed_varint_payload(s)
            =~= packed_varint_payload(s));
    } else {
        let rest = s.subrange(1, s.len() as int);
        lemma_packed_varint_payload_split(rest, k - 1);
        assert(s.subrange(0, k).subrange(1, k) =~= rest.subrange(0, k - 1));
        assert(s.subrange(0, k)[0] == s[0]);
        assert(s.subrange(k, s.len() as int) =~= rest.subrange(k - 1, rest.len() as int));
        assert(packed_varint_payload(s) =~= packed_varint_payload(s.subrange(0, k))
            + packed_varint_payload(s.subrange(k, s.len() as int)));
    }
}



/// The values a decoder yields for a packed varint payload, read back to
/// back until the bytes run out; `None` when an element is cut short or
/// overlong.
pub open spec fn parse_packed_varints(s: Seq<u8>) -> Option<Seq<u64>>
    decreases s.len(),
{
    if s.len() == 0 {
        Some(Seq::empty())
    } else {
        match varint_parse_len(s) {
            Some(k) => if 1 <= k <= s.len() {
                match parse_packed_varints(s.subrange(k as int, s.len() as int)) {
                    Some(t) => Some(seq![varint_value(s.subrange(0, k as int))] + t),
                    None => None,
                }
            } else {
                None
            },
            None => None,
        }
    }
}

/// A varint scan that succeeds consumed between one byte and the whole of
/// its fuel and buffer.
pub proof fn lemma_scan_len_bounds(s: Seq<u8>, fuel: nat)
    ensures
        varint_scan(s, fuel) matches Some(k) ==> 1 <= k <= s.len() && k <= fuel,
    decreases fuel,
{
    if fuel > 0 && s.len() > 0 && s[0] >= 0x80 {
        lemma_scan_len_bounds(s.subrange(1, s.len() as int), (fuel - 1) as nat);
    }
}

/// Encoding the value of a little-endian byte sequence gives back exactly
/// that sequence: the fixed-width codec is canonical.
pub proof fn lemma_le_bytes_of_value(s: Seq<u8>)
    ensures
        le_bytes(le_value(s), s.len()) == s,
    decreases s.len(),
{
    if s.len() == 0 {
        assert(le_bytes(0, 0) =~= s);
    } else {
        let rest = s.subrange(1, s.len() as int);
        lemma_le_bytes_of_value(rest);
        lemma_le_value_bound(rest);
        let x = le_value(s);
        assert(x == s[0] + 0x100 * le_value(rest));
        assert(x == 0x100 * le_value(rest) + s[0]);
        assert(x % 0x100 == s[0]) by {
            lemma_mod_multiples_vanish(le_value(rest), s[0] as int, 0x100);
            lemma_small_mod(s[0] as nat, 0x100);
        }
        assert(x / 0x100 == le_value(rest)) by {
            lemma_div_multiples_vanish_fancy(le_value(rest), s[0] as int, 0x100);
        }
        assert(le_bytes(x, s.len()) =~= s);
    }
}

/// Scanning a run of continuation bytes never finds a complete varint.
proof fn lemma_scan_none_all_continuation(s: Seq<u8>, fuel: nat)
    requires
        forall|i: int| 0 <= i < s.len() ==> s[i] >= 0x80,
    ensures
        varint_scan(s, fuel) == None::<nat>,
    decreases fuel,
{
    if fuel > 0 && s.len() > 0 {
        let rest = s.subrange(1, s.len() as int);
        assert(forall|i: int| 0 <= i < rest.len() ==> rest[i] >= 0x80);
        lemma_scan_none_all_continuation(rest, (fuel - 1) as nat);
    }
}

/// Truncation law: a length-prefixed frame is a varint length followed by
/// exactly that many payload bytes; cutting it at any offset strictly before
/// its end leaves a region that is truncated as a frame, so a frame decoder
/// reports `Truncated` rather than a value.
pub proof fn lemma_frame_truncation(len_val: u64, payload: Seq<u8>, cut: int)
    requires
        payload.len() == len_val,
        0 <= cut < varint_bytes(len_val).len() + payload.len(),
    ensures
        frame_truncated((varint_bytes(len_val) + payload).subrange(0, cut)),
{
    let enc = varint_bytes(len_val);
    let frame = enc + payload;
    let region = frame.subrange(0, cut);
    lemma_varint_bytes_wf(len_val);
    lemma_varint_bytes_len(len_val);
    if cut < enc.len() {
        assert(forall|i: int| 0 <= i < region.len() ==> region[i] == enc[i]);
        assert(forall|i: int| 0 <= i < region.len() ==> region[i] >= 0x80);
        lemma_scan_none_all_continuation(region, 10);
        assert(region.len() < 10);
    } else {
        let tail = payload.subrange(0, cut - enc.len());
        assert(region =~= enc + tail);
        lemma_scan_of_varint_prefix(enc, tail, 10);
        assert(region.subrange(0, enc.len() as int) =~= enc);
        lemma_varint_value_of_bytes(len_val);
        assert(region.len() - enc.len() < len_val);
    }
}

/// Round trip of the `uint64` codec: in any buffer starting with the
/// encoding of `v`, a decoder consumes it exactly and yields `v`.
pub proof fn lemma_uint64_roundtrip(v: u64, t: Seq<u8>)
    ensures
        varint_parse_len(varint_bytes(v) + t) == Some(varint_bytes(v).len() as nat),
        varint_value((varint_bytes(v) + t).subrange(0, varint_bytes(v).len() as int)) == v,
{
    lemma_varint_roundtrip(v, t);
}

/// Round trip of the `int32` codec: sign-extension to 64 bits, then
/// truncation back, returns the original value.
pub proof fn lemma_int32_roundtrip(v: i32, t: Seq<u8>)
    ensures
        varint_parse_len(varint_bytes(v as u64) + t) == Some(varint_bytes(v as u64).len() as nat),
        varint_value(
            (varint_bytes(v as u64) + t).subrange(0, varint_bytes(v as u64).len() as int),
        ) as i32 == v,
{
    lemma_varint_roundtrip(v as u64, t);
    assert((v as u64) as i32 == v) by (bit_vector);
}

/// Round trip of the `int64` codec.
pub proof fn lemma_int64_roundtrip(v: i64, t: Seq<u8>)
    ensures
        varint_parse_len(varint_bytes(v as u64) + t) == Some(varint_bytes(v as u64).len() as nat),
        varint_value(
            (varint_bytes(v as u64) + t).subrange(0, varint_bytes(v as u64).len() as int),
        ) as i64 == v,
{
    lemma_varint_roundtrip(v as u64, t);
    assert((v as u64) as i64 == v) by (bit_vector);
}

/// Round trip of the `uint32` codec.
pub proof fn lemma_uint32_roundtrip(v: u32, t: Seq<u8>)
    ensures
        varint_parse_len(varint_bytes(v as u64) + t) == Some(varint_bytes(v as u64).len() as nat),
        varint_value(
            (varint_bytes(v as u64) + t).subrange(0, varint_bytes(v as u64).len() as int),
        ) as u32 == v,
{
    lemma_varint_roundtrip(v as u64, t);
    assert((v as u64) as u32 == v) by (bit_vector);
}

/// Round trip of the `sint32` codec: zigzag, varint, then both inverses.
pub proof fn lemma_sint32_roundtrip(v: i32, t: Seq<u8>)
    ensures
        varint_parse_len(varint_bytes(zigzag32(v) as u64) + t) == Some(
            varint_bytes(zigzag32(v) as u64).len() as nat,
        ),
        zigzag32_inv(
            varint_value(
                (varint_bytes(zigzag32(v) as u64) + t).subrange(
                    0,
                    varint_bytes(zigzag32(v) as u64).len() as int,
                ),
            ) as u32,
        ) == v,
{
    lemma_varint_roundtrip(zigzag32(v) as u64, t);
    lemma_zigzag32_roundtrip(v);
}

/// Round trip of the `sint64` codec: zigzag, varint, then both inverses.
pub proof fn lemma_sint64_roundtrip(v: i64, t: Seq<u8>)
    ensures
        varint_parse_len(varint_bytes(zigzag64(v)) + t) == Some(
            varint_bytes(zigzag64(v)).len() as nat,
        ),
        zigzag64_inv(
            varint_value(
                (varint_bytes(zigzag64(v)) + t).subrange(0, varint_bytes(zigzag64(v)).len() as int),
            ),
        ) == v,
{
    lemma_varint_roundtrip(zigzag64(v), t);
    lemma_zigzag64_roundtrip(v);
}

/// Round trip of the `bool` codec.
pub proof fn lemma_bool_roundtrip(v: bool, t: Seq<u8>)
    ensures
        ({
            let enc = varint_bytes((if v { 1u64 } else { 0u64 }));
            varint_parse_len(enc + t) == Some(enc.len() as nat) && ((varint_value(
                (enc + t).subrange(0, enc.len() as int),
            ) != 0) == v)
        }),
{
    lemma_varint_roundtrip((if v { 1u64 } else { 0u64 }), t);
}

proof fn lemma_pow_0x100_4()
    ensures
        pow(0x100, 4) == 0x1_0000_0000,
{
    reveal(pow);
    assert(pow(0x100, 0) == 1);
    assert(pow(0x100, 1) == 0x100 * pow(0x100, 0));
    assert(pow(0x100, 2) == 0x100 * pow(0x100, 1));
    assert(pow(0x100, 3) == 0x100 * pow(0x100, 2));
    assert(pow(0x100, 4) == 0x100 * pow(0x100, 3));
}

/// Round trip of the `fixed32` codec.
pub proof fn lemma_fixed32_roundtrip(v: u32)
    ensures
        le_bytes(v as int, 4).len() == 4,
        le_value(le_bytes(v as int, 4)) == v,
{
    reveal(pow);
    lemma_le_bytes_len(v as int, 4);
    lemma_pow_0x100_4();
    lemma_le_roundtrip(v as int, 4);
}

/// Round trip of the `fixed64` codec.
pub proof fn lemma_fixed64_roundtrip(v: u64)
    ensures
        le_bytes(v as int, 8).len() == 8,
        le_value(le_bytes(v as int, 8)) == v,
{
    reveal(pow);
    lemma_le_bytes_len(v as int, 8);
    lemma_pow_adds(0x100, 4, 4);
    lemma_pow_0x100_4();
    lemma_le_roundtrip(v as int, 8);
}

/// Round trip of the `sfixed32` codec: two's complement little endian.
pub proof fn lemma_sfixed32_roundtrip(v: i32)
    ensures
        le_bytes((v as u32) as int, 4).len() == 4,
        ((le_value(le_bytes((v as u32) as int, 4)) as u32) as i32) == v,
{
    lemma_fixed32_roundtrip(v as u32);
    assert((v as u32) as i32 == v) by (bit_vector);
}

/// Round trip of the `sfixed64` codec: two's complement little endian.
pub proof fn lemma_sfixed64_roundtrip(v: i64)
    ensures
        le_bytes((v as u64) as int, 8).len() == 8,
        ((le_value(le_bytes((v as u64) as int, 8)) as u64) as i64) == v,
{
    lemma_fixed64_roundtrip(v as u64);
    assert((v as u64) as i64 == v) by (bit_vector);
}

/// The number of bytes the varint encoding of `v` occupies.
pub fn sizeof_varint(v: u64) -> (r: usize)
    ensures
        r == varint_bytes(v).len(),
        1 <= r <= 10,
    decreases v,
{
    proof {
        lemma_varint_bytes_len(v);
    }
    if v < 0x80 {
        1
    } else {
        1 + sizeof_varint(v / 0x80)
    }
}

/// Applies the zigzag transform to a signed 32-bit value.
pub fn encode_zigzag32(v: i32) -> (r: u32)
    ensures
        r == zigzag32(v),
{
    if v >= 0 {
        (v as u32) * 2
    } else {
        ((-(v + 1)) as u32) * 2 + 1
    }
}

/// Applies the zigzag transform to a signed 64-bit value.
pub fn encode_zigzag64(v: i64) -> (r: u64)
    ensures
        r == zigzag64(v),
{
    if v >= 0 {
        (v as u64) * 2
    } else {
        ((-(v + 1)) as u64) * 2 + 1
    }
}

/// Undoes the zigzag transform on 32 bits.
pub fn decode_zigzag32(n: u32) -> (r: i32)
    ensures
        r == zigzag32_inv(n),
{
    if n % 2 == 0 {
        (n / 2) as i32
    } else {
        -(((n - 1) / 2) as i32) - 1
    }
}

/// Undoes the zigzag transform on 64 bits.
pub fn decode_zigzag64(n: u64) -> (r: i64)
    ensures
        r == zigzag64_inv(n),
{
    if n % 2 == 0 {
        (n / 2) as i64
    } else {
        -(((n - 1) / 2) as i64) - 1
    }
}

} // verus!
