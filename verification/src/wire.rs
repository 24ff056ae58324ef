//! Wire primitives shared by the framing codec: base-128 varints and
//! 32-bit big-endian lengths.

use vstd::prelude::*;

verus! {

/// 128 raised to `e`.
pub open spec fn pow128(e: nat) -> nat
    decreases e,
{
    if e == 0 {
        1
    } else {
        128 * pow128((e - 1) as nat)
    }
}

pub proof fn lemma_pow128_values()
    ensures
        pow128(8) == 0x100000000000000,
        pow128(9) == 0x8000000000000000,
{
    assert(pow128(0) == 1);
    assert(pow128(1) == 128);
    assert(pow128(2) == 0x4000);
    assert(pow128(3) == 0x200000);
    assert(pow128(4) == 0x10000000);
    assert(pow128(5) == 0x800000000);
    assert(pow128(6) == 0x40000000000);
    assert(pow128(7) == 0x2000000000000);
    assert(pow128(8) == 0x100000000000000);
    assert(pow128(9) == 0x8000000000000000);
}

pub proof fn lemma_pow128_increases(a: nat, b: nat)
    requires
        a <= b,
    ensures
        pow128(a) <= pow128(b),
    decreases b,
{
    if a < b {
        lemma_pow128_increases(a, (b - 1) as nat);
        assert(pow128(b) == 128 * pow128((b - 1) as nat));
    }
}

/// The base-128 varint encoding of `n`: seven value bits per byte, least
/// significant group first, the high bit set on every byte but the last.
pub open spec fn varint_bytes(n: nat) -> Seq<u8>
    decreases n,
{
    if n < 128 {
        seq![n as u8]
    } else {
        seq![(128 + n % 128) as u8] + varint_bytes(n / 128)
    }
}

pub proof fn lemma_varint_bytes_len(n: nat, k: nat)
    requires
        1 <= k,
        n < pow128(k),
    ensures
        1 <= varint_bytes(n).len() <= k,
    decreases n,
{
    if n >= 128 {
        assert(pow128(k) == 128 * pow128((k - 1) as nat));
        assert(n / 128 < pow128((k - 1) as nat)) by (nonlinear_arith)
            requires
                n < 128 * pow128((k - 1) as nat),
        {}
        lemma_varint_bytes_len(n / 128, (k - 1) as nat);
    }
}

/// Parses a varint at offset `i` of `s`, reading at most `fuel` bytes.
/// With ten bytes allowed, the tenth byte of a maximal encoding may only
/// be 0 or 1, so every accepted value fits in 64 bits.
pub open spec fn parse_varint(s: Seq<u8>, i: int, fuel: nat) -> Option<(nat, int)>
    decreases fuel,
{
    if fuel == 0 || i < 0 || i >= s.len() {
        None
    } else if s[i] < 128 {
        if fuel == 1 && s[i] > 1 {
            None
        } else {
            Some((s[i] as nat, i + 1))
        }
    } else if fuel == 1 {
        None
    } else {
        match parse_varint(s, i + 1, (fuel - 1) as nat) {
            None => None,
            Some((v, j)) => Some((((s[i] - 128) as nat + 128 * v), j)),
        }
    }
}

pub proof fn lemma_parse_varint_bound(s: Seq<u8>, i: int, fuel: nat)
    requires
        parse_varint(s, i, fuel) is Some,
    ensures
        parse_varint(s, i, fuel)->Some_0.0 < 2 * pow128((fuel - 1) as nat),
    decreases fuel,
{
    if s[i] < 128 {
        if fuel == 1 {
            assert(pow128(0) == 1);
        } else {
            assert(pow128(0) == 1);
            assert(pow128(1) == 128);
            lemma_pow128_increases(1, (fuel - 1) as nat);
        }
    } else {
        lemma_parse_varint_bound(s, i + 1, (fuel - 1) as nat);
        let v = parse_varint(s, i + 1, (fuel - 1) as nat)->Some_0.0 as int;
        let p1 = pow128((fuel - 1) as nat) as int;
        let p2 = pow128((fuel - 2) as nat) as int;
        let c = s[i] as int;
        assert(p1 == 128 * p2);
        assert(c - 128 + 128 * v < 2 * p1) by (nonlinear_arith)
            requires
                128 <= c < 256,
                0 <= v < 2 * p2,
                p1 == 128 * p2,
        {}
    }
}

/// Parsing reads back exactly what the encoder wrote, and stops exactly
/// at its end, whatever bytes follow.
pub proof fn lemma_varint_roundtrip(s: Seq<u8>, i: int, n: nat, fuel: nat)
    requires
        1 <= fuel,
        n < 2 * pow128((fuel - 1) as nat),
        0 <= i,
        i + varint_bytes(n).len() <= s.len(),
        s.subrange(i, i + varint_bytes(n).len()) == varint_bytes(n),
    ensures
        parse_varint(s, i, fuel) == Some((n, i + varint_bytes(n).len())),
    decreases n,
{
    let enc = varint_bytes(n);
    assert forall|k: int| 0 <= k < enc.len() implies s[i + k] == #[trigger] enc[k] by {
        assert(s.subrange(i, i + enc.len() as int)[k] == enc[k]);
    }
    assert(s[i] == enc[0]);
    if n < 128 {
        assert(enc =~= seq![n as u8]);
        if fuel == 1 {
            assert(n <= 1);
        }
    } else {
        assert(s[i] == (128 + n % 128) as u8);
        assert(s[i] >= 128);
        if fuel == 1 {
            assert(n < 2 * pow128(0));
            assert(false);
        }
        let rest = varint_bytes(n / 128);
        assert(enc =~= seq![(128 + n % 128) as u8] + rest);
        assert(forall|k: int| 0 <= k < rest.len() ==> #[trigger] rest[k] == enc[k + 1]);
        assert(s.subrange(i + 1, i + 1 + rest.len()) =~= rest);
        let p1 = pow128((fuel - 1) as nat) as int;
        let p2 = pow128((fuel - 2) as nat) as int;
        assert(p1 == 128 * p2);
        assert(n / 128 < 2 * pow128((fuel - 2) as nat)) by (nonlinear_arith)
            requires
                n < 2 * p1,
                p1 == 128 * p2,
                p2 == pow128((fuel - 2) as nat),
        {}
        lemma_varint_roundtrip(s, i + 1, n / 128, (fuel - 1) as nat);
        assert((s[i] - 128) as nat + 128 * (n / 128) == n);
    }
}

/// Encodes `n` as a base-128 varint.
pub fn encode_varint(n: u64) -> (r: Vec<u8>)
    ensures
        r@ == varint_bytes(n as nat),
    decreases n,
{
    if n < 128 {
        let mut v: Vec<u8> = Vec::new();
        v.push(n as u8);
        proof {
            assert(v@ =~= varint_bytes(n as nat));
        }
        v
    } else {
        let mut v: Vec<u8> = Vec::new();
        v.push((n % 128 + 128) as u8);
        let mut rest = encode_varint(n / 128);
        v.append(&mut rest);
        proof {
            assert(v@ =~= varint_bytes(n as nat));
        }
        v
    }
}

/// Reads a varint at offset `i`, taking at most `fuel` (at most ten)
/// bytes; `None` on truncation, over-long input, or 64-bit overflow.
pub fn read_varint(s: &[u8], i: usize, fuel: usize) -> (r: Option<(u64, usize)>)
    requires
        i <= s@.len(),
        fuel <= 10,
    ensures
        match r {
            Some((v, j)) => {
                &&& parse_varint(s@, i as int, fuel as nat) == Some((v as nat, j as int))
                &&& i < j <= s@.len()
            },
            None => parse_varint(s@, i as int, fuel as nat) is None,
        },
    decreases fuel,
{
    if fuel == 0 || i >= s.len() {
        return None;
    }
    let b = s[i];
    if b < 128 {
        if fuel == 1 && b > 1 {
            None
        } else {
            Some((b as u64, i + 1))
        }
    } else if fuel == 1 {
        None
    } else {
        match read_varint(s, i + 1, fuel - 1) {
            None => None,
            Some((v, j)) => {
                proof {
                    lemma_parse_varint_bound(s@, i + 1 as int, (fuel - 1) as nat);
                    lemma_pow128_increases((fuel - 2) as nat, 8);
                    lemma_pow128_values();
                }
                let value = (b - 128) as u64 + 128 * v;
                Some((value, j))
            },
        }
    }
}

/// The four-byte big-endian encoding of `n`.
pub open spec fn be32_bytes(n: u32) -> Seq<u8> {
    seq![
        (n / 0x1000000) as u8,
        ((n / 0x10000) % 256) as u8,
        ((n / 256) % 256) as u8,
        (n % 256) as u8,
    ]
}

/// The value of four big-endian bytes.
pub open spec fn be32_value(b0: u8, b1: u8, b2: u8, b3: u8) -> nat {
    (b0 * 0x1000000 + b1 * 0x10000 + b2 * 256 + b3) as nat
}

pub proof fn lemma_be32_roundtrip(n: u32)
    ensures
        be32_value(be32_bytes(n)[0], be32_bytes(n)[1], be32_bytes(n)[2], be32_bytes(n)[3])
            == n,
{
    let m = n as int;
    let q1 = m / 256;
    let q2 = q1 / 256;
    let q3 = q2 / 256;
    vstd::arithmetic::div_mod::lemma_fundamental_div_mod(m, 256);
    vstd::arithmetic::div_mod::lemma_fundamental_div_mod(q1, 256);
    vstd::arithmetic::div_mod::lemma_fundamental_div_mod(q2, 256);
    vstd::arithmetic::div_mod::lemma_div_denominator(m, 256, 256);
    vstd::arithmetic::div_mod::lemma_div_denominator(m, 0x10000, 256);
    vstd::arithmetic::div_mod::lemma_div_denominator(q1, 256, 256);
    assert(q2 == m / 0x10000);
    assert(q3 == m / 0x1000000);
    assert(q3 < 256);
    assert(m == 0x1000000 * q3 + 0x10000 * (q2 % 256) + 256 * (q1 % 256) + m % 256);
}

/// Encodes `n` as four big-endian bytes.
pub fn encode_be32(n: u32) -> (r: Vec<u8>)
    ensures
        r@ == be32_bytes(n),
{
    let mut v: Vec<u8> = Vec::new();
    v.push((n / 0x1000000) as u8);
    v.push(((n / 0x10000) % 256) as u8);
    v.push(((n / 256) % 256) as u8);
    v.push((n % 256) as u8);
    proof {
        assert(v@ =~= be32_bytes(n));
    }
    v
}

/// Reads the four big-endian bytes at offset `i` as a value.
pub fn read_be32(s: &[u8], i: usize) -> (r: u32)
    requires
        i + 4 <= s@.len(),
    ensures
        r == be32_value(s@[i as int], s@[i as int + 1], s@[i as int + 2], s@[i as int + 3]),
{
    let b0 = s[i] as u32;
    let b1 = s[i + 1] as u32;
    let b2 = s[i + 2] as u32;
    let b3 = s[i + 3] as u32;
    b0 * 0x1000000 + b1 * 0x10000 + b2 * 256 + b3
}

} // verus!
