//! The protocol's variable-length integer: a 32-bit value written as one to
//! five bytes of seven data bits each, least significant group first, with
//! the high bit of a byte set when another byte follows.
use vstd::prelude::*;

verus! {

/// The longest encoding of a 32-bit value.
pub const MAX_VAR_INT_LEN: usize = 5;

/// What reading a VarInt from the front of a byte sequence gives.
#[derive(Debug, Clone, Copy, PartialEq, Eq, Structural)]
pub enum VarIntRead {
    /// The value and the number of bytes that it took.
    Value { value: i32, len: usize },
    /// The bytes end before a byte without the continuation bit.
    Truncated,
    /// The first five bytes all carry the continuation bit.
    Overlong,
}

/// The bytes of `u`, seven bits at a time.
pub open spec fn var_int_bytes_of(u: u32) -> Seq<u8>
    decreases u,
{
    if u < 128 {
        seq![u as u8]
    } else {
        seq![(u % 128 + 128) as u8] + var_int_bytes_of(u / 128)
    }
}

/// The encoding of `v`: its 32 bits read as an unsigned value.
pub open spec fn var_int_bytes(v: i32) -> Seq<u8> {
    var_int_bytes_of(v as u32)
}

/// `128` to the power `k`.
pub open spec fn weight(k: nat) -> nat
    decreases k,
{
    if k == 0 {
        1
    } else {
        128 * weight((k - 1) as nat)
    }
}

/// The sum of the seven-bit groups of the first `n` bytes of `b`.
pub open spec fn group_sum(b: Seq<u8>, n: nat) -> nat
    decreases n,
{
    if n == 0 {
        0
    } else {
        group_sum(b, (n - 1) as nat) + (b[n - 1] % 128) as nat * weight((n - 1) as nat)
    }
}

/// The low 32 bits of `x`, as a signed value.
pub open spec fn low_bits(x: nat) -> i32 {
    (x % 0x1_0000_0000) as u32 as i32
}

/// Reading on from byte `k` of `b`, all bytes before it carrying the
/// continuation bit.
pub open spec fn scan_var_int(b: Seq<u8>, k: nat) -> VarIntRead
    decreases 5 - k,
{
    if k >= 5 {
        VarIntRead::Overlong
    } else if k >= b.len() {
        VarIntRead::Truncated
    } else if b[k as int] < 128 {
        VarIntRead::Value { value: low_bits(group_sum(b, k + 1)), len: (k + 1) as usize }
    } else {
        scan_var_int(b, k + 1)
    }
}

/// What the VarInt at the front of `b` reads as.
pub open spec fn read_var_int_spec(b: Seq<u8>) -> VarIntRead {
    scan_var_int(b, 0)
}

proof fn lemma_group_sum_prepend(x: u8, rest: Seq<u8>, n: nat)
    requires
        n <= rest.len(),
    ensures
        group_sum(seq![x] + rest, n + 1) == (x % 128) as nat + 128 * group_sum(rest, n),
    decreases n,
{
    let b = seq![x] + rest;
    if n == 0 {
        assert(b[0] == x);
        assert(group_sum(b, 1) == group_sum(b, 0) + (b[0] % 128) as nat * weight(0));
        assert(group_sum(b, 0) == 0);
        assert(weight(0) == 1);
        assert(group_sum(rest, 0) == 0);
        let c = (b[0] % 128) as nat;
        assert(c * weight(0) == c) by (nonlinear_arith)
            requires
                weight(0) == 1,
        ;
        assert(group_sum(b, 1) == (x % 128) as nat);
    } else {
        let m = (n - 1) as nat;
        lemma_group_sum_prepend(x, rest, m);
        let c = (rest[m as int] % 128) as nat;
        let g = group_sum(rest, m);
        let w = weight(m);
        assert(b[n as int] == rest[m as int]);
        assert(weight(n) == 128 * w);
        assert(group_sum(b, n + 1) == group_sum(b, n) + c * weight(n));
        assert(group_sum(rest, n) == g + c * w);
        assert(c * (128 * w) == 128 * (c * w)) by (nonlinear_arith);
        assert(128 * (g + c * w) == 128 * g + 128 * (c * w)) by (nonlinear_arith);
        assert(group_sum(b, n) == (x % 128) as nat + 128 * g);
        assert(group_sum(b, n + 1) == (x % 128) as nat + 128 * g + 128 * (c * w));
    }
}

proof fn lemma_group_sum_prefix(b: Seq<u8>, c: Seq<u8>, n: nat)
    requires
        n <= b.len(),
        n <= c.len(),
        b.subrange(0, n as int) == c.subrange(0, n as int),
    ensures
        group_sum(b, n) == group_sum(c, n),
    decreases n,
{
    if n > 0 {
        assert(b[n - 1] == b.subrange(0, n as int)[n - 1]);
        assert(c[n - 1] == c.subrange(0, n as int)[n - 1]);
        assert(b.subrange(0, n - 1) == b.subrange(0, n as int).subrange(0, n - 1));
        assert(c.subrange(0, n - 1) == c.subrange(0, n as int).subrange(0, n - 1));
        lemma_group_sum_prefix(b, c, (n - 1) as nat);
    }
}

/// The shape of an encoding: all bytes but the last carry the continuation
/// bit, and the groups sum to the value.
proof fn lemma_var_int_bytes_shape(u: u32)
    ensures
        1 <= var_int_bytes_of(u).len() <= 5,
        u < 128 ==> var_int_bytes_of(u).len() == 1,
        u < 0x4000 ==> var_int_bytes_of(u).len() <= 2,
        u < 0x20_0000 ==> var_int_bytes_of(u).len() <= 3,
        u < 0x1000_0000 ==> var_int_bytes_of(u).len() <= 4,
        forall|i: int|
            0 <= i < var_int_bytes_of(u).len() - 1 ==> var_int_bytes_of(u)[i] >= 128,
        var_int_bytes_of(u)[var_int_bytes_of(u).len() - 1] < 128,
        group_sum(var_int_bytes_of(u), var_int_bytes_of(u).len()) == u,
    decreases u,
{
    let e = var_int_bytes_of(u);
    if u < 128 {
        assert(group_sum(e, 1) == group_sum(e, 0) + (e[0] % 128) as nat * weight(0));
        let c = (e[0] % 128) as nat;
        assert(c * weight(0) == c) by (nonlinear_arith)
            requires
                weight(0) == 1,
        ;
    } else {
        let r = u / 128;
        lemma_var_int_bytes_shape(r);
        let rest = var_int_bytes_of(r);
        let x = (u % 128 + 128) as u8;
        assert(e == seq![x] + rest);
        lemma_group_sum_prepend(x, rest, rest.len());
        assert(e.len() == rest.len() + 1);
        assert forall|i: int| 0 <= i < e.len() - 1 implies e[i] >= 128 by {
            if i > 0 {
                assert(e[i] == rest[i - 1]);
            }
        }
        assert(e[e.len() - 1] == rest[rest.len() - 1]);
        assert(x % 128 == u % 128);
        assert(group_sum(e, e.len()) == (u % 128) as nat + 128 * (r as nat));
    }
}

/// Scanning an encoding reaches its last byte and reads the groups it holds.
proof fn lemma_scan_encoding(b: Seq<u8>, e: Seq<u8>, k: nat)
    requires
        1 <= e.len() <= 5,
        e.len() <= b.len(),
        b.subrange(0, e.len() as int) == e,
        k < e.len(),
        forall|i: int| 0 <= i < e.len() - 1 ==> e[i] >= 128,
        e[e.len() - 1] < 128,
    ensures
        scan_var_int(b, k) == (VarIntRead::Value {
            value: low_bits(group_sum(b, e.len())),
            len: e.len() as usize,
        }),
    decreases e.len() - k,
{
    assert(b[k as int] == e[k as int]);
    if k + 1 < e.len() {
        lemma_scan_encoding(b, e, k + 1);
    }
}

/// Every `i32` comes back from its encoding, which is at most five bytes long
/// and is read whole, whatever follows it.
pub proof fn lemma_var_int_round_trip(v: i32, rest: Seq<u8>)
    ensures
        1 <= var_int_bytes(v).len() <= 5,
        read_var_int_spec(var_int_bytes(v) + rest) == (VarIntRead::Value {
            value: v,
            len: var_int_bytes(v).len() as usize,
        }),
{
    let u = v as u32;
    let e = var_int_bytes_of(u);
    let b = e + rest;
    lemma_var_int_bytes_shape(u);
    assert(b.subrange(0, e.len() as int) == e);
    lemma_scan_encoding(b, e, 0);
    assert(e.subrange(0, e.len() as int) == e);
    lemma_group_sum_prefix(b, e, e.len());
    assert((u as nat) % 0x1_0000_0000 == u as nat);
    assert((v as u32) as i32 == v) by (bit_vector);
}

proof fn lemma_scan_cut(b: Seq<u8>, j: nat)
    requires
        j <= b.len() < 5,
        forall|i: int| 0 <= i < b.len() ==> b[i] >= 128,
    ensures
        scan_var_int(b, j) == VarIntRead::Truncated,
    decreases b.len() - j,
{
    if j < b.len() {
        lemma_scan_cut(b, j + 1);
    }
}

/// A VarInt cut short reads as truncated.
pub proof fn lemma_var_int_cut(v: i32, b: Seq<u8>)
    requires
        b.len() < var_int_bytes(v).len(),
        b == var_int_bytes(v).subrange(0, b.len() as int),
    ensures
        read_var_int_spec(b) == VarIntRead::Truncated,
{
    let e = var_int_bytes(v);
    lemma_var_int_bytes_shape(v as u32);
    assert forall|i: int| 0 <= i < b.len() implies b[i] >= 128 by {
        assert(b[i] == e[i]);
    }
    lemma_scan_cut(b, 0);
}

/// Writes the encoding of `v` at the end of `out`.
pub fn write_var_int(out: &mut Vec<u8>, v: i32)
    ensures
        final(out)@ == old(out)@ + var_int_bytes(v),
{
    let mut u: u32 = v as u32;
    let ghost start = out@;
    while u >= 128
        invariant
            start + var_int_bytes(v) == out@ + var_int_bytes_of(u),
        decreases u,
    {
        let ghost before = out@;
        out.push((u % 128 + 128) as u8);
        assert(before + var_int_bytes_of(u) == out@ + var_int_bytes_of(u / 128));
        u = u / 128;
    }
    out.push(u as u8);
    assert(start + var_int_bytes(v) == out@);
}

/// The encoding of `v`.
pub fn encode_var_int(v: i32) -> (r: Vec<u8>)
    ensures
        r@ == var_int_bytes(v),
        1 <= r@.len() <= MAX_VAR_INT_LEN,
{
    let mut out: Vec<u8> = Vec::new();
    write_var_int(&mut out, v);
    proof {
        assert(out@ == var_int_bytes(v));
        lemma_var_int_round_trip(v, seq![]);
    }
    out
}

proof fn lemma_weight_bound(k: nat)
    requires
        k <= 4,
    ensures
        weight(k) <= 0x1000_0000,
{
    reveal_with_fuel(weight, 5);
    if k == 0 {
    } else if k == 1 {
    } else if k == 2 {
    } else if k == 3 {
    } else {
        assert(k == 4);
    }
}

/// Reads the VarInt that starts at `pos` in `data`, without reading before
/// `pos` or past the end.
pub fn read_var_int_at(data: &[u8], pos: usize) -> (r: VarIntRead)
    requires
        pos <= data@.len(),
    ensures
        r == read_var_int_spec(data@.subrange(pos as int, data@.len() as int)),
        r matches VarIntRead::Value { len, .. } ==> 1 <= len <= 5 && pos + len <= data@.len(),
{
    let ghost b = data@.subrange(pos as int, data@.len() as int);
    let mut k: usize = 0;
    let mut acc: u64 = 0;
    let mut w: u64 = 1;
    loop
        invariant
            k < 5,
            pos <= data@.len(),
            b == data@.subrange(pos as int, data@.len() as int),
            scan_var_int(b, 0) == scan_var_int(b, k as nat),
            acc == group_sum(b, k as nat),
            w == weight(k as nat),
            acc < w,
            w <= 0x1000_0000,
        decreases 5 - k,
    {
        if k >= data.len() - pos {
            return VarIntRead::Truncated;
        }
        let byte = data[pos + k];
        assert(b[k as int] == byte);
        proof {
            assert(group_sum(b, (k + 1) as nat) == acc + (byte % 128) as nat * w);
            assert((byte % 128) as nat * w <= 127 * w) by (nonlinear_arith)
                requires
                    byte % 128 <= 127,
            ;
            assert(weight((k + 1) as nat) == 128 * w);
        }
        acc = acc + (byte % 128) as u64 * w;
        if byte < 128 {
            let value = #[verifier::truncate] ((acc % 0x1_0000_0000) as u32 as i32);
            return VarIntRead::Value { value, len: k + 1 };
        }
        if k == 4 {
            assert(scan_var_int(b, 4) == scan_var_int(b, 5));
            return VarIntRead::Overlong;
        }
        proof {
            lemma_weight_bound((k + 1) as nat);
        }
        w = w * 128;
        k = k + 1;
    }
}

} // verus!
