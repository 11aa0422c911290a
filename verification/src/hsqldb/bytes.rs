//! Big-endian two's-complement integers over byte sequences.
use vstd::prelude::*;

verus! {

/// `256` raised to `n`.
pub open spec fn pow256(n: nat) -> nat
    decreases n,
{
    if n == 0 {
        1
    } else {
        256 * pow256((n - 1) as nat)
    }
}

/// The unsigned value of big-endian bytes.
pub open spec fn be_unsigned(b: Seq<u8>) -> nat
    decreases b.len(),
{
    if b.len() == 0 {
        0
    } else {
        be_unsigned(b.drop_last()) * 256 + (b.last() as nat)
    }
}

/// The two's-complement value of big-endian bytes (empty bytes are zero).
pub open spec fn be_signed(b: Seq<u8>) -> int {
    if b.len() > 0 && b[0] >= 128 {
        be_unsigned(b) - pow256(b.len())
    } else {
        be_unsigned(b) as int
    }
}

/// The `n`-byte big-endian two's-complement bytes of `v` (taken modulo `256^n`).
pub open spec fn be_bytes(v: int, n: nat) -> Seq<u8>
    decreases n,
{
    if n == 0 {
        Seq::empty()
    } else {
        be_bytes(v / 256, (n - 1) as nat).push((v % 256) as u8)
    }
}

/// Whether `b` is a shortest two's-complement spelling: one byte, or a first
/// byte that is not a mere sign extension of the second.
pub open spec fn is_minimal_twos(b: Seq<u8>) -> bool {
    b.len() == 1 || (b.len() > 1 && !(b[0] == 0 && b[1] < 128) && !(b[0] == 255 && b[1] >= 128))
}

/// Whether the leading byte of `b` only repeats the sign of the next byte.
pub open spec fn redundant_lead(b: Seq<u8>) -> bool {
    b.len() > 1 && ((b[0] == 0 && b[1] < 128) || (b[0] == 255 && b[1] >= 128))
}

/// Whether `x` fits in an `i64`.
pub open spec fn fits_i64(x: int) -> bool {
    i64::MIN <= x <= i64::MAX
}

pub proof fn lemma_pow256_pos(n: nat)
    ensures
        pow256(n) >= 1,
        n >= 1 ==> pow256(n) >= 256,
    decreases n,
{
    if n > 0 {
        lemma_pow256_pos((n - 1) as nat);
    }
}

pub proof fn lemma_pow256_mono(a: nat, b: nat)
    requires
        a <= b,
    ensures
        pow256(a) <= pow256(b),
    decreases b,
{
    if a < b {
        lemma_pow256_mono(a, (b - 1) as nat);
        lemma_pow256_pos((b - 1) as nat);
    }
}

pub proof fn lemma_pow256_values()
    ensures
        pow256(1) == 256,
        pow256(2) == 0x1_0000,
        pow256(3) == 0x100_0000,
        pow256(4) == 0x1_0000_0000,
        pow256(7) == 0x100_0000_0000_0000,
        pow256(8) == 0x1_0000_0000_0000_0000,
{
    reveal_with_fuel(pow256, 9);
}

/// Big-endian bytes are below `256^len`.
pub proof fn lemma_be_unsigned_bound(b: Seq<u8>)
    ensures
        be_unsigned(b) < pow256(b.len()),
    decreases b.len(),
{
    if b.len() > 0 {
        lemma_be_unsigned_bound(b.drop_last());
        let u = be_unsigned(b.drop_last());
        let p = pow256((b.len() - 1) as nat);
        assert(u * 256 + b.last() < p * 256) by (nonlinear_arith)
            requires
                u < p,
                b.last() < 256,
        ;
    }
}

/// The value of `x` followed by `b` is `x * 256^len(b)` plus the value of `b`.
pub proof fn lemma_be_unsigned_cons(x: u8, b: Seq<u8>)
    ensures
        be_unsigned(seq![x] + b) == x * pow256(b.len()) + be_unsigned(b),
    decreases b.len(),
{
    if b.len() == 0 {
        assert(seq![x] + b =~= seq![x]);
        assert(seq![x].drop_last() =~= Seq::<u8>::empty());
        assert(be_unsigned(Seq::<u8>::empty()) == 0);
        assert(pow256(0) == 1);
        assert(be_unsigned(seq![x]) == x);
    } else {
        lemma_be_unsigned_cons(x, b.drop_last());
        assert((seq![x] + b).drop_last() =~= seq![x] + b.drop_last());
        let p = pow256((b.len() - 1) as nat);
        let u = be_unsigned(b.drop_last());
        assert((x * p + u) * 256 + b.last() == x * (256 * p) + (u * 256 + b.last())) by (nonlinear_arith);
        assert(pow256(b.len()) == 256 * p);
        assert((seq![x] + b).last() == b.last());
        assert(be_unsigned(b) == u * 256 + b.last());
    }
}

/// Splitting off the first byte.
pub proof fn lemma_be_unsigned_first(b: Seq<u8>)
    requires
        b.len() >= 1,
    ensures
        be_unsigned(b) == b[0] * pow256((b.len() - 1) as nat) + be_unsigned(b.skip(1)),
{
    assert(b =~= seq![b[0]] + b.skip(1));
    lemma_be_unsigned_cons(b[0], b.skip(1));
}

/// The first byte carries the sign.
pub proof fn lemma_sign_byte(b: Seq<u8>)
    requires
        b.len() >= 1,
    ensures
        b[0] >= 128 <==> be_unsigned(b) >= 128 * pow256((b.len() - 1) as nat),
        be_signed(b) >= 0 <==> b[0] < 128,
        -(pow256(b.len()) / 2) <= be_signed(b) < pow256(b.len()) / 2,
        pow256(b.len()) == 256 * pow256((b.len() - 1) as nat),
{
    lemma_be_unsigned_first(b);
    lemma_be_unsigned_bound(b.skip(1));
    let p = pow256((b.len() - 1) as nat);
    let r = be_unsigned(b.skip(1));
    let x = b[0];
    assert(pow256(b.len()) == 256 * p);
    assert(pow256(b.len()) / 2 == 128 * p);
    assert(x >= 128 ==> x * p + r >= 128 * p) by (nonlinear_arith)
        requires
            r >= 0,
            p >= 0,
    ;
    assert(x < 128 ==> x * p + r < 128 * p) by (nonlinear_arith)
        requires
            r < p,
            x >= 0,
    ;
    assert(x * p + r < 256 * p) by (nonlinear_arith)
        requires
            r < p,
            x < 256,
    ;
}

/// Dropping a redundant leading byte keeps the value.
pub proof fn lemma_strip_lead(b: Seq<u8>)
    requires
        redundant_lead(b),
    ensures
        be_signed(b.skip(1)) == be_signed(b),
        b.skip(1).len() >= 1,
        (b.skip(1)[0] >= 128) == (b[0] >= 128),
{
    lemma_be_unsigned_first(b);
    let p = pow256((b.len() - 1) as nat);
    assert(pow256(b.len()) == 256 * p);
    assert(b.skip(1)[0] == b[1]);
    if b[0] == 255 {
        assert(255 * p + be_unsigned(b.skip(1)) - 256 * p == be_unsigned(b.skip(1)) - p) by (
        nonlinear_arith);
    }
}

/// Nine or more bytes whose lead byte is not redundant spell a value outside `i64`.
pub proof fn lemma_wide_lead_overflows(b: Seq<u8>)
    requires
        b.len() >= 9,
        !redundant_lead(b),
    ensures
        !fits_i64(be_signed(b)),
{
    lemma_be_unsigned_first(b);
    let t = b.skip(1);
    lemma_be_unsigned_first(t);
    lemma_be_unsigned_bound(t.skip(1));
    let p = pow256((b.len() - 1) as nat);
    let q = pow256((t.len() - 1) as nat);
    lemma_pow256_mono(7, (t.len() - 1) as nat);
    lemma_pow256_values();
    assert(p == 256 * q);
    assert(pow256(b.len()) == 256 * p);
    let x = b[0];
    let y = t[0];
    assert(y == b[1]);
    let r = be_unsigned(t.skip(1));
    assert(be_unsigned(t) == y * q + r);
    assert(be_unsigned(b) == x * p + y * q + r);
    assert(q >= 0x100_0000_0000_0000);
    if x < 128 {
        if x != 0 {
            assert(x * p + y * q + r >= 256 * q) by (nonlinear_arith)
                requires
                    x >= 1,
                    p == 256 * q,
                    y >= 0,
                    q >= 0,
                    r >= 0,
            ;
        } else {
            assert(y >= 128);
            assert(x * p + y * q + r >= 128 * q) by (nonlinear_arith)
                requires
                    x == 0,
                    y >= 128,
                    q >= 0,
                    r >= 0,
            ;
        }
    } else {
        if x != 255 {
            assert(x * p + y * q + r - 256 * p < -(128 * q)) by (nonlinear_arith)
                requires
                    x <= 254,
                    p == 256 * q,
                    y < 256,
                    r < q,
                    q >= 1,
            ;
        } else {
            assert(y < 128);
            assert(x * p + y * q + r - 256 * p < -(128 * q)) by (nonlinear_arith)
                requires
                    x == 255,
                    p == 256 * q,
                    y <= 127,
                    r < q,
            ;
        }
    }
}

/// Two's-complement bytes read back as the value they encode.
pub proof fn lemma_be_bytes_unsigned(v: int, n: nat)
    ensures
        be_bytes(v, n).len() == n,
        be_unsigned(be_bytes(v, n)) == v % (pow256(n) as int),
    decreases n,
{
    if n > 0 {
        let q = v / 256;
        let r = v % 256;
        lemma_be_bytes_unsigned(q, (n - 1) as nat);
        let p = pow256((n - 1) as nat) as int;
        lemma_pow256_pos((n - 1) as nat);
        let b = be_bytes(v, n);
        assert(b == be_bytes(q, (n - 1) as nat).push((v % 256) as u8));
        assert(b.drop_last() =~= be_bytes(q, (n - 1) as nat));
        assert(b.last() == r as u8);
        assert(0 <= r < 256);
        vstd::arithmetic::div_mod::lemma_fundamental_div_mod(v, 256);
        assert(v == q * 256 + r);
        assert(((q % p) * 256 + r) == v % (p * 256)) by (nonlinear_arith)
            requires
                p >= 1,
                v == q * 256 + r,
                0 <= r < 256,
        {
            let qq = q / p;
            let qr = q % p;
            assert(q == qq * p + qr);
            assert(v == qq * (p * 256) + (qr * 256 + r));
            assert(0 <= qr * 256 + r < p * 256);
            vstd::arithmetic::div_mod::lemma_fundamental_div_mod_converse(
                v,
                p * 256,
                qq,
                qr * 256 + r,
            );
        }
        assert(pow256(n) == 256 * pow256((n - 1) as nat));
        assert(p * 256 == pow256(n) as int);
    }
}

/// Bytes of a value that fits read back as the same value.
pub proof fn lemma_be_bytes_signed(v: int, n: nat)
    requires
        n >= 1,
        -(pow256(n) / 2) <= v < pow256(n) / 2,
    ensures
        be_bytes(v, n).len() == n,
        be_signed(be_bytes(v, n)) == v,
{
    lemma_be_bytes_unsigned(v, n);
    let b = be_bytes(v, n);
    lemma_sign_byte(b);
    let m = pow256(n) as int;
    if v >= 0 {
        assert(v % m == v) by {
            vstd::arithmetic::div_mod::lemma_small_mod(v as nat, m as nat);
        }
    } else {
        assert(v % m == v + m) by {
            vstd::arithmetic::div_mod::lemma_fundamental_div_mod_converse(v, m, -1, v + m);
        }
    }
}

} // verus!
