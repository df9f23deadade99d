//! Big-endian numbers: the byte sequences that stand for them and the numbers
//! that byte sequences stand for.
use vstd::arithmetic::div_mod::{lemma_fundamental_div_mod, lemma_fundamental_div_mod_converse};
use vstd::prelude::*;

verus! {

/// 256 to the power `n`: how many values `n` bytes can hold.
pub open spec fn pow256(n: nat) -> int
    decreases n,
{
    if n == 0 {
        1
    } else {
        256 * pow256((n - 1) as nat)
    }
}

/// The low `n` bytes of `v`, most significant byte first. A negative `v` comes
/// out in two's complement.
pub open spec fn be_bytes(v: int, n: nat) -> Seq<u8> {
    Seq::new(n, |i: int| ((v / pow256((n - 1 - i) as nat)) % 256) as u8)
}

/// The unsigned number that `s` holds, most significant byte first.
pub open spec fn be_uint(s: Seq<u8>) -> int
    decreases s.len(),
{
    if s.len() == 0 {
        0
    } else {
        256 * be_uint(s.drop_last()) + s.last()
    }
}

/// The two's complement number that `s` holds, most significant byte first.
pub open spec fn be_int(s: Seq<u8>) -> int {
    if s.len() > 0 && s[0] >= 0x80 {
        be_uint(s) - pow256(s.len())
    } else {
        be_uint(s)
    }
}

/// The widths that occur on the wire.
pub proof fn lemma_pow256_values()
    ensures
        pow256(0) == 1,
        pow256(1) == 0x100,
        pow256(2) == 0x1_0000,
        pow256(4) == 0x1_0000_0000,
        pow256(8) == 0x1_0000_0000_0000_0000,
{
    reveal_with_fuel(pow256, 9);
}

/// The last byte is the remainder by 256; the bytes before it are those of the
/// quotient.
pub proof fn lemma_be_bytes_step(v: int, n: nat)
    requires
        n > 0,
    ensures
        be_bytes(v, n) == be_bytes(v / 256, (n - 1) as nat).push((v % 256) as u8),
{
    let l = be_bytes(v, n);
    let r = be_bytes(v / 256, (n - 1) as nat).push((v % 256) as u8);
    assert forall|i: int| 0 <= i < n implies l[i] == r[i] by {
        if i < n - 1 {
            let p = pow256((n - 2 - i) as nat);
            lemma_pow256_positive((n - 2 - i) as nat);
            lemma_div_twice(v, p);
        }
    }
    assert(l =~= r);
}

/// Dividing by 256 and then by `p` is dividing by their product.
proof fn lemma_div_twice(v: int, p: int)
    requires
        p > 0,
    ensures
        v / (256 * p) == (v / 256) / p,
{
    let q = (v / 256) / p;
    let r = (v / 256) % p;
    lemma_fundamental_div_mod(v / 256, p);
    assert(v == q * (256 * p) + (256 * r + v % 256)) by (nonlinear_arith)
        requires
            v / 256 == p * q + r,
    ;
    lemma_fundamental_div_mod_converse(v, 256 * p, q, 256 * r + v % 256);
}

pub proof fn lemma_pow256_positive(n: nat)
    ensures
        pow256(n) > 0,
    decreases n,
{
    if n > 0 {
        lemma_pow256_positive((n - 1) as nat);
    }
}

/// `n` bytes hold a number below 256 to the power `n`.
pub proof fn lemma_be_uint_bound(s: Seq<u8>)
    ensures
        0 <= be_uint(s) < pow256(s.len()),
    decreases s.len(),
{
    if s.len() > 0 {
        lemma_be_uint_bound(s.drop_last());
    }
}

/// Adding a multiple of 256 to the power `n` leaves the low `n` bytes alone.
proof fn lemma_be_bytes_wrap(v: int, n: nat)
    ensures
        be_bytes(v + pow256(n), n) == be_bytes(v, n),
    decreases n,
{
    if n > 0 {
        let p = pow256((n - 1) as nat);
        lemma_be_bytes_wrap(v / 256, (n - 1) as nat);
        lemma_be_bytes_step(v, n);
        lemma_be_bytes_step(v + pow256(n), n);
        assert((v + 256 * p) / 256 == v / 256 + p && (v + 256 * p) % 256 == v % 256);
    }
}

/// Unsigned numbers that fit survive writing and reading.
pub proof fn lemma_be_uint_of_be_bytes(v: int, n: nat)
    requires
        0 <= v < pow256(n),
    ensures
        be_uint(be_bytes(v, n)) == v,
    decreases n,
{
    if n > 0 {
        lemma_be_uint_of_be_bytes(v / 256, (n - 1) as nat);
        lemma_be_bytes_step(v, n);
        assert(be_bytes(v, n).drop_last() =~= be_bytes(v / 256, (n - 1) as nat));
    }
}

/// The most significant byte tells the half of the range that the number lies in.
proof fn lemma_be_uint_half(s: Seq<u8>)
    requires
        s.len() > 0,
    ensures
        s[0] >= 0x80 <==> 2 * be_uint(s) >= pow256(s.len()),
    decreases s.len(),
{
    if s.len() == 1 {
        reveal_with_fuel(be_uint, 2);
        reveal_with_fuel(pow256, 2);
    } else {
        reveal_with_fuel(pow256, 2);
        lemma_be_uint_half(s.drop_last());
        lemma_pow256_even((s.len() - 1) as nat);
    }
}

proof fn lemma_pow256_even(n: nat)
    requires
        n > 0,
    ensures
        pow256(n) % 2 == 0,
{
}

/// Signed numbers that fit survive writing and reading.
pub proof fn lemma_be_int_of_be_bytes(v: int, n: nat)
    requires
        n > 0,
        -pow256(n) <= 2 * v < pow256(n),
    ensures
        be_int(be_bytes(v, n)) == v,
{
    let u = if v < 0 {
        v + pow256(n)
    } else {
        v
    };
    lemma_be_bytes_wrap(v, n);
    lemma_be_uint_of_be_bytes(u, n);
    lemma_be_uint_half(be_bytes(u, n));
}

/// What two runs of bytes hold when one follows the other.
pub proof fn lemma_be_uint_concat(a: Seq<u8>, b: Seq<u8>)
    ensures
        be_uint(a + b) == pow256(b.len()) * be_uint(a) + be_uint(b),
    decreases b.len(),
{
    if b.len() == 0 {
        assert(a + b =~= a);
    } else {
        let p = pow256((b.len() - 1) as nat);
        assert((a + b).drop_last() =~= a + b.drop_last());
        lemma_be_uint_concat(a, b.drop_last());
        assert(256 * (p * be_uint(a)) == (256 * p) * be_uint(a)) by (nonlinear_arith);
    }
}

/// Signed numbers of `n` bytes lie in the range of an `n`-byte integer.
pub proof fn lemma_be_int_bound(s: Seq<u8>)
    requires
        s.len() > 0,
    ensures
        -pow256(s.len()) <= 2 * be_int(s) < pow256(s.len()),
{
    lemma_be_uint_bound(s);
    lemma_be_uint_half(s);
}

/// A number is the sum of its bytes, the first being worth the most.
pub proof fn law_be_uint_sum(s: Seq<u8>)
    ensures
        s.len() == 1 ==> be_uint(s) == s[0],
        s.len() == 2 ==> be_uint(s) == 0x100 * s[0] + s[1],
        s.len() == 4 ==> be_uint(s) == 0x100_0000 * s[0] + 0x1_0000 * s[1] + 0x100 * s[2] + s[3],
        s.len() == 8 ==> be_uint(s) == 0x100_0000_0000_0000 * s[0] + 0x1_0000_0000_0000 * s[1]
            + 0x100_0000_0000 * s[2] + 0x1_0000_0000 * s[3] + 0x100_0000 * s[4] + 0x1_0000 * s[5]
            + 0x100 * s[6] + s[7],
{
    reveal_with_fuel(be_uint, 9);
}

/// A number whose first bit is set is negative: it falls short of the unsigned
/// one by the number of values that its bytes can hold.
pub proof fn law_be_int_sign(s: Seq<u8>)
    requires
        s.len() > 0,
    ensures
        s[0] < 0x80 ==> be_int(s) == be_uint(s),
        s[0] >= 0x80 && s.len() == 1 ==> be_int(s) == be_uint(s) - 0x100,
        s[0] >= 0x80 && s.len() == 2 ==> be_int(s) == be_uint(s) - 0x1_0000,
        s[0] >= 0x80 && s.len() == 4 ==> be_int(s) == be_uint(s) - 0x1_0000_0000,
        s[0] >= 0x80 && s.len() == 8 ==> be_int(s) == be_uint(s) - 0x1_0000_0000_0000_0000,
{
    lemma_pow256_values();
}

/// Each byte of a number is what is left of it above that place, by 256.
pub proof fn law_be_bytes_digits(v: int)
    ensures
        be_bytes(v, 1) == seq![(v % 0x100) as u8],
        be_bytes(v, 2) == seq![((v / 0x100) % 0x100) as u8, (v % 0x100) as u8],
        be_bytes(v, 4) == seq![
            ((v / 0x100_0000) % 0x100) as u8,
            ((v / 0x1_0000) % 0x100) as u8,
            ((v / 0x100) % 0x100) as u8,
            (v % 0x100) as u8,
        ],
        be_bytes(v, 8) == seq![
            ((v / 0x100_0000_0000_0000) % 0x100) as u8,
            ((v / 0x1_0000_0000_0000) % 0x100) as u8,
            ((v / 0x100_0000_0000) % 0x100) as u8,
            ((v / 0x1_0000_0000) % 0x100) as u8,
            ((v / 0x100_0000) % 0x100) as u8,
            ((v / 0x1_0000) % 0x100) as u8,
            ((v / 0x100) % 0x100) as u8,
            (v % 0x100) as u8,
        ],
{
    assert(v / 1 == v);
    lemma_pow256_values();
    assert(pow256(3) == 0x100_0000);
    assert(pow256(5) == 0x100_0000_0000);
    assert(pow256(6) == 0x1_0000_0000_0000);
    assert(pow256(7) == 0x100_0000_0000_0000);
    assert(be_bytes(v, 1)[0] == ((v / 1) % 0x100) as u8);
    assert(be_bytes(v, 2)[0] == ((v / 0x100) % 0x100) as u8);
    assert(be_bytes(v, 2)[1] == ((v / 1) % 0x100) as u8);
    assert(be_bytes(v, 4)[0] == ((v / 0x100_0000) % 0x100) as u8);
    assert(be_bytes(v, 4)[1] == ((v / 0x1_0000) % 0x100) as u8);
    assert(be_bytes(v, 4)[2] == ((v / 0x100) % 0x100) as u8);
    assert(be_bytes(v, 4)[3] == ((v / 1) % 0x100) as u8);
    assert(be_bytes(v, 8)[0] == ((v / 0x100_0000_0000_0000) % 0x100) as u8);
    assert(be_bytes(v, 8)[1] == ((v / 0x1_0000_0000_0000) % 0x100) as u8);
    assert(be_bytes(v, 8)[2] == ((v / 0x100_0000_0000) % 0x100) as u8);
    assert(be_bytes(v, 8)[3] == ((v / 0x1_0000_0000) % 0x100) as u8);
    assert(be_bytes(v, 8)[4] == ((v / 0x100_0000) % 0x100) as u8);
    assert(be_bytes(v, 8)[5] == ((v / 0x1_0000) % 0x100) as u8);
    assert(be_bytes(v, 8)[6] == ((v / 0x100) % 0x100) as u8);
    assert(be_bytes(v, 8)[7] == ((v / 1) % 0x100) as u8);
}

} // verus!
