//! Byte-sequence building blocks for the USTAR format: zero fill, in-place
//! range replacement (`splice`), byte sums, and the zero-padded octal digit
//! encoding that USTAR numeric fields use.
use vstd::prelude::*;
use vstd::arithmetic::div_mod::{lemma_div_denominator, lemma_fundamental_div_mod};

verus! {

/// `n` zero bytes.
pub open spec fn zeros(n: nat) -> Seq<u8> {
    Seq::new(n, |i: int| 0u8)
}

/// `n` ASCII space bytes.
pub open spec fn spaces(n: nat) -> Seq<u8> {
    Seq::new(n, |i: int| 0x20u8)
}

/// `s` with the range starting at `off` replaced by `r`.
pub open spec fn splice(s: Seq<u8>, off: int, r: Seq<u8>) -> Seq<u8>
    recommends
        0 <= off,
        off + r.len() <= s.len(),
{
    s.take(off) + r + s.skip(off + r.len())
}

pub proof fn lemma_splice_len(s: Seq<u8>, off: int, r: Seq<u8>)
    requires
        0 <= off,
        off + r.len() <= s.len(),
    ensures
        splice(s, off, r).len() == s.len(),
{
}

/// Inside the replaced range, `splice` reads from `r`.
pub proof fn lemma_splice_at(s: Seq<u8>, off: int, r: Seq<u8>)
    requires
        0 <= off,
        off + r.len() <= s.len(),
    ensures
        splice(s, off, r).subrange(off, off + r.len() as int) == r,
{
    assert(splice(s, off, r).subrange(off, off + r.len() as int) =~= r);
}

/// Outside the replaced range, `splice` leaves each byte as it was.
pub proof fn lemma_splice_index(s: Seq<u8>, off: int, r: Seq<u8>, i: int)
    requires
        0 <= off,
        off + r.len() <= s.len(),
        0 <= i < s.len(),
        i < off || off + r.len() <= i,
    ensures
        splice(s, off, r)[i] == s[i],
{
}

/// Outside the replaced range, `splice` leaves whole subranges as they were.
pub proof fn lemma_splice_keeps(s: Seq<u8>, off: int, r: Seq<u8>, a: int, b: int)
    requires
        0 <= off,
        off + r.len() <= s.len(),
        0 <= a <= b <= s.len(),
        b <= off || off + r.len() <= a,
    ensures
        splice(s, off, r).subrange(a, b) == s.subrange(a, b),
{
    assert(splice(s, off, r).subrange(a, b) =~= s.subrange(a, b));
}

/// The sum of all bytes of `s`, as an unbounded natural number.
pub open spec fn sum_bytes(s: Seq<u8>) -> nat
    decreases s.len(),
{
    if s.len() == 0 {
        0
    } else {
        sum_bytes(s.drop_last()) + s.last() as nat
    }
}

pub proof fn lemma_sum_bytes_bound(s: Seq<u8>)
    ensures
        sum_bytes(s) <= 255 * s.len(),
    decreases s.len(),
{
    if s.len() > 0 {
        lemma_sum_bytes_bound(s.drop_last());
    }
}

pub proof fn lemma_sum_bytes_step(s: Seq<u8>, i: int)
    requires
        0 <= i < s.len(),
    ensures
        sum_bytes(s.take(i + 1)) == sum_bytes(s.take(i)) + s[i],
{
    assert(s.take(i + 1).drop_last() =~= s.take(i));
}

/// `8^n`.
pub open spec fn pow8(n: nat) -> nat
    decreases n,
{
    if n == 0 {
        1
    } else {
        8 * pow8((n - 1) as nat)
    }
}

pub proof fn lemma_pow8_pos(n: nat)
    ensures
        pow8(n) >= 1,
    decreases n,
{
    if n > 0 {
        lemma_pow8_pos((n - 1) as nat);
    }
}

/// The value `v` written as `n` octal ASCII digits, most significant first,
/// zero padded on the left.  Only the lowest `n` digits of `v` appear.
pub open spec fn octal_digits(v: nat, n: nat) -> Seq<u8>
    decreases n,
{
    if n == 0 {
        Seq::empty()
    } else {
        octal_digits(v / 8, (n - 1) as nat).push((0x30 + v % 8) as u8)
    }
}

/// A USTAR numeric field: `n` zero-padded octal digits followed by one NUL.
pub open spec fn octal_field(v: nat, n: nat) -> Seq<u8> {
    octal_digits(v, n).push(0u8)
}

pub proof fn lemma_octal_field_len(v: nat, n: nat)
    ensures
        octal_field(v, n).len() == n + 1,
{
    lemma_octal_digits_index(v, n);
}

/// The numeric value that a run of octal ASCII digits denotes.
pub open spec fn octal_value(s: Seq<u8>) -> int
    decreases s.len(),
{
    if s.len() == 0 {
        0
    } else {
        octal_value(s.drop_last()) * 8 + (s.last() - 0x30)
    }
}

pub proof fn lemma_octal_digits_index(v: nat, n: nat)
    ensures
        octal_digits(v, n).len() == n,
        forall|i: int|
            0 <= i < n ==> octal_digits(v, n)[i] == (0x30 + (v / pow8((n - 1 - i) as nat)) % 8) as u8,
    decreases n,
{
    if n > 0 {
        lemma_octal_digits_index(v / 8, (n - 1) as nat);
        assert forall|i: int| 0 <= i < n implies octal_digits(v, n)[i] == (0x30 + (v / pow8(
            (n - 1 - i) as nat,
        )) % 8) as u8 by {
            if i < n - 1 {
                let m = (n - 2 - i) as nat;
                lemma_pow8_pos(m);
                lemma_div_denominator(v as int, 8, pow8(m) as int);
                assert(pow8((m + 1) as nat) == 8 * pow8(m));
                assert((v / 8) / pow8(m) == v / pow8((m + 1) as nat));
            } else {
                assert(pow8(0) == 1);
                assert(v / 1 == v) by (nonlinear_arith);
            }
        }
    }
}

/// All octal digits of zero are the ASCII digit `0`.
pub proof fn lemma_octal_digits_zero(n: nat)
    ensures
        octal_digits(0, n) == Seq::new(n, |i: int| 0x30u8),
    decreases n,
{
    if n > 0 {
        lemma_octal_digits_zero((n - 1) as nat);
        assert(0nat / 8 == 0) by (nonlinear_arith);
        assert(0nat % 8 == 0) by (nonlinear_arith);
        assert(octal_digits(0, n) =~= Seq::new(n, |i: int| 0x30u8));
    }
}

/// Octal encoding round-trips: decoding the `n` digits of a value below
/// `8^n` gives the value back.
pub proof fn lemma_octal_roundtrip(v: nat, n: nat)
    requires
        v < pow8(n),
    ensures
        octal_value(octal_digits(v, n)) == v,
    decreases n,
{
    if n == 0 {
        assert(v == 0);
    } else {
        assert(pow8(n) == 8 * pow8((n - 1) as nat));
        assert(v / 8 < pow8((n - 1) as nat)) by {
            lemma_div_denominator(v as int, 8, pow8((n - 1) as nat) as int);
            assert(v / pow8(n) == 0) by {
                vstd::arithmetic::div_mod::lemma_basic_div(v as int, pow8(n) as int);
            }
        }
        lemma_octal_roundtrip(v / 8, (n - 1) as nat);
        assert(octal_digits(v, n).drop_last() =~= octal_digits(v / 8, (n - 1) as nat));
        lemma_fundamental_div_mod(v as int, 8);
    }
}

/// Builds a vector of `n` zero bytes.
pub fn zeros_vec(n: usize) -> (r: Vec<u8>)
    ensures
        r@ == zeros(n as nat),
{
    let mut r: Vec<u8> = Vec::new();
    let mut i: usize = 0;
    while i < n
        invariant
            i <= n,
            r@ =~= zeros(i as nat),
        decreases n - i,
    {
        r.push(0u8);
        i = i + 1;
        proof {
            assert(r@ =~= zeros(i as nat));
        }
    }
    r
}

/// Writes `v` into `buf` at `off` as a USTAR numeric field of `digits`
/// octal digits followed by a NUL byte.
pub fn write_octal(buf: &mut Vec<u8>, off: usize, digits: usize, v: u64)
    requires
        old(buf)@.len() == 512,
        off + digits + 1 <= 512,
        (v as nat) < pow8(digits as nat),
    ensures
        final(buf)@ == splice(old(buf)@, off as int, octal_field(v as nat, digits as nat)),
{
    proof {
        lemma_octal_digits_index(v as nat, digits as nat);
    }
    buf.set(off + digits, 0u8);
    let mut x: u64 = v;
    let mut k: usize = 0;
    while k < digits
        invariant
            buf@.len() == 512,
            off + digits + 1 <= 512,
            k <= digits,
            x as nat == (v as nat) / pow8(k as nat),
            buf@[off + digits] == 0u8,
            forall|j: int|
                0 <= j < 512 && !(off + digits - k <= j <= off + digits) ==> buf@[j] == old(
                    buf,
                )@[j],
            forall|j: int|
                off + digits - k <= j < off + digits ==> buf@[j] == (0x30 + (((v as nat) / pow8(
                    (off + digits - 1 - j) as nat,
                )) % 8)) as u8,
        decreases digits - k,
    {
        let d: u8 = 0x30 + (x % 8) as u8;
        buf.set(off + digits - 1 - k, d);
        proof {
            assert(pow8((k + 1) as nat) == 8 * pow8(k as nat));
            lemma_pow8_pos(k as nat);
            lemma_div_denominator(v as int, pow8(k as nat) as int, 8);
        }
        x = x / 8;
        k = k + 1;
    }
    proof {
        lemma_octal_digits_index(v as nat, digits as nat);
        assert(buf@ =~= splice(old(buf)@, off as int, octal_field(v as nat, digits as nat)));
    }
}

} // verus!
