use vstd::prelude::*;

verus! {

/// Multiplication of a field element by x, reduced by x^8 + x^4 + x^3 + x + 1.
pub open spec fn xtime(a: u8) -> u8 {
    if a & 0x80 == 0 {
        a << 1
    } else {
        (a << 1) ^ 0x1b
    }
}

/// Product of `a` and `b` in GF(2^8): the sum of `a * x^k` over the set bits k of `b`.
pub open spec fn gf_mul(a: u8, b: u8) -> u8
    decreases b,
{
    if b == 0 {
        0
    } else {
        let low: u8 = if b % 2 == 1 { a } else { 0 };
        low ^ gf_mul(xtime(a), (b / 2) as u8)
    }
}

/// Exclusive or on bytes is associative and commutative, with 0 as unit and each byte its own inverse.
pub proof fn lemma_xor_u8()
    ensures
        forall|a: u8, b: u8, c: u8| #[trigger] (a ^ (b ^ c)) == ((a ^ b) ^ c),
        forall|a: u8, b: u8| #[trigger] (a ^ b) == (b ^ a),
        forall|a: u8| #[trigger] (a ^ 0) == a,
        forall|a: u8| #[trigger] (a ^ a) == 0,
{
    assert(forall|a: u8, b: u8, c: u8| #[trigger] (a ^ (b ^ c)) == ((a ^ b) ^ c)) by (bit_vector);
    assert(forall|a: u8, b: u8| #[trigger] (a ^ b) == (b ^ a)) by (bit_vector);
    assert(forall|a: u8| #[trigger] (a ^ 0) == a) by (bit_vector);
    assert(forall|a: u8| #[trigger] (a ^ a) == 0) by (bit_vector);
}

/// Doubles `a` in GF(2^8): a shift to the left, reduced by the AES polynomial when the top bit
/// was set.
pub fn galois_double(a: u8) -> (r: u8)
    ensures
        r == xtime(a),
{
    if a & 0x80 != 0 {
        (a << 1) ^ 0x1b
    } else {
        a << 1
    }
}

/// Multiplies two bytes in GF(2^8) with the AES reduction polynomial.
pub fn galois_mul(x: u8, y: u8) -> (r: u8)
    ensures
        r == gf_mul(x, y),
{
    let mut result: u8 = 0;
    let mut a: u8 = x;
    let mut b: u8 = y;
    proof {
        lemma_xor_u8();
    }
    while b != 0
        invariant
            result ^ gf_mul(a, b) == gf_mul(x, y),
        decreases b,
    {
        proof {
            lemma_xor_u8();
        }
        let low: u8 = if b % 2 == 1 { a } else { 0 };
        assert(gf_mul(a, b) == low ^ gf_mul(xtime(a), (b / 2) as u8));
        let ghost prev = result;
        result = result ^ low;
        assert(prev ^ (low ^ gf_mul(xtime(a), (b / 2) as u8)) == result ^ gf_mul(
            xtime(a),
            (b / 2) as u8,
        ));
        a = galois_double(a);
        b = b / 2;
    }
    result
}

/// `gf_mul(x, 2)` written out.
pub open spec fn times2(x: u8) -> u8 {
    0 ^ (xtime(x) ^ 0)
}

/// `gf_mul(x, 3)` written out.
pub open spec fn times3(x: u8) -> u8 {
    x ^ (xtime(x) ^ 0)
}

/// `gf_mul(x, 9)` written out.
pub open spec fn times9(x: u8) -> u8 {
    x ^ (0 ^ (0 ^ (xtime(xtime(xtime(x))) ^ 0)))
}

/// `gf_mul(x, 11)` written out.
pub open spec fn times11(x: u8) -> u8 {
    x ^ (xtime(x) ^ (0 ^ (xtime(xtime(xtime(x))) ^ 0)))
}

/// `gf_mul(x, 13)` written out.
pub open spec fn times13(x: u8) -> u8 {
    x ^ (0 ^ (xtime(xtime(x)) ^ (xtime(xtime(xtime(x))) ^ 0)))
}

/// `gf_mul(x, 14)` written out.
pub open spec fn times14(x: u8) -> u8 {
    0 ^ (xtime(x) ^ (xtime(xtime(x)) ^ (xtime(xtime(xtime(x))) ^ 0)))
}

/// Multiplication by the constants of MixColumns and InvMixColumns, unfolded.
pub proof fn lemma_gf_mul_constants(x: u8)
    ensures
        gf_mul(x, 1) == x ^ 0,
        gf_mul(x, 2) == times2(x),
        gf_mul(x, 3) == times3(x),
        gf_mul(x, 9) == times9(x),
        gf_mul(x, 11) == times11(x),
        gf_mul(x, 13) == times13(x),
        gf_mul(x, 14) == times14(x),
{
    reveal_with_fuel(gf_mul, 5);
}

/// Multiplication by each constant distributes over exclusive or.
pub proof fn lemma_times_xor()
    ensures
        forall|x: u8, y: u8| #[trigger] times2(x ^ y) == times2(x) ^ times2(y),
        forall|x: u8, y: u8| #[trigger] times3(x ^ y) == times3(x) ^ times3(y),
        forall|x: u8, y: u8| #[trigger] times9(x ^ y) == times9(x) ^ times9(y),
        forall|x: u8, y: u8| #[trigger] times11(x ^ y) == times11(x) ^ times11(y),
        forall|x: u8, y: u8| #[trigger] times13(x ^ y) == times13(x) ^ times13(y),
        forall|x: u8, y: u8| #[trigger] times14(x ^ y) == times14(x) ^ times14(y),
{
    assert(forall|x: u8, y: u8| #[trigger] times2(x ^ y) == times2(x) ^ times2(y)) by (bit_vector);
    assert(forall|x: u8, y: u8| #[trigger] times3(x ^ y) == times3(x) ^ times3(y)) by (bit_vector);
    assert(forall|x: u8, y: u8| #[trigger] times9(x ^ y) == times9(x) ^ times9(y)) by (bit_vector);
    assert(forall|x: u8, y: u8| #[trigger] times11(x ^ y) == times11(x) ^ times11(y))
        by (bit_vector);
    assert(forall|x: u8, y: u8| #[trigger] times13(x ^ y) == times13(x) ^ times13(y))
        by (bit_vector);
    assert(forall|x: u8, y: u8| #[trigger] times14(x ^ y) == times14(x) ^ times14(y))
        by (bit_vector);
}

/// The products of the rows of the two column matrices with one column of the other.
pub proof fn lemma_times_coefficients(x: u8)
    ensures
        times14(times2(x)) ^ times11(x) ^ times13(x) ^ times9(times3(x)) == x,
        times14(times3(x)) ^ times11(times2(x)) ^ times13(x) ^ times9(x) == 0,
        times14(x) ^ times11(times3(x)) ^ times13(times2(x)) ^ times9(x) == 0,
        times14(x) ^ times11(x) ^ times13(times3(x)) ^ times9(times2(x)) == 0,
{
    assert(times14(times2(x)) ^ times11(x) ^ times13(x) ^ times9(times3(x)) == x) by (bit_vector);
    assert(times14(times3(x)) ^ times11(times2(x)) ^ times13(x) ^ times9(x) == 0) by (bit_vector);
    assert(times14(x) ^ times11(times3(x)) ^ times13(times2(x)) ^ times9(x) == 0) by (bit_vector);
    assert(times14(x) ^ times11(x) ^ times13(times3(x)) ^ times9(times2(x)) == 0) by (bit_vector);
}

/// Row 0 of MixColumns on the column (a0, a1, a2, a3); row r is this on the column rotated up by r.
pub open spec fn mix_row(a0: u8, a1: u8, a2: u8, a3: u8) -> u8 {
    gf_mul(a0, 2) ^ gf_mul(a1, 3) ^ a2 ^ a3
}

/// Row 0 of InvMixColumns on the column (a0, a1, a2, a3); row r is this on the column rotated up by r.
pub open spec fn inv_mix_row(a0: u8, a1: u8, a2: u8, a3: u8) -> u8 {
    gf_mul(a0, 14) ^ gf_mul(a1, 11) ^ gf_mul(a2, 13) ^ gf_mul(a3, 9)
}

/// InvMixColumns undoes MixColumns, one row at a time.
pub proof fn lemma_inv_mix_row_of_mix_row(a0: u8, a1: u8, a2: u8, a3: u8)
    ensures
        inv_mix_row(
            mix_row(a0, a1, a2, a3),
            mix_row(a1, a2, a3, a0),
            mix_row(a2, a3, a0, a1),
            mix_row(a3, a0, a1, a2),
        ) == a0,
{
    lemma_times_xor();
    lemma_gf_mul_constants(a0);
    lemma_gf_mul_constants(a1);
    lemma_gf_mul_constants(a2);
    lemma_gf_mul_constants(a3);
    let m0 = mix_row(a0, a1, a2, a3);
    let m1 = mix_row(a1, a2, a3, a0);
    let m2 = mix_row(a2, a3, a0, a1);
    let m3 = mix_row(a3, a0, a1, a2);
    lemma_gf_mul_constants(m0);
    lemma_gf_mul_constants(m1);
    lemma_gf_mul_constants(m2);
    lemma_gf_mul_constants(m3);
    assert(m0 == times2(a0) ^ times3(a1) ^ a2 ^ a3);
    assert(m1 == times2(a1) ^ times3(a2) ^ a3 ^ a0);
    assert(m2 == times2(a2) ^ times3(a3) ^ a0 ^ a1);
    assert(m3 == times2(a3) ^ times3(a0) ^ a1 ^ a2);
    let t0 = times14(times2(a0));
    let t1 = times14(times3(a1));
    let t2 = times14(a2);
    let t3 = times14(a3);
    let q1 = times11(times2(a1));
    let q2 = times11(times3(a2));
    let q3 = times11(a3);
    let q0 = times11(a0);
    let r2 = times13(times2(a2));
    let r3 = times13(times3(a3));
    let r0 = times13(a0);
    let r1 = times13(a1);
    let s3 = times9(times2(a3));
    let s0 = times9(times3(a0));
    let s1 = times9(a1);
    let s2 = times9(a2);
    assert(times14(m0) == t0 ^ t1 ^ t2 ^ t3);
    assert(times11(m1) == q1 ^ q2 ^ q3 ^ q0);
    assert(times13(m2) == r2 ^ r3 ^ r0 ^ r1);
    assert(times9(m3) == s3 ^ s0 ^ s1 ^ s2);
    lemma_times_coefficients(a0);
    lemma_times_coefficients(a1);
    lemma_times_coefficients(a2);
    lemma_times_coefficients(a3);
    assert((t0 ^ t1 ^ t2 ^ t3) ^ (q1 ^ q2 ^ q3 ^ q0) ^ (r2 ^ r3 ^ r0 ^ r1) ^ (s3 ^ s0 ^ s1 ^ s2)
        == a0) by (bit_vector)
        requires
            t0 ^ q0 ^ r0 ^ s0 == a0,
            t1 ^ q1 ^ r1 ^ s1 == 0,
            t2 ^ q2 ^ r2 ^ s2 == 0,
            t3 ^ q3 ^ r3 ^ s3 == 0,
    ;
}

/// InvMixColumns is linear over exclusive or, one row at a time.
pub proof fn lemma_inv_mix_row_xor(a0: u8, a1: u8, a2: u8, a3: u8, b0: u8, b1: u8, b2: u8, b3: u8)
    ensures
        inv_mix_row(a0 ^ b0, a1 ^ b1, a2 ^ b2, a3 ^ b3) == inv_mix_row(a0, a1, a2, a3) ^ inv_mix_row(
            b0,
            b1,
            b2,
            b3,
        ),
{
    lemma_times_xor();
    lemma_gf_mul_constants(a0);
    lemma_gf_mul_constants(a1);
    lemma_gf_mul_constants(a2);
    lemma_gf_mul_constants(a3);
    lemma_gf_mul_constants(b0);
    lemma_gf_mul_constants(b1);
    lemma_gf_mul_constants(b2);
    lemma_gf_mul_constants(b3);
    lemma_gf_mul_constants(a0 ^ b0);
    lemma_gf_mul_constants(a1 ^ b1);
    lemma_gf_mul_constants(a2 ^ b2);
    lemma_gf_mul_constants(a3 ^ b3);
    let x0 = times14(a0);
    let x1 = times11(a1);
    let x2 = times13(a2);
    let x3 = times9(a3);
    let y0 = times14(b0);
    let y1 = times11(b1);
    let y2 = times13(b2);
    let y3 = times9(b3);
    assert((x0 ^ y0) ^ (x1 ^ y1) ^ (x2 ^ y2) ^ (x3 ^ y3) == (x0 ^ x1 ^ x2 ^ x3) ^ (y0 ^ y1 ^ y2
        ^ y3)) by (bit_vector);
}

} // verus!
