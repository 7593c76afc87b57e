//! Similarity of messages: Jaro scores from `strsim`, read as fixed-point
//! numbers, and the threshold that their average must exceed for a flood.

use vstd::prelude::*;

verus! {

/// The fixed-point value of a similarity of one: scores count in units of
/// two to the minus thirty-second.
pub const SCORE_ONE: u64 = 0x1_0000_0000;

/// The average similarity must exceed this many hundredths.
pub const SIMILARITY_PERCENT: u64 = 42;

/// The bit pattern of the double-precision number that `strsim::jaro`
/// returns for two texts.
pub uninterp spec fn jaro_bits(a: Seq<char>, b: Seq<char>) -> u64;

/// `strsim::jaro`, its result taken as the bits of the double. The Jaro
/// similarity of two texts depends on nothing but their characters.
#[verifier::external_body]
pub(crate) fn jaro_score_bits(a: &str, b: &str) -> (bits: u64)
    ensures
        bits == jaro_bits(a@, b@),
{
    strsim::jaro(a, b).to_bits()
}

/// The biased exponent of a double: eleven bits below the sign.
pub open spec fn exponent_of(bits: u64) -> u64 {
    (bits >> 52) & 0x7ff
}

/// The fraction of a double: its low fifty-two bits.
pub open spec fn fraction_of(bits: u64) -> u64 {
    bits & 0xf_ffff_ffff_ffff
}

/// The double with these bits, clamped to the unit interval and rounded
/// down to a multiple of two to the minus thirty-second. A number below one
/// with biased exponent `e` is its fifty-three-bit significand times two to
/// the `e - 1075`, so its fixed-point value is the significand shifted right
/// by `1043 - e`. Negative numbers and NaN count as zero.
pub open spec fn score_of(bits: u64) -> u64 {
    let e = exponent_of(bits);
    let f = fraction_of(bits);
    if bits >> 63 != 0 {
        0
    } else if e == 0x7ff && f != 0 {
        0
    } else if e >= 1023 {
        SCORE_ONE
    } else if e < 980 {
        0
    } else {
        (0x10_0000_0000_0000 | f) >> ((1043 - e) as u64)
    }
}

/// Reads a similarity from the bits of a double.
pub fn score(bits: u64) -> (s: u64)
    ensures
        s == score_of(bits),
        s <= SCORE_ONE,
{
    let e: u64 = (bits >> 52) & 0x7ff;
    let f: u64 = bits & 0xf_ffff_ffff_ffff;
    if bits >> 63 != 0 {
        0
    } else if e == 0x7ff && f != 0 {
        0
    } else if e >= 1023 {
        SCORE_ONE
    } else if e < 980 {
        0
    } else {
        let shift: u64 = 1043 - e;
        let s: u64 = (0x10_0000_0000_0000 | f) >> shift;
        assert(s <= 0x1_0000_0000) by (bit_vector)
            requires
                s == (0x10_0000_0000_0000 | f) >> shift,
                f == bits & 0xf_ffff_ffff_ffff,
                21 <= shift < 64,
        ;
        s
    }
}

/// The scores read from a sequence of bit patterns.
pub open spec fn scores_of(bits: Seq<u64>) -> Seq<u64> {
    Seq::new(bits.len(), |i: int| score_of(bits[i]))
}

/// The sum of a sequence of scores.
pub open spec fn total(scores: Seq<u64>) -> nat
    decreases scores.len(),
{
    if scores.len() == 0 {
        0
    } else {
        total(scores.drop_last()) + scores.last() as nat
    }
}

/// The average of the scores is more than the threshold: their sum is more
/// than the threshold times their number.
pub open spec fn exceeds_threshold(scores: Seq<u64>) -> bool {
    100 * total(scores) > SIMILARITY_PERCENT * SCORE_ONE * scores.len()
}

/// Decides, from the bits of the Jaro scores of a window, whether their
/// average exceeds the threshold.
pub fn flood_verdict(bits: &Vec<u64>) -> (flood: bool)
    ensures
        flood == exceeds_threshold(scores_of(bits@)),
{
    let mut sum: u128 = 0;
    let mut i: usize = 0;
    assert(scores_of(bits@).take(0) =~= Seq::<u64>::empty());
    while i < bits.len()
        invariant
            i <= bits.len(),
            sum == total(scores_of(bits@).take(i as int)),
            sum <= i * SCORE_ONE,
        decreases bits.len() - i,
    {
        let s = score(bits[i]);
        assert(scores_of(bits@).take(i + 1).drop_last() =~= scores_of(bits@).take(i as int));
        assert(i * SCORE_ONE + SCORE_ONE == (i + 1) * SCORE_ONE) by (nonlinear_arith);
        assert(i * SCORE_ONE <= usize::MAX * SCORE_ONE) by (nonlinear_arith)
            requires
                i <= usize::MAX,
        ;
        sum = sum + s as u128;
        i += 1;
    }
    assert(scores_of(bits@).take(bits.len() as int) =~= scores_of(bits@));
    let n: u128 = bits.len() as u128;
    assert(sum <= usize::MAX * SCORE_ONE);
    assert(SIMILARITY_PERCENT * SCORE_ONE == 0x2a_0000_0000) by (nonlinear_arith)
        requires
            SIMILARITY_PERCENT == 42,
            SCORE_ONE == 0x1_0000_0000,
    ;
    let limit: u128 = SIMILARITY_PERCENT as u128 * SCORE_ONE as u128;
    100 * sum > limit * n
}

/// Equal scores add up to their number times the score.
pub proof fn lemma_total_uniform(scores: Seq<u64>, v: u64)
    requires
        forall|i: int| 0 <= i < scores.len() ==> scores[i] == v,
    ensures
        total(scores) == scores.len() * v,
    decreases scores.len(),
{
    if scores.len() > 0 {
        lemma_total_uniform(scores.drop_last(), v);
        assert((scores.len() - 1) * v + v == scores.len() * v) by (nonlinear_arith);
    }
}

/// Where all scores are equal, their average exceeds the threshold exactly
/// if that score does: scores of one always do, scores of zero never.
pub proof fn lemma_uniform_scores(scores: Seq<u64>, v: u64)
    requires
        scores.len() > 0,
        forall|i: int| 0 <= i < scores.len() ==> scores[i] == v,
    ensures
        exceeds_threshold(scores) <==> 100 * v > SIMILARITY_PERCENT * SCORE_ONE,
        v == SCORE_ONE ==> exceeds_threshold(scores),
        v == 0 ==> !exceeds_threshold(scores),
{
    lemma_total_uniform(scores, v);
    let n = scores.len() as int;
    let limit = (SIMILARITY_PERCENT * SCORE_ONE) as int;
    assert((100 * (n * v) > limit * n) <==> (100 * v > limit)) by (nonlinear_arith)
        requires
            n > 0,
    ;
}

} // verus!
