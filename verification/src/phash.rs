//! The perceptual fingerprint: a 64-bit hash of an image's coarse visual
//! structure, compared by Hamming distance.

use vstd::prelude::*;

verus! {

/// Two fingerprints closer than this Hamming distance are duplicates.
pub const SIMILARITY_THRESHOLD: u32 = 8;

/// A 64-bit perceptual fingerprint. Bit `i` records whether transform
/// coefficient `i` lies above the average of coefficients `1..64`.
#[derive(Clone, Copy, PartialEq, Eq, Structural, Debug)]
pub struct PHash(pub u64);

/// The hexadecimal digit character for a value below 16.
pub open spec fn hex_digit(n: u64) -> char {
    if n == 0 {
        '0'
    } else if n == 1 {
        '1'
    } else if n == 2 {
        '2'
    } else if n == 3 {
        '3'
    } else if n == 4 {
        '4'
    } else if n == 5 {
        '5'
    } else if n == 6 {
        '6'
    } else if n == 7 {
        '7'
    } else if n == 8 {
        '8'
    } else if n == 9 {
        '9'
    } else if n == 10 {
        'a'
    } else if n == 11 {
        'b'
    } else if n == 12 {
        'c'
    } else if n == 13 {
        'd'
    } else if n == 14 {
        'e'
    } else {
        'f'
    }
}

/// The `i`-th nibble of `x`, counted from the most significant end.
pub open spec fn nibble(x: u64, i: int) -> u64 {
    (x >> (((15 - i) * 4) as u64)) & 0xf
}

/// The 16-character lowercase, zero-padded hexadecimal rendering of `x`.
pub open spec fn hex_of(x: u64) -> Seq<char> {
    Seq::new(16, |i: int| hex_digit(nibble(x, i)))
}

/// The fixed-point cosine basis table: entry `8*n + k` holds
/// `cos(pi/32 * (n + 0.5) * k)` scaled by 2^14 and rounded, for `n` in
/// `[0, 32)` and `k` in `[0, 8)`. A fixed integer table keeps the whole
/// transform exact and reproducible.
pub open spec fn cos_table() -> Seq<i16> {
    seq![
        16384i16, 16364i16, 16305i16, 16207i16, 16069i16, 15893i16, 15679i16, 15426i16,
        16384i16, 16207i16, 15679i16, 14811i16, 13623i16, 12140i16, 10394i16, 8423i16,
        16384i16, 15893i16, 14449i16, 12140i16, 9102i16, 5520i16, 1606i16, -2404i16,
        16384i16, 15426i16, 12665i16, 8423i16, 3196i16, -2404i16, -7723i16, -12140i16,
        16384i16, 14811i16, 10394i16, 3981i16, -3196i16, -9760i16, -14449i16, -16364i16,
        16384i16, 14053i16, 7723i16, -804i16, -9102i16, -14811i16, -16305i16, -13160i16,
        16384i16, 13160i16, 4756i16, -5520i16, -13623i16, -16364i16, -12665i16, -3981i16,
        16384i16, 12140i16, 1606i16, -9760i16, -16069i16, -14053i16, -4756i16, 7005i16,
        16384i16, 11003i16, -1606i16, -13160i16, -16069i16, -8423i16, 4756i16, 14811i16,
        16384i16, 9760i16, -4756i16, -15426i16, -13623i16, -804i16, 12665i16, 15893i16,
        16384i16, 8423i16, -7723i16, -16364i16, -9102i16, 7005i16, 16305i16, 9760i16,
        16384i16, 7005i16, -10394i16, -15893i16, -3196i16, 13160i16, 14449i16, -804i16,
        16384i16, 5520i16, -12665i16, -14053i16, 3196i16, 16207i16, 7723i16, -11003i16,
        16384i16, 3981i16, -14449i16, -11003i16, 9102i16, 15426i16, -1606i16, -16207i16,
        16384i16, 2404i16, -15679i16, -7005i16, 13623i16, 11003i16, -10394i16, -14053i16,
        16384i16, 804i16, -16305i16, -2404i16, 16069i16, 3981i16, -15679i16, -5520i16,
        16384i16, -804i16, -16305i16, 2404i16, 16069i16, -3981i16, -15679i16, 5520i16,
        16384i16, -2404i16, -15679i16, 7005i16, 13623i16, -11003i16, -10394i16, 14053i16,
        16384i16, -3981i16, -14449i16, 11003i16, 9102i16, -15426i16, -1606i16, 16207i16,
        16384i16, -5520i16, -12665i16, 14053i16, 3196i16, -16207i16, 7723i16, 11003i16,
        16384i16, -7005i16, -10394i16, 15893i16, -3196i16, -13160i16, 14449i16, 804i16,
        16384i16, -8423i16, -7723i16, 16364i16, -9102i16, -7005i16, 16305i16, -9760i16,
        16384i16, -9760i16, -4756i16, 15426i16, -13623i16, 804i16, 12665i16, -15893i16,
        16384i16, -11003i16, -1606i16, 13160i16, -16069i16, 8423i16, 4756i16, -14811i16,
        16384i16, -12140i16, 1606i16, 9760i16, -16069i16, 14053i16, -4756i16, -7005i16,
        16384i16, -13160i16, 4756i16, 5520i16, -13623i16, 16364i16, -12665i16, 3981i16,
        16384i16, -14053i16, 7723i16, 804i16, -9102i16, 14811i16, -16305i16, 13160i16,
        16384i16, -14811i16, 10394i16, -3981i16, -3196i16, 9760i16, -14449i16, 16364i16,
        16384i16, -15426i16, 12665i16, -8423i16, 3196i16, 2404i16, -7723i16, 12140i16,
        16384i16, -15893i16, 14449i16, -12140i16, 9102i16, -5520i16, 1606i16, 2404i16,
        16384i16, -16207i16, 15679i16, -14811i16, 13623i16, -12140i16, 10394i16, -8423i16,
        16384i16, -16364i16, 16305i16, -16207i16, 16069i16, -15893i16, 15679i16, -15426i16,
    ]
}

/// The cosine basis value used for sample `n` and frequency `k`.
pub open spec fn ct(n: int, k: int) -> int {
    cos_table()[8 * n + k] as int
}

/// The centered intensity of grid pixel `(n1, n2)`: luma values `[0, 255]`
/// shifted so that mid-gray is zero.
pub open spec fn px(g: Seq<u8>, n1: int, n2: int) -> int {
    g[32 * n1 + n2] - 128
}

/// One addend of the transform sum for coefficient `(k1, k2)`.
pub open spec fn term(g: Seq<u8>, k1: int, k2: int, n1: int, n2: int) -> int {
    ct(n1, k1) * ct(n2, k2) * px(g, n1, n2)
}

/// The partial sum of `term` over `n2` in `[0, m)` for a fixed `n1`.
pub open spec fn row_sum(g: Seq<u8>, k1: int, k2: int, n1: int, m: int) -> int
    decreases m,
{
    if m <= 0 {
        0
    } else {
        row_sum(g, k1, k2, n1, m - 1) + term(g, k1, k2, n1, m - 1)
    }
}

/// The partial sum of whole rows `n1` in `[0, m)`.
pub open spec fn col_sum(g: Seq<u8>, k1: int, k2: int, m: int) -> int
    decreases m,
{
    if m <= 0 {
        0
    } else {
        col_sum(g, k1, k2, m - 1) + row_sum(g, k1, k2, m - 1, 32)
    }
}

/// Transform coefficient `i` of the grid, for `i` in `[0, 64)`: the sum
/// over all 1024 samples for frequency pair `(i / 8, i % 8)`, scaled by
/// 2^28 relative to the real-valued transform.
pub open spec fn coef(g: Seq<u8>, i: int) -> int {
    col_sum(g, i / 8, i % 8, 32)
}

/// The sum of coefficients `1..64`; the DC coefficient `0` is excluded
/// because it reflects overall brightness, not structure. The mean of
/// those 63 coefficients is `coef_total(g, 64) / 63`.
pub open spec fn coef_total(g: Seq<u8>, m: int) -> int
    decreases m,
{
    if m <= 1 {
        0
    } else {
        coef_total(g, m - 1) + coef(g, m - 1)
    }
}

/// Whether fingerprint bit `i` is set: coefficient `i` reaches the mean of
/// coefficients `1..64` (`c >= total / 63` compared exactly as
/// `63 * c >= total`).
pub open spec fn bit_set(g: Seq<u8>, i: int) -> bool {
    63 * coef(g, i) >= coef_total(g, 64)
}

/// The fingerprint restricted to bits `[0, m)`.
pub open spec fn fp_rec(g: Seq<u8>, m: int) -> u64
    decreases m,
{
    if m <= 0 {
        0u64
    } else if bit_set(g, m - 1) {
        fp_rec(g, m - 1) | (1u64 << ((m - 1) as u64))
    } else {
        fp_rec(g, m - 1)
    }
}

/// The perceptual fingerprint of a 32x32 luma grid: bit `i` records
/// whether transform coefficient `i` lies above the average of
/// coefficients `1..64`.
pub open spec fn fingerprint_of(g: Seq<u8>) -> u64 {
    fp_rec(g, 64)
}

proof fn lemma_nibble_range(x: u64, s: u64)
    by (bit_vector)
    ensures
        ((x >> s) & 0xf) < 16,
{
}

/// The hex rendering is injective: two fingerprints with the same
/// rendering are the same value.
pub proof fn lemma_hex_injective(t1: u64, t2: u64)
    requires
        hex_of(t1) == hex_of(t2),
    ensures
        t1 == t2,
{
    assert forall|i: int| 0 <= i < 16 implies nibble(t1, i) == nibble(t2, i) by {
        assert(hex_of(t1)[i] == hex_digit(nibble(t1, i)));
        assert(hex_of(t2)[i] == hex_digit(nibble(t2, i)));
        lemma_nibble_range(t1, ((15 - i) * 4) as u64);
        lemma_nibble_range(t2, ((15 - i) * 4) as u64);
    }
    assert(nibble(t1, 0) == nibble(t2, 0));
    assert(nibble(t1, 1) == nibble(t2, 1));
    assert(nibble(t1, 2) == nibble(t2, 2));
    assert(nibble(t1, 3) == nibble(t2, 3));
    assert(nibble(t1, 4) == nibble(t2, 4));
    assert(nibble(t1, 5) == nibble(t2, 5));
    assert(nibble(t1, 6) == nibble(t2, 6));
    assert(nibble(t1, 7) == nibble(t2, 7));
    assert(nibble(t1, 8) == nibble(t2, 8));
    assert(nibble(t1, 9) == nibble(t2, 9));
    assert(nibble(t1, 10) == nibble(t2, 10));
    assert(nibble(t1, 11) == nibble(t2, 11));
    assert(nibble(t1, 12) == nibble(t2, 12));
    assert(nibble(t1, 13) == nibble(t2, 13));
    assert(nibble(t1, 14) == nibble(t2, 14));
    assert(nibble(t1, 15) == nibble(t2, 15));
    assert(t1 == t2) by (bit_vector)
        requires
            (t1 >> 60u64) & 0xf == (t2 >> 60u64) & 0xf,
            (t1 >> 56u64) & 0xf == (t2 >> 56u64) & 0xf,
            (t1 >> 52u64) & 0xf == (t2 >> 52u64) & 0xf,
            (t1 >> 48u64) & 0xf == (t2 >> 48u64) & 0xf,
            (t1 >> 44u64) & 0xf == (t2 >> 44u64) & 0xf,
            (t1 >> 40u64) & 0xf == (t2 >> 40u64) & 0xf,
            (t1 >> 36u64) & 0xf == (t2 >> 36u64) & 0xf,
            (t1 >> 32u64) & 0xf == (t2 >> 32u64) & 0xf,
            (t1 >> 28u64) & 0xf == (t2 >> 28u64) & 0xf,
            (t1 >> 24u64) & 0xf == (t2 >> 24u64) & 0xf,
            (t1 >> 20u64) & 0xf == (t2 >> 20u64) & 0xf,
            (t1 >> 16u64) & 0xf == (t2 >> 16u64) & 0xf,
            (t1 >> 12u64) & 0xf == (t2 >> 12u64) & 0xf,
            (t1 >> 8u64) & 0xf == (t2 >> 8u64) & 0xf,
            (t1 >> 4u64) & 0xf == (t2 >> 4u64) & 0xf,
            (t1 >> 0u64) & 0xf == (t2 >> 0u64) & 0xf,
    ;
}

/// Whether bit `i` of `x` is set.

pub open spec fn bit_at(x: u64, i: int) -> bool {
    (x >> (i as u64)) & 1 == 1
}

/// The number of set bits among bits `0..n` of `x`.
pub open spec fn count_bits(x: u64, n: int) -> int
    decreases n,
{
    if n <= 0 {
        0
    } else {
        count_bits(x, n - 1) + if bit_at(x, n - 1) {
            1int
        } else {
            0int
        }
    }
}

/// The Hamming distance between two fingerprints: how many of the 64 bit
/// positions differ.
pub open spec fn hamming(a: u64, b: u64) -> int {
    count_bits(a ^ b, 64)
}

/// The similarity decision: fingerprints at Hamming distance below the
/// threshold belong to the same duplicate group.
pub open spec fn spec_similar(a: u64, b: u64) -> bool {
    hamming(a, b) < SIMILARITY_THRESHOLD
}

proof fn lemma_count_bits_zero(n: int)
    ensures
        count_bits(0, n) == 0,
    decreases n,
{
    if n > 0 {
        lemma_count_bits_zero(n - 1);
        let s = (n - 1) as u64;
        assert((0u64 >> s) & 1 != 1) by (bit_vector);
    }
}

proof fn lemma_count_bits_bounds(x: u64, n: int)
    ensures
        0 <= count_bits(x, n) <= if n >= 0 {
            n
        } else {
            0
        },
    decreases n,
{
    if n > 0 {
        lemma_count_bits_bounds(x, n - 1);
    }
}

/// The distance between any two fingerprints lies in `[0, 64]`.
pub proof fn lemma_distance_bounds(a: u64, b: u64)
    ensures
        0 <= hamming(a, b) <= 64,
{
    lemma_count_bits_bounds(a ^ b, 64);
}

/// The distance from a fingerprint to itself is zero.
pub proof fn lemma_distance_self_zero(a: u64)
    ensures
        hamming(a, a) == 0,
{
    assert(a ^ a == 0) by (bit_vector);
    lemma_count_bits_zero(64);
}

/// Distance is symmetric: comparing in either order gives the same count.
pub proof fn lemma_distance_symmetric(a: u64, b: u64)
    ensures
        hamming(a, b) == hamming(b, a),
{
    assert(a ^ b == b ^ a) by (bit_vector);
}

/// Every fingerprint is similar to itself.
pub proof fn lemma_self_similar(a: u64)
    ensures
        spec_similar(a, a),
{
    lemma_distance_self_zero(a);
}

/// The threshold is strict: distance 7 is similar, distance 8 is not.
pub proof fn lemma_threshold_boundary(a: u64, b: u64)
    ensures
        hamming(a, b) == 7 ==> spec_similar(a, b),
        hamming(a, b) == 8 ==> !spec_similar(a, b),
{
}

/// The one-character string holding the hex digit for `nib`.
fn hex_digit_str(nib: u64) -> (r: &'static str)
    requires
        nib < 16,
    ensures
        r@ =~= seq![hex_digit(nib)],
{
    proof {
        reveal_strlit("0");
        reveal_strlit("1");
        reveal_strlit("2");
        reveal_strlit("3");
        reveal_strlit("4");
        reveal_strlit("5");
        reveal_strlit("6");
        reveal_strlit("7");
        reveal_strlit("8");
        reveal_strlit("9");
        reveal_strlit("a");
        reveal_strlit("b");
        reveal_strlit("c");
        reveal_strlit("d");
        reveal_strlit("e");
        reveal_strlit("f");
    }
    if nib == 0 {
        "0"
    } else if nib == 1 {
        "1"
    } else if nib == 2 {
        "2"
    } else if nib == 3 {
        "3"
    } else if nib == 4 {
        "4"
    } else if nib == 5 {
        "5"
    } else if nib == 6 {
        "6"
    } else if nib == 7 {
        "7"
    } else if nib == 8 {
        "8"
    } else if nib == 9 {
        "9"
    } else if nib == 10 {
        "a"
    } else if nib == 11 {
        "b"
    } else if nib == 12 {
        "c"
    } else if nib == 13 {
        "d"
    } else if nib == 14 {
        "e"
    } else {
        "f"
    }
}

proof fn lemma_term_bound(g: Seq<u8>, k1: int, k2: int, n1: int, n2: int)
    ensures
        -137438953472 <= term(g, k1, k2, n1, n2) <= 137438953472,
{
    let a = ct(n1, k1);
    let b = ct(n2, k2);
    let q = px(g, n1, n2);
    assert(-1073741824 <= a * b <= 1073741824 && -137438953472 <= a * b * q <= 137438953472)
        by (nonlinear_arith)
        requires
            -32768 <= a <= 32767,
            -32768 <= b <= 32767,
            -128 <= q <= 127,
    ;
}

proof fn lemma_row_sum_bound(g: Seq<u8>, k1: int, k2: int, n1: int, m: int)
    requires
        0 <= m,
    ensures
        -m * 137438953472 <= row_sum(g, k1, k2, n1, m) <= m * 137438953472,
    decreases m,
{
    if m > 0 {
        lemma_row_sum_bound(g, k1, k2, n1, m - 1);
        lemma_term_bound(g, k1, k2, n1, m - 1);
    }
}

proof fn lemma_col_sum_bound(g: Seq<u8>, k1: int, k2: int, m: int)
    requires
        0 <= m,
    ensures
        -m * 4398046511104 <= col_sum(g, k1, k2, m) <= m * 4398046511104,
    decreases m,
{
    if m > 0 {
        lemma_col_sum_bound(g, k1, k2, m - 1);
        lemma_row_sum_bound(g, k1, k2, m - 1, 32);
    }
}

proof fn lemma_coef_bound(g: Seq<u8>, i: int)
    ensures
        -140737488355328 <= coef(g, i) <= 140737488355328,
{
    lemma_col_sum_bound(g, i / 8, i % 8, 32);
}

proof fn lemma_total_bound(g: Seq<u8>, m: int)
    requires
        1 <= m <= 64,
    ensures
        -(m - 1) * 140737488355328 <= coef_total(g, m) <= (m - 1) * 140737488355328,
    decreases m,
{
    if m > 1 {
        lemma_total_bound(g, m - 1);
        lemma_coef_bound(g, m - 1);
    }
}

/// A decoded image reduced to what the fingerprint reads: a 32x32 grid of
/// luma samples, entry `32*x + y` holding the intensity of pixel `(x, y)`.
pub struct LumaGrid {
    pixels: Vec<u8>,
}

impl View for LumaGrid {
    type V = Seq<u8>;

    closed spec fn view(&self) -> Seq<u8> {
        self.pixels@
    }
}

impl LumaGrid {
    #[verifier::type_invariant]
    closed spec fn wf(&self) -> bool {
        self.pixels@.len() == 1024
    }

    /// Wraps a pixel buffer as a grid; anything but exactly 1024 samples
    /// is rejected.
    pub fn new(pixels: Vec<u8>) -> (r: Option<LumaGrid>)
        ensures
            r is Some <==> pixels@.len() == 1024,
            r matches Some(g) ==> g@ == pixels@,
    {
        if pixels.len() == 1024 {
            Some(LumaGrid { pixels })
        } else {
            None
        }
    }

    /// The number of luma samples; always 1024.
    pub fn len(&self) -> (n: usize)
        ensures
            n == self@.len(),
            n == 1024,
    {
        proof {
            use_type_invariant(self);
        }
        self.pixels.len()
    }
}

/// The fixed-point cosine basis table as a runtime vector; its contents
/// are exactly `cos_table()`.
fn cosine_table() -> (t: Vec<i16>)
    ensures
        t@ =~= cos_table(),
{
    let t: Vec<i16> = vec![
        16384i16, 16364i16, 16305i16, 16207i16, 16069i16, 15893i16, 15679i16, 15426i16,
        16384i16, 16207i16, 15679i16, 14811i16, 13623i16, 12140i16, 10394i16, 8423i16,
        16384i16, 15893i16, 14449i16, 12140i16, 9102i16, 5520i16, 1606i16, -2404i16,
        16384i16, 15426i16, 12665i16, 8423i16, 3196i16, -2404i16, -7723i16, -12140i16,
        16384i16, 14811i16, 10394i16, 3981i16, -3196i16, -9760i16, -14449i16, -16364i16,
        16384i16, 14053i16, 7723i16, -804i16, -9102i16, -14811i16, -16305i16, -13160i16,
        16384i16, 13160i16, 4756i16, -5520i16, -13623i16, -16364i16, -12665i16, -3981i16,
        16384i16, 12140i16, 1606i16, -9760i16, -16069i16, -14053i16, -4756i16, 7005i16,
        16384i16, 11003i16, -1606i16, -13160i16, -16069i16, -8423i16, 4756i16, 14811i16,
        16384i16, 9760i16, -4756i16, -15426i16, -13623i16, -804i16, 12665i16, 15893i16,
        16384i16, 8423i16, -7723i16, -16364i16, -9102i16, 7005i16, 16305i16, 9760i16,
        16384i16, 7005i16, -10394i16, -15893i16, -3196i16, 13160i16, 14449i16, -804i16,
        16384i16, 5520i16, -12665i16, -14053i16, 3196i16, 16207i16, 7723i16, -11003i16,
        16384i16, 3981i16, -14449i16, -11003i16, 9102i16, 15426i16, -1606i16, -16207i16,
        16384i16, 2404i16, -15679i16, -7005i16, 13623i16, 11003i16, -10394i16, -14053i16,
        16384i16, 804i16, -16305i16, -2404i16, 16069i16, 3981i16, -15679i16, -5520i16,
        16384i16, -804i16, -16305i16, 2404i16, 16069i16, -3981i16, -15679i16, 5520i16,
        16384i16, -2404i16, -15679i16, 7005i16, 13623i16, -11003i16, -10394i16, 14053i16,
        16384i16, -3981i16, -14449i16, 11003i16, 9102i16, -15426i16, -1606i16, 16207i16,
        16384i16, -5520i16, -12665i16, 14053i16, 3196i16, -16207i16, 7723i16, 11003i16,
        16384i16, -7005i16, -10394i16, 15893i16, -3196i16, -13160i16, 14449i16, 804i16,
        16384i16, -8423i16, -7723i16, 16364i16, -9102i16, -7005i16, 16305i16, -9760i16,
        16384i16, -9760i16, -4756i16, 15426i16, -13623i16, 804i16, 12665i16, -15893i16,
        16384i16, -11003i16, -1606i16, 13160i16, -16069i16, 8423i16, 4756i16, -14811i16,
        16384i16, -12140i16, 1606i16, 9760i16, -16069i16, 14053i16, -4756i16, -7005i16,
        16384i16, -13160i16, 4756i16, 5520i16, -13623i16, 16364i16, -12665i16, 3981i16,
        16384i16, -14053i16, 7723i16, 804i16, -9102i16, 14811i16, -16305i16, 13160i16,
        16384i16, -14811i16, 10394i16, -3981i16, -3196i16, 9760i16, -14449i16, 16364i16,
        16384i16, -15426i16, 12665i16, -8423i16, 3196i16, 2404i16, -7723i16, 12140i16,
        16384i16, -15893i16, 14449i16, -12140i16, 9102i16, -5520i16, 1606i16, 2404i16,
        16384i16, -16207i16, 15679i16, -14811i16, 13623i16, -12140i16, 10394i16, -8423i16,
        16384i16, -16364i16, 16305i16, -16207i16, 16069i16, -15893i16, 15679i16, -15426i16,
    ];
    proof {
        assert(t@ =~= cos_table());
    }
    t
}

impl PHash {
    /// The Hamming distance between two fingerprints: the number of
    /// differing bit positions, always in `[0, 64]`.
    pub fn distance(&self, other: &PHash) -> (d: u32)
        ensures
            d == hamming(self.0, other.0),
            d <= 64,
    {
        let x = self.0 ^ other.0;
        let mut d: u32 = 0;
        let mut i: u64 = 0;
        while i < 64
            invariant
                i <= 64,
                d == count_bits(x, i as int),
                d <= i,
            decreases 64 - i,
        {
            if (x >> i) & 1 == 1 {
                d = d + 1;
            }
            i = i + 1;
        }
        d
    }

    /// The human-readable form of the fingerprint: 16 lowercase hex digits,
    /// zero-padded, most significant nibble first.
    pub fn hex(&self) -> (r: String)
        ensures
            r@ == hex_of(self.0),
    {
        let x = self.0;
        let mut s = String::new();
        let mut i: usize = 0;
        while i < 16
            invariant
                i <= 16,
                s@ =~= hex_of(x).take(i as int),
            decreases 16 - i,
        {
            let shift: u64 = ((15 - i) as u64) * 4;
            let nib: u64 = (x >> shift) & 0xf;
            proof {
                assert((x >> shift) & 0xf < 16) by (bit_vector);
            }
            s.append(hex_digit_str(nib));
            proof {
                assert(nib == nibble(x, i as int));
                assert(s@ =~= hex_of(x).take(i as int + 1));
            }
            i = i + 1;
        }
        proof {
            assert(hex_of(x).take(16) =~= hex_of(x));
        }
        s
    }

    /// Computes the perceptual fingerprint of a 32x32 luma grid: the
    /// top-left 8x8 block of the grid's discrete cosine transform is
    /// evaluated with a fixed-point cosine table, and bit `i` of the result
    /// records whether coefficient `i` reaches the average of coefficients
    /// `1..64`. A pure function of the pixel contents.
    pub fn new(grid: &LumaGrid) -> (r: PHash)
        ensures
            r.0 == fingerprint_of(grid@),
    {
        proof {
            use_type_invariant(grid);
        }
        let table: Vec<i16> = cosine_table();
        let g: &Vec<u8> = &grid.pixels;
        let ghost gs: Seq<u8> = grid@;

        // the 64 transform coefficients, by flat index 8*k1 + k2
        let mut t: Vec<i64> = Vec::new();
        let mut i: usize = 0;
        while i < 64
            invariant
                i <= 64,
                t@.len() == i,
                table@ == cos_table(),
                g@ == gs,
                g@.len() == 1024,
                forall|j: int| 0 <= j < i ==> #[trigger] t@[j] == coef(gs, j),
                forall|j: int|
                    0 <= j < i ==> -140737488355328 <= #[trigger] t@[j] <= 140737488355328,
            decreases 64 - i,
        {
            let k1 = i / 8;
            let k2 = i % 8;
            let mut acc: i64 = 0;
            let mut n1: usize = 0;
            while n1 < 32
                invariant
                    n1 <= 32,
                    k1 < 8,
                    k2 < 8,
                    table@ == cos_table(),
                    g@ == gs,
                    g@.len() == 1024,
                    acc == col_sum(gs, k1 as int, k2 as int, n1 as int),
                    -(n1 as int) * 4398046511104 <= acc <= (n1 as int) * 4398046511104,
                decreases 32 - n1,
            {
                let mut n2: usize = 0;
                while n2 < 32
                    invariant
                        n2 <= 32,
                        n1 < 32,
                        k1 < 8,
                        k2 < 8,
                        table@ == cos_table(),
                        g@ == gs,
                        g@.len() == 1024,
                        acc == col_sum(gs, k1 as int, k2 as int, n1 as int) + row_sum(
                            gs,
                            k1 as int,
                            k2 as int,
                            n1 as int,
                            n2 as int,
                        ),
                        -((n1 as int) * 32 + n2 as int) * 137438953472 <= acc <= ((n1 as int) * 32
                            + n2 as int) * 137438953472,
                    decreases 32 - n2,
                {
                    let c1 = table[8 * n1 + k1];
                    let c2 = table[8 * n2 + k2];
                    let p = g[32 * n1 + n2];
                    proof {
                        let a = c1 as int;
                        let b = c2 as int;
                        let q = p - 128;
                        assert(-1073741824 <= a * b <= 1073741824 && -137438953472 <= a * b * q
                            <= 137438953472) by (nonlinear_arith)
                            requires
                                -32768 <= a <= 32767,
                                -32768 <= b <= 32767,
                                -128 <= q <= 127,
                        ;
                        assert(a == ct(n1 as int, k1 as int));
                        assert(b == ct(n2 as int, k2 as int));
                        assert(q == px(gs, n1 as int, n2 as int));
                    }
                    let term_v: i64 = (c1 as i64) * (c2 as i64) * ((p as i64) - 128);
                    acc = acc + term_v;
                    n2 = n2 + 1;
                }
                n1 = n1 + 1;
            }
            proof {
                assert(acc == coef(gs, i as int));
            }
            t.push(acc);
            i = i + 1;
        }

        // the average over coefficients 1..64, kept as their plain sum
        let mut total: i64 = 0;
        let mut j: usize = 1;
        while j < 64
            invariant
                1 <= j <= 64,
                t@.len() == 64,
                forall|k: int| 0 <= k < 64 ==> #[trigger] t@[k] == coef(gs, k),
                forall|k: int|
                    0 <= k < 64 ==> -140737488355328 <= #[trigger] t@[k] <= 140737488355328,
                total == coef_total(gs, j as int),
                -(j as int - 1) * 140737488355328 <= total <= (j as int - 1) * 140737488355328,
            decreases 64 - j,
        {
            total = total + t[j];
            j = j + 1;
        }

        // one bit per coefficient: set when `t[b] >= total / 63`, compared
        // exactly as `63 * t[b] >= total`
        let mut hash: u64 = 0;
        let mut b: usize = 0;
        while b < 64
            invariant
                b <= 64,
                t@.len() == 64,
                forall|k: int| 0 <= k < 64 ==> #[trigger] t@[k] == coef(gs, k),
                forall|k: int|
                    0 <= k < 64 ==> -140737488355328 <= #[trigger] t@[k] <= 140737488355328,
                total == coef_total(gs, 64),
                hash == fp_rec(gs, b as int),
            decreases 64 - b,
        {
            let c = t[b];
            if 63 * c >= total {
                hash = hash | (1u64 << (b as u64));
            }
            b = b + 1;
        }
        PHash(hash)
    }

    /// The similarity decision on a distance value: true exactly when the
    /// distance is below the threshold of 8.
    pub fn is_similar(distance: u32) -> (r: bool)
        ensures
            r == (distance < SIMILARITY_THRESHOLD),
    {
        distance < SIMILARITY_THRESHOLD
    }
}

} // verus!
