//! Format recognition from file extensions and the deterministic output
//! naming scheme for members of a duplicate group.

use vstd::prelude::*;

use crate::phash::{hex_of, PHash};

verus! {

/// The recognized input image formats.
#[derive(Clone, Copy, PartialEq, Eq, Structural, Debug)]
pub enum ImageFormat {
    Gif,
    Png,
    Jpeg,
    Webp,
}

/// The code point of `c` after ASCII lowercasing: letters `A..Z` map 32
/// code points up, everything else is unchanged.
pub open spec fn lower_code(c: char) -> int {
    if 65 <= c as u32 <= 90 {
        c as u32 + 32
    } else {
        c as u32 as int
    }
}

/// Whether `s`, lowercased ASCII-wise, spells exactly the (already
/// lowercase) pattern `pat`.
pub open spec fn matches_ci(s: Seq<char>, pat: Seq<char>) -> bool {
    s.len() == pat.len() && forall|i: int|
        0 <= i < s.len() ==> lower_code(s[i]) == #[trigger] pat[i] as int
}

/// The format recognized from a file extension, compared
/// case-insensitively; aliases (`jpg`, `jpeg`, `jpe`) and `-large`
/// variants map to one canonical format. Anything else is unrecognized.
pub open spec fn spec_supported(ext: Seq<char>) -> Option<ImageFormat> {
    if matches_ci(ext, "gif"@) {
        Some(ImageFormat::Gif)
    } else if matches_ci(ext, "png"@) || matches_ci(ext, "png-large"@) {
        Some(ImageFormat::Png)
    } else if matches_ci(ext, "jpg"@) || matches_ci(ext, "jpeg"@) || matches_ci(ext, "jpe"@)
        || matches_ci(ext, "jpg-large"@) {
        Some(ImageFormat::Jpeg)
    } else if matches_ci(ext, "webp"@) {
        Some(ImageFormat::Webp)
    } else {
        None
    }
}

/// Case-insensitive comparison of `s` against a lowercase pattern.
fn eq_ci(s: &str, pat: &str) -> (r: bool)
    ensures
        r == matches_ci(s@, pat@),
{
    let n = s.unicode_len();
    let m = pat.unicode_len();
    if n != m {
        return false;
    }
    let mut i: usize = 0;
    while i < n
        invariant
            i <= n,
            n == s@.len(),
            n == pat@.len(),
            forall|j: int| 0 <= j < i ==> lower_code(s@[j]) == #[trigger] pat@[j] as int,
        decreases n - i,
    {
        let c = s.get_char(i);
        let p = pat.get_char(i);
        let cc = c as u32;
        let lc: u32 = if 65 <= cc && cc <= 90 {
            cc + 32
        } else {
            cc
        };
        if lc != p as u32 {
            return false;
        }
        i = i + 1;
    }
    true
}

/// Extension-based detection of the input file's format.
pub fn supported_extension(ext: &str) -> (r: Option<ImageFormat>)
    ensures
        r == spec_supported(ext@),
{
    if eq_ci(ext, "gif") {
        Some(ImageFormat::Gif)
    } else if eq_ci(ext, "png") || eq_ci(ext, "png-large") {
        Some(ImageFormat::Png)
    } else if eq_ci(ext, "jpg") || eq_ci(ext, "jpeg") || eq_ci(ext, "jpe") || eq_ci(
        ext,
        "jpg-large",
    ) {
        Some(ImageFormat::Jpeg)
    } else if eq_ci(ext, "webp") {
        Some(ImageFormat::Webp)
    } else {
        None
    }
}

/// The canonical extension written for each recognized format.
pub open spec fn ext_chars(f: ImageFormat) -> Seq<char> {
    match f {
        ImageFormat::Gif => "gif"@,
        ImageFormat::Png => "png"@,
        ImageFormat::Jpeg => "jpg"@,
        ImageFormat::Webp => "webp"@,
    }
}

/// The canonical extension string for a recognized format.
pub fn extension_str(f: ImageFormat) -> (r: &'static str)
    ensures
        r@ == ext_chars(f),
{
    match f {
        ImageFormat::Gif => "gif",
        ImageFormat::Png => "png",
        ImageFormat::Jpeg => "jpg",
        ImageFormat::Webp => "webp",
    }
}

/// The decimal digit character for a value below 10.
pub open spec fn dec_digit(n: int) -> char {
    if n == 0 {
        '0'
    } else if n == 1 {
        '1'
    } else if n == 2 {
        '2'
    } else if n == 3 {
        '3'
    } else if n == 4 {
        '4'
    } else if n == 5 {
        '5'
    } else if n == 6 {
        '6'
    } else if n == 7 {
        '7'
    } else if n == 8 {
        '8'
    } else {
        '9'
    }
}

/// The decimal rendering of `v`, most significant digit first, with no
/// leading zeros (a single `0` for zero itself).
pub open spec fn dec_of(v: int) -> Seq<char>
    decreases v,
{
    if v < 10 {
        seq![dec_digit(v)]
    } else {
        dec_of(v / 10).push(dec_digit(v % 10))
    }
}

/// The one-character string holding the decimal digit for `d`.
fn dec_digit_str(d: u32) -> (r: &'static str)
    requires
        d < 10,
    ensures
        r@ =~= seq![dec_digit(d as int)],
{
    proof {
        reveal_strlit("0");
        reveal_strlit("1");
        reveal_strlit("2");
        reveal_strlit("3");
        reveal_strlit("4");
        reveal_strlit("5");
        reveal_strlit("6");
        reveal_strlit("7");
        reveal_strlit("8");
        reveal_strlit("9");
    }
    if d == 0 {
        "0"
    } else if d == 1 {
        "1"
    } else if d == 2 {
        "2"
    } else if d == 3 {
        "3"
    } else if d == 4 {
        "4"
    } else if d == 5 {
        "5"
    } else if d == 6 {
        "6"
    } else if d == 7 {
        "7"
    } else if d == 8 {
        "8"
    } else {
        "9"
    }
}

/// Appends the decimal rendering of `v` to `s`.
fn push_decimal(s: &mut String, v: u32)
    ensures
        final(s)@ == old(s)@ + dec_of(v as int),
    decreases v,
{
    if v < 10 {
        s.append(dec_digit_str(v));
        proof {
            assert(final(s)@ =~= old(s)@ + dec_of(v as int));
        }
    } else {
        push_decimal(s, v / 10);
        s.append(dec_digit_str(v % 10));
        proof {
            assert(final(s)@ =~= old(s)@ + dec_of(v as int));
        }
    }
}

/// The output basename before the extension: the canonical fingerprint's
/// hex form alone for the canonical member (`version == 0`), and
/// `canonical-version-member` for every other member.
pub open spec fn spec_stem(canon: u64, this: u64, version: u32) -> Seq<char> {
    if version == 0 {
        hex_of(canon)
    } else {
        hex_of(canon) + seq!['-'] + dec_of(version as int) + seq!['-'] + hex_of(this)
    }
}

/// The full output filename: the stem, then a dot and the canonical
/// extension when the input format was recognized.
pub open spec fn spec_filename(canon: u64, this: u64, version: u32, format: Option<
    ImageFormat,
>) -> Seq<char> {
    match format {
        Some(f) => spec_stem(canon, this, version) + seq!['.'] + ext_chars(f),
        None => spec_stem(canon, this, version),
    }
}

proof fn lemma_dec_digits(v: int)
    requires
        v >= 0,
    ensures
        forall|j: int|
            0 <= j < dec_of(v).len() ==> 48 <= (#[trigger] dec_of(v)[j]) as u32 <= 57,
    decreases v,
{
    if v >= 10 {
        lemma_dec_digits(v / 10);
        assert forall|j: int| 0 <= j < dec_of(v).len() implies 48 <= (#[trigger] dec_of(
            v,
        )[j]) as u32 <= 57 by {
            if j < dec_of(v / 10).len() {
                assert(dec_of(v)[j] == dec_of(v / 10)[j]);
            } else {
                assert(dec_of(v)[j] == dec_digit(v % 10));
            }
        }
    }
}

proof fn lemma_dec_injective(v1: int, v2: int)
    requires
        v1 >= 0,
        v2 >= 0,
        v1 != v2,
    ensures
        dec_of(v1) != dec_of(v2),
    decreases v1 + v2,
{
    if v1 < 10 && v2 < 10 {
        assert(dec_of(v1)[0] == dec_digit(v1));
        assert(dec_of(v2)[0] == dec_digit(v2));
        assert(dec_digit(v1) != dec_digit(v2));
    } else if v1 < 10 {
        assert(dec_of(v1).len() == 1);
        assert(dec_of(v2).len() == dec_of(v2 / 10).len() + 1);
        assert(dec_of(v2 / 10).len() >= 1);
    } else if v2 < 10 {
        assert(dec_of(v2).len() == 1);
        assert(dec_of(v1).len() == dec_of(v1 / 10).len() + 1);
        assert(dec_of(v1 / 10).len() >= 1);
    } else {
        if dec_of(v1) == dec_of(v2) {
            assert(dec_of(v1).last() == dec_digit(v1 % 10));
            assert(dec_of(v2).last() == dec_digit(v2 % 10));
            assert(v1 % 10 == v2 % 10);
            assert(dec_of(v1).drop_last() =~= dec_of(v1 / 10));
            assert(dec_of(v2).drop_last() =~= dec_of(v2 / 10));
            if v1 / 10 != v2 / 10 {
                lemma_dec_injective(v1 / 10, v2 / 10);
            }
            assert(v1 == 10 * (v1 / 10) + v1 % 10);
            assert(false);
        }
    }
}

/// Within one group, members with different rank values never collide:
/// the part of the output name before the extension differs whenever the
/// ranks differ, whatever the fingerprints involved.
pub proof fn lemma_stem_unique(canon: u64, t1: u64, t2: u64, v1: u32, v2: u32)
    requires
        v1 != v2,
    ensures
        spec_stem(canon, t1, v1) != spec_stem(canon, t2, v2),
{
    let s1 = spec_stem(canon, t1, v1);
    let s2 = spec_stem(canon, t2, v2);
    let d1 = dec_of(v1 as int);
    let d2 = dec_of(v2 as int);
    assert(d1.len() >= 1);
    assert(d2.len() >= 1);
    if v1 == 0 {
        assert(s1.len() == 16);
        assert(s2.len() == 34 + d2.len());
    } else if v2 == 0 {
        assert(s2.len() == 16);
        assert(s1.len() == 34 + d1.len());
    } else {
        if s1 == s2 {
            if d1.len() == d2.len() {
                lemma_dec_injective(v1 as int, v2 as int);
                assert(exists|j: int| 0 <= j < d1.len() && d1[j] != d2[j]) by {
                    if forall|j: int| 0 <= j < d1.len() ==> #[trigger] d1[j] == d2[j] {
                        assert(d1 =~= d2);
                    }
                }
                let j = choose|j: int| 0 <= j < d1.len() && d1[j] != d2[j];
                assert(s1[17 + j] == d1[j]);
                assert(s2[17 + j] == d2[j]);
                assert(false);
            } else if d1.len() < d2.len() {
                lemma_dec_digits(v2 as int);
                assert(s1[17 + d1.len() as int] == '-');
                assert(s2[17 + d1.len() as int] == d2[d1.len() as int]);
                assert('-' as u32 == 45);
                assert(false);
            } else {
                lemma_dec_digits(v1 as int);
                assert(s2[17 + d2.len() as int] == '-');
                assert(s1[17 + d2.len() as int] == d1[d2.len() as int]);
                assert('-' as u32 == 45);
                assert(false);
            }
        }
    }
}

/// Within one group, members holding distinct fingerprints never collide
/// at the same non-canonical rank: the member's own hex form closes the
/// name, and the hex rendering is injective.
pub proof fn lemma_stem_unique_fingerprint(canon: u64, t1: u64, t2: u64, v: u32)
    requires
        v != 0,
        t1 != t2,
    ensures
        spec_stem(canon, t1, v) != spec_stem(canon, t2, v),
{
    let s1 = spec_stem(canon, t1, v);
    let s2 = spec_stem(canon, t2, v);
    let d = dec_of(v as int);
    if s1 == s2 {
        // the member hex occupies the final 16 positions of the stem
        assert forall|j: int| 0 <= j < 16 implies hex_of(t1)[j] == hex_of(t2)[j] by {
            let off = 18 + d.len() as int;
            assert(s1[off + j] == hex_of(t1)[j]);
            assert(s2[off + j] == hex_of(t2)[j]);
        }
        assert(hex_of(t1) =~= hex_of(t2));
        crate::phash::lemma_hex_injective(t1, t2);
        assert(false);
    }
}

/// The output name of one group member: a pure function of the canonical
/// fingerprint, the member's own fingerprint, the member's rank within the
/// group, and the recognized input format.
pub fn new_filename(canon: &PHash, this: &PHash, version: u32, format: Option<ImageFormat>) -> (r:
    String)
    ensures
        r@ == spec_filename(canon.0, this.0, version, format),
{
    proof {
        reveal_strlit("-");
        reveal_strlit(".");
    }
    let mut s = canon.hex();
    if version != 0 {
        s.append("-");
        push_decimal(&mut s, version);
        s.append("-");
        let h = this.hex();
        s.append(h.as_str());
        proof {
            assert(s@ =~= spec_stem(canon.0, this.0, version));
        }
    }
    match format {
        Some(f) => {
            s.append(".");
            s.append(extension_str(f));
            proof {
                assert(s@ =~= spec_filename(canon.0, this.0, version, format));
            }
        },
        None => {
        },
    }
    s
}

} // verus!
