//! Classification of file names as images by their extension.
//!
//! A file counts as an image when its name, compared case-insensitively,
//! ends with one of a fixed set of extensions. The extensions are ASCII,
//! so case-insensitivity means that an uppercase ASCII letter in the name
//! matches its lowercase counterpart in the extension.

use vstd::prelude::*;

verus! {

/// True when the name character `c` matches the extension character `l`,
/// where `l` is taken as written in the extension set (lowercase letters
/// and punctuation): either the characters are equal, or `l` is a lowercase
/// ASCII letter and `c` is its uppercase form.
pub open spec fn lower_matches(c: char, l: char) -> bool {
    c == l || ('a' as int <= l as int && l as int <= 'z' as int && c as int + 32 == l as int)
}

/// True when `name` ends with `ext`, comparing each character
/// case-insensitively in the sense of `lower_matches`.
pub open spec fn suffix_matches(name: Seq<char>, ext: Seq<char>) -> bool {
    &&& ext.len() <= name.len()
    &&& forall|i: int|
        0 <= i < ext.len() ==> #[trigger] lower_matches(
            name[name.len() - ext.len() + i],
            ext[i],
        )
}

/// The fixed set of image extensions, as written (lowercase).
pub open spec fn image_extensions() -> Seq<Seq<char>> {
    seq![
        ".jpg"@,
        ".jpeg"@,
        ".dng"@,
        ".pef"@,
        ".nef"@,
        ".cr2"@,
        ".raf"@,
        ".tif"@,
        ".tiff"@,
    ]
}

/// A file name denotes an image exactly when it ends, case-insensitively,
/// with one of the fixed image extensions.
pub open spec fn is_image_name(name: Seq<char>) -> bool {
    exists|k: int|
        0 <= k < image_extensions().len() && suffix_matches(name, #[trigger] image_extensions()[k])
}

/// True when `c` matches `l` in the sense of `lower_matches`.
fn char_lower_matches(c: char, l: char) -> (r: bool)
    ensures
        r == lower_matches(c, l),
{
    let cu = c as u32;
    let lu = l as u32;
    cu == lu || ('a' as u32 <= lu && lu <= 'z' as u32 && cu + 32 == lu)
}

/// True when `name` ends with `ext`, case-insensitively.
fn has_suffix_ci(name: &str, ext: &str) -> (r: bool)
    ensures
        r == suffix_matches(name@, ext@),
{
    let n = name.unicode_len();
    let m = ext.unicode_len();
    if m > n {
        return false;
    }
    let mut k: usize = 0;
    while k < m
        invariant
            k <= m,
            m <= n,
            n == name@.len(),
            m == ext@.len(),
            forall|i: int|
                0 <= i < k ==> #[trigger] lower_matches(name@[n - m + i], ext@[i]),
        decreases m - k,
    {
        let c = name.get_char(n - m + k);
        let l = ext.get_char(k);
        if !char_lower_matches(c, l) {
            assert(!lower_matches(name@[n - m + k], ext@[k as int]));
            return false;
        }
        k += 1;
    }
    true
}

/// Classifies a file name: true exactly when the name ends,
/// case-insensitively, with one of the fixed image extensions.
pub fn is_image(name: &str) -> (r: bool)
    ensures
        r == is_image_name(name@),
{
    let r = has_suffix_ci(name, ".jpg") || has_suffix_ci(name, ".jpeg") || has_suffix_ci(
        name,
        ".dng",
    ) || has_suffix_ci(name, ".pef") || has_suffix_ci(name, ".nef") || has_suffix_ci(name, ".cr2")
        || has_suffix_ci(name, ".raf") || has_suffix_ci(name, ".tif") || has_suffix_ci(
        name,
        ".tiff",
    );
    proof {
        if r {
            assert(is_image_name(name@)) by {
                if suffix_matches(name@, ".jpg"@) {
                    assert(suffix_matches(name@, image_extensions()[0]));
                } else if suffix_matches(name@, ".jpeg"@) {
                    assert(suffix_matches(name@, image_extensions()[1]));
                } else if suffix_matches(name@, ".dng"@) {
                    assert(suffix_matches(name@, image_extensions()[2]));
                } else if suffix_matches(name@, ".pef"@) {
                    assert(suffix_matches(name@, image_extensions()[3]));
                } else if suffix_matches(name@, ".nef"@) {
                    assert(suffix_matches(name@, image_extensions()[4]));
                } else if suffix_matches(name@, ".cr2"@) {
                    assert(suffix_matches(name@, image_extensions()[5]));
                } else if suffix_matches(name@, ".raf"@) {
                    assert(suffix_matches(name@, image_extensions()[6]));
                } else if suffix_matches(name@, ".tif"@) {
                    assert(suffix_matches(name@, image_extensions()[7]));
                } else {
                    assert(suffix_matches(name@, image_extensions()[8]));
                }
            }
        } else {
            assert(!is_image_name(name@)) by {
                assert forall|k: int| 0 <= k < image_extensions().len() implies !suffix_matches(
                    name@,
                    #[trigger] image_extensions()[k],
                ) by {
                    if k == 0 {
                        assert(image_extensions()[0] == ".jpg"@);
                    } else if k == 1 {
                        assert(image_extensions()[1] == ".jpeg"@);
                    } else if k == 2 {
                        assert(image_extensions()[2] == ".dng"@);
                    } else if k == 3 {
                        assert(image_extensions()[3] == ".pef"@);
                    } else if k == 4 {
                        assert(image_extensions()[4] == ".nef"@);
                    } else if k == 5 {
                        assert(image_extensions()[5] == ".cr2"@);
                    } else if k == 6 {
                        assert(image_extensions()[6] == ".raf"@);
                    } else if k == 7 {
                        assert(image_extensions()[7] == ".tif"@);
                    } else {
                        assert(image_extensions()[8] == ".tiff"@);
                    }
                }
            }
        }
    }
    r
}

/// `v` is a case variant of the extension `e`: the same length, each
/// character equal to, or the uppercase form of, the one in `e`.
pub open spec fn case_variant(v: Seq<char>, e: Seq<char>) -> bool {
    v.len() == e.len() && forall|i: int| 0 <= i < e.len() ==> #[trigger] lower_matches(v[i], e[i])
}

/// Law: for every file name `f` and every extension `e` of the fixed set,
/// `f` followed by any case variant of `e` is classified as an image.
pub proof fn lemma_extension_classification(f: Seq<char>, v: Seq<char>, e: Seq<char>)
    requires
        image_extensions().contains(e),
        case_variant(v, e),
    ensures
        is_image_name(f + v),
{
    let k = choose|k: int| 0 <= k < image_extensions().len() && image_extensions()[k] == e;
    assert(suffix_matches(f + v, e)) by {
        assert forall|i: int| 0 <= i < e.len() implies lower_matches(
            (f + v)[(f + v).len() - e.len() + i],
            e[i],
        ) by {
            assert((f + v)[f.len() + i] == v[i]);
            assert(lower_matches(v[i], e[i]));
        }
    }
    assert(suffix_matches(f + v, image_extensions()[k]));
}

/// Law: a name ending in ".txt" is never classified as an image, whatever
/// comes before the suffix.
pub proof fn lemma_txt_not_image(f: Seq<char>)
    ensures
        !is_image_name(f + ".txt"@),
{
    reveal_strlit(".txt");
    let name = f + ".txt"@;
    assert(name[name.len() - 1] == 't');
    lemma_last_char_rules_out(name, 't');
}

/// Law: a near-miss such as ".jpga", which merely contains an image
/// extension without ending in one, is not classified as an image.
pub proof fn lemma_near_miss_not_image(f: Seq<char>)
    ensures
        !is_image_name(f + ".jpga"@),
{
    reveal_strlit(".jpga");
    let name = f + ".jpga"@;
    assert(name[name.len() - 1] == 'a');
    lemma_last_char_rules_out(name, 'a');
}

/// Law: a name without any dot — no extension at all — is not classified
/// as an image, since every extension of the fixed set starts with a dot.
pub proof fn lemma_no_dot_not_image(f: Seq<char>)
    requires
        forall|i: int| 0 <= i < f.len() ==> f[i] != '.',
    ensures
        !is_image_name(f),
{
    reveal_strlit(".jpg");
    reveal_strlit(".jpeg");
    reveal_strlit(".dng");
    reveal_strlit(".pef");
    reveal_strlit(".nef");
    reveal_strlit(".cr2");
    reveal_strlit(".raf");
    reveal_strlit(".tif");
    reveal_strlit(".tiff");
    assert forall|k: int| 0 <= k < image_extensions().len() implies !suffix_matches(
        f,
        #[trigger] image_extensions()[k],
    ) by {
        let e = image_extensions()[k];
        lemma_extension_shape(k);
        if suffix_matches(f, e) {
            let j = f.len() - e.len();
            assert(lower_matches(f[j + 0], e[0]));
            assert(f[j] != '.');
            assert(false);
        }
    }
}

/// Every extension of the fixed set is non-empty, starts with a dot, and
/// ends with 'g', 'f' or '2'.
proof fn lemma_extension_shape(k: int)
    requires
        0 <= k < image_extensions().len(),
    ensures
        image_extensions()[k].len() >= 1,
        image_extensions()[k][0] == '.',
        image_extensions()[k].last() == 'g' || image_extensions()[k].last() == 'f'
            || image_extensions()[k].last() == '2',
{
    reveal_strlit(".jpg");
    reveal_strlit(".jpeg");
    reveal_strlit(".dng");
    reveal_strlit(".pef");
    reveal_strlit(".nef");
    reveal_strlit(".cr2");
    reveal_strlit(".raf");
    reveal_strlit(".tif");
    reveal_strlit(".tiff");
    if k == 0 {
        assert(image_extensions()[0] == ".jpg"@);
    } else if k == 1 {
        assert(image_extensions()[1] == ".jpeg"@);
    } else if k == 2 {
        assert(image_extensions()[2] == ".dng"@);
    } else if k == 3 {
        assert(image_extensions()[3] == ".pef"@);
    } else if k == 4 {
        assert(image_extensions()[4] == ".nef"@);
    } else if k == 5 {
        assert(image_extensions()[5] == ".cr2"@);
    } else if k == 6 {
        assert(image_extensions()[6] == ".raf"@);
    } else if k == 7 {
        assert(image_extensions()[7] == ".tif"@);
    } else {
        assert(image_extensions()[8] == ".tiff"@);
    }
}

/// A name whose last character is `c`, with `c` matching no extension's
/// last character even case-insensitively, is not an image name.
proof fn lemma_last_char_rules_out(name: Seq<char>, c: char)
    requires
        name.len() >= 1,
        name[name.len() - 1] == c,
        !lower_matches(c, 'g'),
        !lower_matches(c, 'f'),
        !lower_matches(c, '2'),
    ensures
        !is_image_name(name),
{
    assert forall|k: int| 0 <= k < image_extensions().len() implies !suffix_matches(
        name,
        #[trigger] image_extensions()[k],
    ) by {
        let e = image_extensions()[k];
        lemma_extension_shape(k);
        if suffix_matches(name, e) {
            let i = e.len() - 1;
            assert(lower_matches(name[name.len() - e.len() + i], e[i]));
            assert(name[name.len() - 1] == c);
            assert(false);
        }
    }
}

} // verus!
