//! The filename grammar of the input directory: a file is named
//! `<base>_<SUFFIX>.<ext>`, possibly behind a directory prefix. This module
//! splits a path into file name, stem and extension, and a stem into the
//! base name and the suffix token (which keeps its leading underscore).

use vstd::prelude::*;

use crate::text::spec_decimal;
use crate::text::str_eq;
use crate::text::u64_to_string;
use vstd::string::StrSliceExecFns;
use vstd::string::StringExecFns;

verus! {

/// The last position in `s` holding `c1` or `c2`, or -1 if there is none.
pub open spec fn last_index_of_either(s: Seq<char>, c1: char, c2: char) -> int
    decreases s.len(),
{
    if s.len() == 0 {
        -1
    } else if s[s.len() - 1] == c1 || s[s.len() - 1] == c2 {
        s.len() - 1
    } else {
        last_index_of_either(s.drop_last(), c1, c2)
    }
}

/// What the last position found by `last_index_of_either` means: it is in
/// range, it holds one of the two characters, and nothing after it does.
pub proof fn lemma_last_index_of_either(s: Seq<char>, c1: char, c2: char)
    ensures
        -1 <= last_index_of_either(s, c1, c2) < s.len(),
        last_index_of_either(s, c1, c2) >= 0 ==> (s[last_index_of_either(s, c1, c2)] == c1
            || s[last_index_of_either(s, c1, c2)] == c2),
        forall|k: int|
            last_index_of_either(s, c1, c2) < k < s.len() ==> s[k] != c1 && s[k] != c2,
    decreases s.len(),
{
    if s.len() > 0 && s[s.len() - 1] != c1 && s[s.len() - 1] != c2 {
        lemma_last_index_of_either(s.drop_last(), c1, c2);
        assert(forall|k: int| 0 <= k < s.len() - 1 ==> s.drop_last()[k] == s[k]);
    }
}

/// The position after the last path separator in `s`; 0 when there is none.
pub open spec fn spec_name_start(s: Seq<char>) -> int {
    last_index_of_either(s, '/', '\\') + 1
}

/// The file-name part of a path: everything after the last path separator.
pub open spec fn spec_file_name(s: Seq<char>) -> Seq<char> {
    s.subrange(spec_name_start(s), s.len() as int)
}

/// The stem of a path: its file name up to the last dot, provided that dot
/// is preceded by at least one character; otherwise the whole file name.
pub open spec fn spec_stem(s: Seq<char>) -> Seq<char> {
    let f = spec_file_name(s);
    let d = last_index_of_either(f, '.', '.');
    if d <= 0 {
        f
    } else {
        f.subrange(0, d)
    }
}

/// The extension of a path: its file name after the last dot, provided that
/// dot is preceded by at least one character; otherwise there is none.
pub open spec fn spec_extension(s: Seq<char>) -> Option<Seq<char>> {
    let f = spec_file_name(s);
    let d = last_index_of_either(f, '.', '.');
    if d <= 0 {
        None
    } else {
        Some(f.subrange(d + 1, f.len() as int))
    }
}

/// Whether a path names a PNG file (extension exactly `png`).
pub open spec fn spec_is_png(s: Seq<char>) -> bool {
    spec_extension(s) == Some(seq!['p', 'n', 'g'])
}

/// The base name of a path: the stem up to its last underscore, or nothing
/// when the stem has no underscore.
pub open spec fn spec_base_of(s: Seq<char>) -> Option<Seq<char>> {
    let st = spec_stem(s);
    let u = last_index_of_either(st, '_', '_');
    if u < 0 {
        None
    } else {
        Some(st.subrange(0, u))
    }
}

/// The suffix token of a path: the stem from its last underscore on, with
/// the underscore kept, or nothing when the stem has no underscore.
pub open spec fn spec_suffix_of(s: Seq<char>) -> Option<Seq<char>> {
    let st = spec_stem(s);
    let u = last_index_of_either(st, '_', '_');
    if u < 0 {
        None
    } else {
        Some(st.subrange(u, st.len() as int))
    }
}

/// Finds the last position in `s` holding `c1` or `c2`.
fn rfind_either(s: &str, c1: char, c2: char) -> (r: Option<usize>)
    ensures
        match r {
            Some(u) => u == last_index_of_either(s@, c1, c2),
            None => last_index_of_either(s@, c1, c2) == -1,
        },
{
    proof {
        lemma_last_index_of_either(s@, c1, c2);
    }
    let len: usize = s.unicode_len();
    let mut i: usize = len;
    loop
        invariant
            i <= len,
            len == s@.len(),
            forall|k: int| i <= k < len ==> s@[k] != c1 && s@[k] != c2,
            -1 <= last_index_of_either(s@, c1, c2) < len,
            last_index_of_either(s@, c1, c2) >= 0 ==> (s@[last_index_of_either(s@, c1, c2)] == c1
                || s@[last_index_of_either(s@, c1, c2)] == c2),
            forall|k: int|
                last_index_of_either(s@, c1, c2) < k < s@.len() ==> s@[k] != c1 && s@[k] != c2,
        decreases i,
    {
        if i == 0 {
            return None;
        }
        let c: char = s.get_char(i - 1);
        if c == c1 || c == c2 {
            proof {
                let li = last_index_of_either(s@, c1, c2);
                assert(li >= i - 1);
                assert(li <= i - 1);
            }
            return Some(i - 1);
        }
        i = i - 1;
    }
}

/// The stem of a path, as a borrowed slice of it.
fn stem_part<'a>(filename: &'a str) -> (r: &'a str)
    ensures
        r@ == spec_stem(filename@),
{
    let len: usize = filename.unicode_len();
    proof {
        lemma_last_index_of_either(filename@, '/', '\\');
    }
    let start: usize = match rfind_either(filename, '/', '\\') {
        Some(p) => p + 1,
        None => 0,
    };
    let name: &str = filename.substring_char(start, len);
    let name_len: usize = len - start;
    proof {
        assert(name@ == spec_file_name(filename@));
        lemma_last_index_of_either(name@, '.', '.');
    }
    match rfind_either(name, '.', '.') {
        Some(d) if d > 0 => name.substring_char(0, d),
        _ => name,
    }
}

/// The suffix token of a file's name — the part of its stem from the last
/// underscore on, underscore kept — or nothing when the stem has none.
pub fn suffix_from_filename(filename: &str) -> (r: Option<String>)
    ensures
        match r {
            Some(sfx) => spec_suffix_of(filename@) == Some(sfx@),
            None => spec_suffix_of(filename@) is None,
        },
{
    let stem: &str = stem_part(filename);
    let stem_len: usize = stem.unicode_len();
    proof {
        lemma_last_index_of_either(stem@, '_', '_');
    }
    match rfind_either(stem, '_', '_') {
        Some(u) => Some(stem.substring_char(u, stem_len).to_owned()),
        None => None,
    }
}

/// The base name of a file — its stem up to the last underscore — or
/// nothing when the stem has none.
pub fn base_from_filename(filename: &str) -> (r: Option<String>)
    ensures
        match r {
            Some(base) => spec_base_of(filename@) == Some(base@),
            None => spec_base_of(filename@) is None,
        },
{
    let stem: &str = stem_part(filename);
    let stem_len: usize = stem.unicode_len();
    proof {
        lemma_last_index_of_either(stem@, '_', '_');
    }
    match rfind_either(stem, '_', '_') {
        Some(u) => Some(stem.substring_char(0, u).to_owned()),
        None => None,
    }
}

/// Whether a path names a PNG file (extension exactly `png`).
pub fn is_png_file(filename: &str) -> (r: bool)
    ensures
        r == spec_is_png(filename@),
{
    let len: usize = filename.unicode_len();
    proof {
        lemma_last_index_of_either(filename@, '/', '\\');
    }
    let start: usize = match rfind_either(filename, '/', '\\') {
        Some(p) => p + 1,
        None => 0,
    };
    let name: &str = filename.substring_char(start, len);
    let name_len: usize = len - start;
    proof {
        assert(name@ == spec_file_name(filename@));
        lemma_last_index_of_either(name@, '.', '.');
    }
    match rfind_either(name, '.', '.') {
        Some(d) if d > 0 => {
            let ext: &str = name.substring_char(d + 1, name_len);
            let r = str_eq(ext, "png");
            proof {
                reveal_strlit("png");
                assert(("png")@ =~= seq!['p', 'n', 'g']);
            }
            r
        }
        _ => false,
    }
}

/// The file name an output texture is written under: the configured base
/// name, the suffix, and the `png` extension.
pub fn make_output_file_name(base: &str, suffix: &str) -> (r: String)
    ensures
        r@ == base@ + suffix@ + ".png"@,
{
    let mut s: String = base.to_owned();
    s.append(suffix);
    s.append(".png");
    s
}

/// The file name a debug mask image is written under: `mask<index>.png`.
pub fn make_mask_file_name(index: u64) -> (r: String)
    ensures
        r@ == "mask"@ + spec_decimal(index as nat) + ".png"@,
{
    let mut s: String = "mask".to_owned();
    let digits: String = u64_to_string(index);
    s.append(digits.as_str());
    s.append(".png");
    s
}

} // verus!
