//! Output-path derivation.
//!
//! Compression appends an ".xz" suffix to the input path; decompression
//! strips every trailing ".xz" and then every trailing ".lzma", mirroring
//! how the suffix was stacked on.

use vstd::prelude::*;
use vstd::string::*;

verus! {

/// `s` ends with `suf`.
pub open spec fn spec_ends_with(s: Seq<char>, suf: Seq<char>) -> bool {
    s.len() >= suf.len() && s.skip(s.len() - suf.len()) == suf
}

/// `s` with every trailing repetition of `suf` removed.
pub open spec fn spec_trim_suffix(s: Seq<char>, suf: Seq<char>) -> Seq<char>
    decreases s.len(),
{
    if suf.len() > 0 && spec_ends_with(s, suf) {
        spec_trim_suffix(s.take(s.len() - suf.len()), suf)
    } else {
        s
    }
}

/// The default output path for an operation on an input path: compression
/// appends ".xz"; decompression strips every trailing ".xz", then every
/// trailing ".lzma".
pub open spec fn spec_default_output_path(input: Seq<char>, is_compression: bool) -> Seq<char> {
    if is_compression {
        input + ".xz"@
    } else {
        spec_trim_suffix(spec_trim_suffix(input, ".xz"@), ".lzma"@)
    }
}

/// The first `end` characters of `s` end with `suf`.
fn ends_with_at(s: &str, end: usize, suf: &str) -> (b: bool)
    requires
        end <= s@.len(),
    ensures
        b == spec_ends_with(s@.take(end as int), suf@),
{
    let n = suf.unicode_len();
    if end < n {
        return false;
    }
    let start = end - n;
    let mut j: usize = 0;
    while j < n
        invariant
            j <= n,
            n == suf@.len(),
            n <= end <= s@.len(),
            start == end - n,
            forall|t: int| 0 <= t < j ==> s@[start + t] == suf@[t],
        decreases n - j,
    {
        let c1 = s.get_char(start + j);
        let c2 = suf.get_char(j);
        if c1 != c2 {
            proof {
                let tk = s@.take(end as int);
                assert(tk.skip(tk.len() - suf@.len())[j as int] == s@[start + j]);
            }
            return false;
        }
        j = j + 1;
    }
    proof {
        let tk = s@.take(end as int);
        assert(tk.skip(tk.len() - suf@.len()) =~= suf@);
    }
    true
}

/// Remove every trailing repetition of `suf` from `s`.
fn trim_suffix<'a>(s: &'a str, suf: &str) -> (r: &'a str)
    requires
        suf@.len() > 0,
    ensures
        r@ == spec_trim_suffix(s@, suf@),
{
    let total = s.unicode_len();
    let n = suf.unicode_len();
    let mut end: usize = total;
    proof {
        assert(s@.take(total as int) =~= s@);
    }
    let mut matched = ends_with_at(s, end, suf);
    while matched
        invariant
            end <= total,
            total == s@.len(),
            n == suf@.len(),
            n > 0,
            matched == spec_ends_with(s@.take(end as int), suf@),
            spec_trim_suffix(s@, suf@) == spec_trim_suffix(s@.take(end as int), suf@),
        decreases end,
    {
        proof {
            assert(s@.take(end as int).take(end - n) =~= s@.take(end - n));
        }
        end = end - n;
        matched = ends_with_at(s, end, suf);
    }
    let r = s.substring_char(0, end);
    proof {
        assert(r@ =~= s@.take(end as int));
    }
    r
}

/// Derive the default output path for an operation on `input_path`.
///
/// With `is_compression` the input gains an ".xz" suffix; without it,
/// every trailing ".xz" and then every trailing ".lzma" is removed.
pub fn default_output_path(input_path: &str, is_compression: bool) -> (r: String)
    ensures
        r@ == spec_default_output_path(input_path@, is_compression),
{
    if is_compression {
        let mut out = input_path.to_owned();
        out.append(".xz");
        out
    } else {
        proof {
            reveal_strlit(".xz");
            reveal_strlit(".lzma");
        }
        let trimmed_xz = trim_suffix(input_path, ".xz");
        let trimmed = trim_suffix(trimmed_xz, ".lzma");
        trimmed.to_owned()
    }
}

} // verus!
