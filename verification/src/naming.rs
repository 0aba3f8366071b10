//! Names derived from prompts and paths: file slugs, run-directory slugs and
//! the last segment of a `/`-separated name.

use vstd::prelude::*;
use vstd::string::StringExecFns;
use crate::text::{
    ascii_lower, chars_of, is_ascii_alnum, slice_chars, spec_ascii_lower, spec_is_ascii_alnum,
    string_from_chars,
};

verus! {

/// `s` without its leading `c`s.
pub open spec fn trim_start(s: Seq<char>, c: char) -> Seq<char>
    decreases s.len(),
{
    if s.len() > 0 && s[0] == c {
        trim_start(s.drop_first(), c)
    } else {
        s
    }
}

/// `s` without its trailing `c`s.
pub open spec fn trim_end(s: Seq<char>, c: char) -> Seq<char>
    decreases s.len(),
{
    if s.len() > 0 && s.last() == c {
        trim_end(s.drop_last(), c)
    } else {
        s
    }
}

/// `str::trim_matches(c)`: `s` without leading and trailing `c`s.
pub open spec fn trim_matches(s: Seq<char>, c: char) -> Seq<char> {
    trim_end(trim_start(s, c), c)
}

/// One character of a file slug: lower-case ASCII letters and digits stay,
/// everything else becomes `_`.
pub open spec fn slug_char(c: char) -> char {
    if spec_is_ascii_alnum(c) {
        spec_ascii_lower(c)
    } else {
        '_'
    }
}

/// The file slug of a prompt: every character mapped by `slug_char`, cut to
/// 40 characters, `_` trimmed from both ends, `img` when nothing is left.
pub open spec fn spec_slugify(s: Seq<char>) -> Seq<char> {
    let mapped = s.map_values(|c: char| slug_char(c));
    let cut = if mapped.len() <= 40 {
        mapped
    } else {
        mapped.take(40)
    };
    let t = trim_matches(cut, '_');
    if t.len() == 0 {
        "img"@
    } else {
        t
    }
}

/// The prompt scan of `short_slug`: letters and digits are kept lower-cased,
/// each run of other characters becomes one `-`, and the scan stops once 40
/// characters have been written.
pub open spec fn dash_scan(s: Seq<char>, out: Seq<char>, prev_dash: bool) -> Seq<char>
    decreases s.len(),
{
    if s.len() == 0 {
        out
    } else {
        let c = s[0];
        let out2 = if spec_is_ascii_alnum(c) {
            out.push(spec_ascii_lower(c))
        } else if !prev_dash {
            out.push('-')
        } else {
            out
        };
        let prev2 = if spec_is_ascii_alnum(c) {
            false
        } else {
            true
        };
        if out2.len() >= 40 {
            out2
        } else {
            dash_scan(s.drop_first(), out2, prev2)
        }
    }
}

/// The run-directory slug of a prompt: the dash scan with `-` trimmed from both
/// ends, `img` when nothing is left.
pub open spec fn spec_short_slug(s: Seq<char>) -> Seq<char> {
    let t = trim_matches(dash_scan(s, Seq::empty(), true), '-');
    if t.len() == 0 {
        "img"@
    } else {
        t
    }
}

/// The part of `s` after its last `/` (all of `s` when it has none).
pub open spec fn spec_short_name(s: Seq<char>) -> Seq<char> {
    if exists|i: int| 0 <= i < s.len() && s[i] == '/' {
        let j = choose|j: int|
            0 <= j < s.len() && s[j] == '/' && forall|k: int| j < k < s.len() ==> s[k] != '/';
        s.skip(j + 1)
    } else {
        s
    }
}

proof fn lemma_trim_start_at(s: Seq<char>, c: char, lo: int)
    requires
        0 <= lo <= s.len(),
        forall|j: int| 0 <= j < lo ==> s[j] == c,
        lo == s.len() || s[lo] != c,
    ensures
        trim_start(s, c) == s.skip(lo),
    decreases lo,
{
    if lo > 0 {
        assert(s.drop_first().skip(lo - 1) =~= s.skip(lo));
        lemma_trim_start_at(s.drop_first(), c, lo - 1);
    } else {
        assert(s.skip(0) =~= s);
    }
}

proof fn lemma_trim_end_at(s: Seq<char>, c: char, hi: int)
    requires
        0 <= hi <= s.len(),
        forall|j: int| hi <= j < s.len() ==> s[j] == c,
        hi == 0 || s[hi - 1] != c,
    ensures
        trim_end(s, c) == s.take(hi),
    decreases s.len() - hi,
{
    if hi < s.len() {
        assert(s.drop_last().take(hi) =~= s.take(hi));
        lemma_trim_end_at(s.drop_last(), c, hi);
    } else {
        assert(s.take(hi) =~= s);
    }
}

/// `trim_matches` on a character vector.
fn trim_char(s: &[char], c: char) -> (r: Vec<char>)
    ensures
        r@ == trim_matches(s@, c),
{
    let mut lo: usize = 0;
    while lo < s.len() && s[lo] == c
        invariant
            0 <= lo <= s@.len(),
            forall|j: int| 0 <= j < lo ==> s@[j] == c,
        decreases s.len() - lo,
    {
        lo += 1;
    }
    proof {
        lemma_trim_start_at(s@, c, lo as int);
    }
    let mut hi: usize = s.len();
    while hi > lo && s[hi - 1] == c
        invariant
            lo <= hi <= s@.len(),
            forall|j: int| hi <= j < s@.len() ==> s@[j] == c,
        decreases hi,
    {
        hi -= 1;
    }
    proof {
        let t = s@.skip(lo as int);
        assert forall|j: int| hi - lo <= j < t.len() implies t[j] == c by {
            assert(t[j] == s@[j + lo]);
        }
        if hi > lo {
            assert(t[hi - lo - 1] == s@[hi - 1]);
        }
        lemma_trim_end_at(t, c, hi - lo);
        assert(t.take(hi - lo) =~= s@.subrange(lo as int, hi as int));
    }
    slice_chars(s, lo, hi)
}

/// File slug of a prompt: lower-case ASCII letters and digits, `_` elsewhere,
/// at most 40 characters, never empty.
pub fn slugify(s: &str) -> (r: String)
    ensures
        r@ == spec_slugify(s@),
{
    let cs = chars_of(s);
    let mut out: Vec<char> = Vec::new();
    let mut i: usize = 0;
    while i < cs.len()
        invariant
            0 <= i <= cs@.len(),
            cs@ == s@,
            out@ == cs@.take(i as int).map_values(|c: char| slug_char(c)),
        decreases cs.len() - i,
    {
        let c = cs[i];
        let m = if is_ascii_alnum(c) {
            ascii_lower(c)
        } else {
            '_'
        };
        out.push(m);
        i += 1;
        assert(cs@.take(i as int).map_values(|c: char| slug_char(c)) =~= cs@.take(i - 1).map_values(
            |c: char| slug_char(c),
        ).push(slug_char(c)));
    }
    assert(cs@.take(cs@.len() as int) =~= cs@);
    let n = if out.len() <= 40 {
        out.len()
    } else {
        40
    };
    let cut = slice_chars(out.as_slice(), 0, n);
    assert(cut@ =~= (if out@.len() <= 40 {
        out@
    } else {
        out@.take(40)
    }));
    let t = trim_char(cut.as_slice(), '_');
    if t.len() == 0 {
        String::from_str("img")
    } else {
        string_from_chars(t.as_slice())
    }
}

/// First few prompt words as a dash-slug, capped to 40 chars.
pub fn short_slug(prompt: &str) -> (r: String)
    ensures
        r@ == spec_short_slug(prompt@),
{
    let cs = chars_of(prompt);
    let mut out: Vec<char> = Vec::new();
    let mut prev_dash = true;
    let mut i: usize = 0;
    assert(cs@.skip(0) =~= cs@);
    while i < cs.len()
        invariant_except_break
            out@.len() < 40,
            dash_scan(cs@, Seq::empty(), true) == dash_scan(cs@.skip(i as int), out@, prev_dash),
        invariant
            0 <= i <= cs@.len(),
            cs@ == prompt@,
        ensures
            dash_scan(cs@, Seq::empty(), true) == out@,
        decreases cs.len() - i,
    {
        let c = cs[i];
        let ghost rest = cs@.skip(i as int);
        assert(rest[0] == c);
        assert(rest.drop_first() =~= cs@.skip(i + 1));
        if is_ascii_alnum(c) {
            out.push(ascii_lower(c));
            prev_dash = false;
        } else if !prev_dash {
            out.push('-');
            prev_dash = true;
        }
        i += 1;
        if out.len() >= 40 {
            break;
        }
    }
    let t = trim_char(out.as_slice(), '-');
    if t.len() == 0 {
        String::from_str("img")
    } else {
        string_from_chars(t.as_slice())
    }
}

/// The last `/`-separated segment of `path` (`rsplit('/').next()`).
pub fn short_name(path: &str) -> (r: String)
    ensures
        r@ == spec_short_name(path@),
{
    let cs = chars_of(path);
    let mut j: usize = cs.len();
    while j > 0 && cs[j - 1] != '/'
        invariant
            0 <= j <= cs@.len(),
            cs@ == path@,
            forall|k: int| j <= k < cs@.len() ==> cs@[k] != '/',
        decreases j,
    {
        j -= 1;
    }
    proof {
        let s = path@;
        if j > 0 {
            let w = choose|w: int|
                0 <= w < s.len() && s[w] == '/' && forall|k: int| w < k < s.len() ==> s[k] != '/';
            assert(0 <= w < s.len() && s[w] == '/' && forall|k: int| w < k < s.len() ==> s[k]
                != '/') by {
                assert(0 <= j - 1 < s.len() && s[j - 1] == '/' && forall|k: int|
                    j - 1 < k < s.len() ==> s[k] != '/');
            }
            if w < j - 1 {
                assert(s[j - 1] != '/');
            }
            if w > j - 1 {
                assert(s[w] != '/');
            }
        } else {
            assert(s.skip(0) =~= s);
        }
    }
    let n = cs.len();
    let r = slice_chars(cs.as_slice(), j, n);
    assert(r@ =~= cs@.skip(j as int));
    string_from_chars(r.as_slice())
}

} // verus!

verus! {

/// A character a file slug may hold: `a-z`, `0-9` or `_`.
pub open spec fn is_slug_char(c: char) -> bool {
    ('a' <= c && c <= 'z') || ('0' <= c && c <= '9') || c == '_'
}

/// The shape of a file slug: 1 to 40 slug characters, not starting or ending
/// with `_`.
pub open spec fn is_file_slug(r: Seq<char>) -> bool {
    &&& 0 < r.len() <= 40
    &&& forall|i: int| 0 <= i < r.len() ==> is_slug_char(#[trigger] r[i])
    &&& r[0] != '_'
    &&& r.last() != '_'
}

/// A character a run slug may hold: `a-z`, `0-9` or `-`.
pub open spec fn is_dash_slug_char(c: char) -> bool {
    ('a' <= c && c <= 'z') || ('0' <= c && c <= '9') || c == '-'
}

/// No two neighbouring `-`.
pub open spec fn no_double_dash(r: Seq<char>) -> bool {
    forall|i: int| 0 <= i < r.len() - 1 ==> !(#[trigger] r[i] == '-' && r[i + 1] == '-')
}

/// The shape of a run slug: 1 to 40 characters of `a-z0-9-`, no `--`, not
/// starting or ending with `-`.
pub open spec fn is_run_slug(r: Seq<char>) -> bool {
    &&& 0 < r.len() <= 40
    &&& forall|i: int| 0 <= i < r.len() ==> is_dash_slug_char(#[trigger] r[i])
    &&& no_double_dash(r)
    &&& r[0] != '-'
    &&& r.last() != '-'
}

proof fn lemma_trim_start_suffix(s: Seq<char>, c: char)
    ensures
        trim_start(s, c).len() <= s.len(),
        trim_start(s, c) == s.skip(s.len() - trim_start(s, c).len()),
        trim_start(s, c).len() > 0 ==> trim_start(s, c)[0] != c,
    decreases s.len(),
{
    if s.len() > 0 && s[0] == c {
        lemma_trim_start_suffix(s.drop_first(), c);
        let t = trim_start(s.drop_first(), c);
        assert(s.drop_first().skip(s.drop_first().len() - t.len()) =~= s.skip(s.len() - t.len()));
    } else {
        assert(s.skip(0) =~= s);
    }
}

proof fn lemma_trim_end_prefix(s: Seq<char>, c: char)
    ensures
        trim_end(s, c).len() <= s.len(),
        trim_end(s, c) == s.take(trim_end(s, c).len() as int),
        trim_end(s, c).len() > 0 ==> trim_end(s, c).last() != c,
    decreases s.len(),
{
    if s.len() > 0 && s.last() == c {
        lemma_trim_end_prefix(s.drop_last(), c);
        let t = trim_end(s.drop_last(), c);
        assert(s.drop_last().take(t.len() as int) =~= s.take(t.len() as int));
    } else {
        assert(s.take(s.len() as int) =~= s);
    }
}

/// `trim_matches` keeps a contiguous part of `s` whose ends are not `c`.
proof fn lemma_trim_matches_part(s: Seq<char>, c: char) -> (lo: int)
    ensures
        0 <= lo,
        lo + trim_matches(s, c).len() <= s.len(),
        trim_matches(s, c) == s.subrange(lo, lo + trim_matches(s, c).len()),
        trim_matches(s, c).len() > 0 ==> trim_matches(s, c)[0] != c && trim_matches(s, c).last() != c,
{
    let x = trim_start(s, c);
    lemma_trim_start_suffix(s, c);
    lemma_trim_end_prefix(x, c);
    let t = trim_end(x, c);
    let lo = s.len() - x.len();
    assert(t == s.subrange(lo, lo + t.len()));
    if t.len() > 0 {
        assert(t[0] == x[0]);
    }
    lo
}

/// A file slug is a fixed point of `slugify`.
pub proof fn lemma_slug_fixed(r: Seq<char>)
    requires
        is_file_slug(r),
    ensures
        spec_slugify(r) == r,
{
    let mapped = r.map_values(|c: char| slug_char(c));
    assert(mapped =~= r);
    assert(trim_start(r, '_') == r);
    assert(trim_end(r, '_') == r);
}

/// `slugify` always gives a file slug: 1 to 40 characters of `a-z0-9_`, with
/// no `_` at either end.
pub proof fn lemma_slugify_shape(s: Seq<char>)
    ensures
        is_file_slug(spec_slugify(s)),
{
    let mapped = s.map_values(|c: char| slug_char(c));
    let cut = if mapped.len() <= 40 {
        mapped
    } else {
        mapped.take(40)
    };
    assert forall|i: int| 0 <= i < cut.len() implies is_slug_char(#[trigger] cut[i]) by {
        assert(cut[i] == slug_char(s[i]));
    }
    let lo = lemma_trim_matches_part(cut, '_');
    let t = trim_matches(cut, '_');
    if t.len() == 0 {
        reveal_strlit("img");
    } else {
        assert forall|i: int| 0 <= i < t.len() implies is_slug_char(#[trigger] t[i]) by {
            assert(t[i] == cut[lo + i]);
        }
    }
}

/// Only the start of a prompt counts: whatever follows its first 40
/// characters never changes the file slug.
pub proof fn lemma_slugify_keeps_start(p: Seq<char>, q: Seq<char>)
    requires
        p.len() >= 40,
    ensures
        spec_slugify(p + q) == spec_slugify(p),
{
    let mp = p.map_values(|c: char| slug_char(c));
    let mpq = (p + q).map_values(|c: char| slug_char(c));
    let cp = if mp.len() <= 40 {
        mp
    } else {
        mp.take(40)
    };
    let cpq = if mpq.len() <= 40 {
        mpq
    } else {
        mpq.take(40)
    };
    assert(cp =~= cpq) by {
        assert forall|i: int| 0 <= i < 40 implies cp[i] == cpq[i] by {
            assert((p + q)[i] == p[i]);
        }
    }
}

/// A file slug other than `img` is a run of the prompt's mapped characters
/// (`slug_char` of each) lying within the first 40 of them.
/// The returned `lo` is where the run starts.
pub proof fn lemma_slug_is_leading_part(s: Seq<char>) -> (lo: int)
    ensures
        spec_slugify(s) != "img"@ ==> {
            &&& 0 <= lo
            &&& lo + spec_slugify(s).len() <= 40
            &&& lo + spec_slugify(s).len() <= s.len()
            &&& forall|i: int|
                0 <= i < spec_slugify(s).len() ==> #[trigger] spec_slugify(s)[i] == slug_char(
                    s[lo + i],
                )
        },
{
    let mapped = s.map_values(|c: char| slug_char(c));
    let cut = if mapped.len() <= 40 {
        mapped
    } else {
        mapped.take(40)
    };
    let lo = lemma_trim_matches_part(cut, '_');
    let t = trim_matches(cut, '_');
    if spec_slugify(s) != "img"@ {
        if t.len() == 0 {
            assert(spec_slugify(s) == "img"@);
        }
        assert(spec_slugify(s) == t);
        assert forall|i: int| 0 <= i < t.len() implies #[trigger] t[i] == slug_char(s[lo + i]) by {
            assert(t[i] == cut[lo + i]);
        }
    }
    lo
}

/// `slugify` is idempotent: slugifying a slug gives it back.
pub proof fn lemma_slugify_idempotent(s: Seq<char>)
    ensures
        spec_slugify(spec_slugify(s)) == spec_slugify(s),
{
    lemma_slugify_shape(s);
    lemma_slug_fixed(spec_slugify(s));
}

proof fn lemma_dash_scan_shape(s: Seq<char>, out: Seq<char>, prev_dash: bool)
    requires
        out.len() < 40,
        forall|i: int| 0 <= i < out.len() ==> is_dash_slug_char(#[trigger] out[i]),
        no_double_dash(out),
        out.len() > 0 && out.last() == '-' ==> prev_dash,
    ensures
        ({
            let r = dash_scan(s, out, prev_dash);
            &&& r.len() <= 40
            &&& forall|i: int| 0 <= i < r.len() ==> is_dash_slug_char(#[trigger] r[i])
            &&& no_double_dash(r)
        }),
    decreases s.len(),
{
    if s.len() > 0 {
        let c = s[0];
        let out2 = if spec_is_ascii_alnum(c) {
            out.push(spec_ascii_lower(c))
        } else if !prev_dash {
            out.push('-')
        } else {
            out
        };
        let prev2 = !spec_is_ascii_alnum(c);
        assert forall|i: int| 0 <= i < out2.len() implies is_dash_slug_char(#[trigger] out2[i]) by {
            if i < out.len() {
                assert(out2[i] == out[i]);
            }
        }
        assert forall|i: int| 0 <= i < out2.len() - 1 implies !(#[trigger] out2[i] == '-' && out2[i
            + 1] == '-') by {
            if i + 1 < out.len() {
                assert(out2[i] == out[i] && out2[i + 1] == out[i + 1]);
            } else if out2.len() > out.len() {
                assert(out2[i] == out.last());
            }
        }
        if out2.len() < 40 {
            lemma_dash_scan_shape(s.drop_first(), out2, prev2);
        }
    }
}

/// `short_slug` always gives a run slug: 1 to 40 characters of `a-z0-9-`,
/// no `--`, and no `-` at either end.
pub proof fn lemma_short_slug_shape(s: Seq<char>)
    ensures
        is_run_slug(spec_short_slug(s)),
{
    lemma_dash_scan_shape(s, Seq::empty(), true);
    let d = dash_scan(s, Seq::empty(), true);
    let lo = lemma_trim_matches_part(d, '-');
    let t = trim_matches(d, '-');
    if t.len() == 0 {
        reveal_strlit("img");
    } else {
        assert forall|i: int| 0 <= i < t.len() implies is_dash_slug_char(#[trigger] t[i]) by {
            assert(t[i] == d[lo + i]);
        }
        assert forall|i: int| 0 <= i < t.len() - 1 implies !(#[trigger] t[i] == '-' && t[i + 1]
            == '-') by {
            assert(t[i] == d[lo + i] && t[i + 1] == d[lo + i + 1]);
        }
    }
}

} // verus!
