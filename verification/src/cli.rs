//! Command-line values: the cache subcommands, the pixelize arguments and the
//! `WxH` size parser.

use vstd::prelude::*;
use crate::text::{
    all_ascii, all_digits, first_index_of, is_digit, is_white_space, lemma_decimal_digits,
    lemma_first_index_of, spec_ascii_lower, trim_ws_end, trim_ws_start, unsigned_digits, chars_of, debug_str, extend_str, parse_unsigned, spec_debug_str, spec_decimal, spec_lowercase,
    spec_parse_unsigned, spec_split_once, spec_trim, split_once, str_to_lowercase, str_trim,
    string_from_chars, u64_to_decimal, str_eq,
};

verus! {

/// What `pixl models` does with the local cache.
#[derive(Debug, Clone, Copy, PartialEq, Eq)]
pub enum ModelsCmd {
    /// List cached merged-UNet files and show where weights live.
    Ls,
    /// Delete pixl's merged-UNet cache (not the shared HF weights).
    Clear {
        /// Skip the confirmation prompt.
        yes: bool,
    },
    /// Print the cache directories.
    Path,
}

/// What `pixl models clear` does before touching the cache.
#[derive(Debug, Clone, Copy, PartialEq, Eq, Structural)]
pub enum ClearGuard {
    /// Nothing is cached: report it and stop.
    Empty,
    /// The path does not end in `pixl/merged`: refuse.
    UnexpectedPath,
    /// The cache path is a symlink: refuse.
    Symlink,
    /// Confirmation is needed but stdin is not a terminal: refuse (pass `--yes`).
    NotTerminal,
    /// Ask on the terminal before clearing.
    Ask,
    /// Clear without asking (`--yes`).
    Clear,
}

/// The guard order of `models clear`: nothing to clear; then the path must
/// end in exactly `pixl/merged` (`last` and `parent` are its last two
/// components) and must not be a symlink; then `--yes` clears at once, and
/// without it a terminal is needed to ask.
pub open spec fn spec_clear_guard(
    no_files: bool,
    last: Option<Seq<char>>,
    parent: Option<Seq<char>>,
    is_symlink: bool,
    yes: bool,
    interactive: bool,
) -> ClearGuard {
    if no_files {
        ClearGuard::Empty
    } else if !(last == Some("merged"@) && parent == Some("pixl"@)) {
        ClearGuard::UnexpectedPath
    } else if is_symlink {
        ClearGuard::Symlink
    } else if yes {
        ClearGuard::Clear
    } else if !interactive {
        ClearGuard::NotTerminal
    } else {
        ClearGuard::Ask
    }
}

fn is_some_eq(s: Option<&str>, lit: &str) -> (r: bool)
    ensures
        r == (match s {
            Some(x) => x@ == lit@,
            None => false,
        }),
{
    match s {
        Some(x) => str_eq(x, lit),
        None => false,
    }
}

/// Decide what `models clear` does (see `spec_clear_guard`).
pub fn clear_guard(
    no_files: bool,
    last: Option<&str>,
    parent: Option<&str>,
    is_symlink: bool,
    yes: bool,
    interactive: bool,
) -> (g: ClearGuard)
    ensures
        g == spec_clear_guard(
            no_files,
            match last {
                Some(x) => Some(x@),
                None => None,
            },
            match parent {
                Some(x) => Some(x@),
                None => None,
            },
            is_symlink,
            yes,
            interactive,
        ),
{
    if no_files {
        ClearGuard::Empty
    } else if !(is_some_eq(last, "merged") && is_some_eq(parent, "pixl")) {
        ClearGuard::UnexpectedPath
    } else if is_symlink {
        ClearGuard::Symlink
    } else if yes {
        ClearGuard::Clear
    } else if !interactive {
        ClearGuard::NotTerminal
    } else {
        ClearGuard::Ask
    }
}

/// The answer to the clear prompt confirms: trimmed, it is `y` or `Y`.
pub open spec fn spec_confirms(answer: Seq<char>) -> bool {
    spec_trim(answer) == "y"@ || spec_trim(answer) == "Y"@
}

/// Whether the typed answer confirms clearing (see `spec_confirms`).
pub fn confirms(answer: &str) -> (r: bool)
    ensures
        r == spec_confirms(answer@),
{
    let t = str_trim(answer);
    str_eq(t.as_str(), "y") || str_eq(t.as_str(), "Y")
}

/// Arguments of `pixl pixelize`.
#[derive(Debug, Clone)]
pub struct PixelizeArgs {
    /// Input image(s) to snap to true pixel art.
    pub inputs: Vec<String>,
    /// Output file (single input) or directory (multiple inputs). Defaults
    /// next to each input.
    pub out: Option<String>,
    /// Palette size (0 = keep all distinct cell colors).
    pub colors: u16,
    /// Force the logical cell size in source pixels (bypass detection).
    pub pixel_size: Option<u32>,
    /// Fallback logical long-edge (cells) used only when detection fails.
    pub target_cells: u32,
    /// Upscale the result by this integer factor (nearest) for easy viewing.
    pub scale: u32,
}

/// The size message for a rejected pair `w`x`h`.
pub open spec fn size_rule_message(w: nat, h: nat) -> Seq<char> {
    "size must be positive and divisible by 8, got "@ + spec_decimal(w) + "x"@ + spec_decimal(h)
}

/// A parsed pair must be positive multiples of 8 (SDXL's latent grid).
pub open spec fn size_ok(w: nat, h: nat) -> bool {
    w != 0 && h != 0 && w % 8 == 0 && h % 8 == 0
}

/// `parse_size` on the text `s`: trimmed and lower-cased, then either `WxH`
/// (each side trimmed) or a single `N` meaning `NxN`, each a `u32`.
pub open spec fn spec_parse_size(s: Seq<char>) -> Result<(nat, nat), Seq<char>> {
    let t = spec_lowercase(spec_trim(s));
    let parsed: Result<(nat, nat), Seq<char>> = match spec_split_once(t, 'x') {
        Some((a, b)) => match spec_parse_unsigned(spec_trim(a), u32::MAX as nat) {
            None => Err("bad width in "@ + spec_debug_str(t)),
            Some(w) => match spec_parse_unsigned(spec_trim(b), u32::MAX as nat) {
                None => Err("bad height in "@ + spec_debug_str(t)),
                Some(h) => Ok((w, h)),
            },
        },
        None => match spec_parse_unsigned(t, u32::MAX as nat) {
            None => Err("bad size "@ + spec_debug_str(t)),
            Some(n) => Ok((n, n)),
        },
    };
    match parsed {
        Err(m) => Err(m),
        Ok((w, h)) => if size_ok(w, h) {
            Ok((w, h))
        } else {
            Err(size_rule_message(w, h))
        },
    }
}

fn message(prefix: &str, quoted: &str) -> (r: String)
    ensures
        r@ == prefix@ + quoted@,
{
    let mut v = chars_of(prefix);
    extend_str(&mut v, quoted);
    string_from_chars(v.as_slice())
}

fn parse_u32_trimmed(s: &[char]) -> (r: Option<u32>)
    ensures
        match r {
            Some(v) => spec_parse_unsigned(spec_trim(s@), u32::MAX as nat) == Some(v as nat),
            None => spec_parse_unsigned(spec_trim(s@), u32::MAX as nat) is None,
        },
{
    let text = string_from_chars(s);
    let t = str_trim(text.as_str());
    let tv = chars_of(t.as_str());
    match parse_unsigned(tv.as_slice(), u32::MAX as u64) {
        Some(v) => Some(v as u32),
        None => None,
    }
}

/// Parse a `WxH` (or `N`) size string into (w, h).
pub fn parse_size(s: &str) -> (r: Result<(u32, u32), String>)
    ensures
        match r {
            Ok((w, h)) => spec_parse_size(s@) == Ok::<(nat, nat), Seq<char>>((w as nat, h as nat)),
            Err(m) => spec_parse_size(s@) == Err::<(nat, nat), Seq<char>>(m@),
        },
{
    let trimmed = str_trim(s);
    let t = str_to_lowercase(trimmed.as_str());
    let tv = chars_of(t.as_str());
    let (w, h) = match split_once(tv.as_slice(), 'x') {
        Some((a, b)) => {
            let w = match parse_u32_trimmed(a.as_slice()) {
                Some(w) => w,
                None => {
                    let q = debug_str(t.as_str());
                    return Err(message("bad width in ", q.as_str()));
                },
            };
            let h = match parse_u32_trimmed(b.as_slice()) {
                Some(h) => h,
                None => {
                    let q = debug_str(t.as_str());
                    return Err(message("bad height in ", q.as_str()));
                },
            };
            (w, h)
        },
        None => {
            let n = match parse_unsigned(tv.as_slice(), u32::MAX as u64) {
                Some(n) => n as u32,
                None => {
                    let q = debug_str(t.as_str());
                    return Err(message("bad size ", q.as_str()));
                },
            };
            (n, n)
        },
    };
    // SDXL requires positive, multiple-of-8 dimensions; reject early for a clean error.
    if w == 0 || h == 0 || w % 8 != 0 || h % 8 != 0 {
        let mut v = chars_of("size must be positive and divisible by 8, got ");
        let ws = u64_to_decimal(w as u64);
        extend_str(&mut v, ws.as_str());
        extend_str(&mut v, "x");
        let hs = u64_to_decimal(h as u64);
        extend_str(&mut v, hs.as_str());
        return Err(string_from_chars(v.as_slice()));
    }
    Ok((w, h))
}

/// Clearing never happens on an unexpected path or through a symlink, and
/// never without `--yes` or a terminal to ask on.
pub proof fn lemma_clear_is_guarded(
    no_files: bool,
    last: Option<Seq<char>>,
    parent: Option<Seq<char>>,
    is_symlink: bool,
    yes: bool,
    interactive: bool,
)
    ensures
        spec_clear_guard(no_files, last, parent, is_symlink, yes, interactive) == ClearGuard::Clear
            ==> !no_files && last == Some("merged"@) && parent == Some("pixl"@) && !is_symlink
            && yes,
        spec_clear_guard(no_files, last, parent, is_symlink, yes, interactive) == ClearGuard::Ask
            ==> !no_files && last == Some("merged"@) && parent == Some("pixl"@) && !is_symlink
            && interactive,
{
}

/// A size that parses is a pair of positive multiples of 8.
pub proof fn lemma_parsed_size_is_valid(s: Seq<char>)
    requires
        spec_parse_size(s) is Ok,
    ensures
        size_ok(spec_parse_size(s)->Ok_0.0, spec_parse_size(s)->Ok_0.1),
{
}

/// A single number `N` (no `x`) means the square `NxN`.
pub proof fn lemma_single_number_is_square(s: Seq<char>)
    requires
        spec_split_once(spec_lowercase(spec_trim(s)), 'x') is None,
        spec_parse_size(s) is Ok,
    ensures
        spec_parse_size(s)->Ok_0.0 == spec_parse_size(s)->Ok_0.1,
{
}

/// Text that neither starts nor ends with white space is its own trim.
proof fn lemma_trim_fixed(s: Seq<char>)
    requires
        s.len() > 0,
        !is_white_space(s[0]),
        !is_white_space(s.last()),
    ensures
        spec_trim(s) == s,
{
    assert(trim_ws_start(s) == s);
    assert(trim_ws_end(s) == s);
}

/// Digits and `x` are ASCII and already lower case.
proof fn lemma_lowercase_fixed(s: Seq<char>)
    requires
        forall|i: int| 0 <= i < s.len() ==> is_digit(#[trigger] s[i]) || s[i] == 'x',
    ensures
        spec_lowercase(s) == s,
{
    assert(all_ascii(s));
    assert(s.map_values(|c: char| spec_ascii_lower(c)) =~= s);
}

/// A decimal rendering parses back to its number.
proof fn lemma_decimal_parses(n: nat)
    requires
        n <= u32::MAX,
    ensures
        spec_trim(spec_decimal(n)) == spec_decimal(n),
        spec_parse_unsigned(spec_decimal(n), u32::MAX as nat) == Some(n),
        forall|i: int| 0 <= i < spec_decimal(n).len() ==> #[trigger] spec_decimal(n)[i] != 'x',
{
    lemma_decimal_digits(n);
    let d = spec_decimal(n);
    assert(is_digit(d[0]));
    assert(is_digit(d[d.len() - 1]));
    lemma_trim_fixed(d);
    assert(unsigned_digits(d) == d);
    assert forall|i: int| 0 <= i < d.len() implies #[trigger] d[i] != 'x' by {
        assert(is_digit(d[i]));
    }
}

/// A size written as `WxH` parses back to `(W, H)`, and a single number `N`
/// parses to `(N, N)`, for positive multiples of 8 that fit a `u32`.
pub proof fn lemma_size_round_trip(w: nat, h: nat)
    requires
        size_ok(w, h),
        w <= u32::MAX,
        h <= u32::MAX,
    ensures
        spec_parse_size(spec_decimal(w) + "x"@ + spec_decimal(h)) == Ok::<(nat, nat), Seq<char>>(
            (w, h),
        ),
        spec_parse_size(spec_decimal(w)) == Ok::<(nat, nat), Seq<char>>((w, w)),
{
    reveal_strlit("x");
    lemma_decimal_digits(w);
    lemma_decimal_digits(h);
    lemma_decimal_parses(w);
    lemma_decimal_parses(h);
    let a = spec_decimal(w);
    let b = spec_decimal(h);
    let s = a + "x"@ + b;
    assert(s[a.len() as int] == 'x');
    assert forall|i: int| 0 <= i < s.len() implies is_digit(#[trigger] s[i]) || s[i] == 'x' by {
        if i < a.len() {
            assert(s[i] == a[i]);
        } else if i > a.len() {
            assert(s[i] == b[i - a.len() - 1]);
        }
    }
    assert(is_digit(a[0]));
    assert(s[0] == a[0]);
    assert(is_digit(b[b.len() - 1]));
    assert(s.last() == b[b.len() - 1]);
    lemma_trim_fixed(s);
    lemma_lowercase_fixed(s);
    assert forall|j: int| 0 <= j < a.len() implies s[j] != 'x' by {
        assert(s[j] == a[j]);
    }
    lemma_first_index_of(s, 'x', a.len() as int);
    assert(s.take(a.len() as int) =~= a);
    assert(s.skip(a.len() as int + 1) =~= b);

    assert forall|i: int| 0 <= i < a.len() implies is_digit(#[trigger] a[i]) || a[i] == 'x' by {
        assert(is_digit(a[i]));
    }
    lemma_lowercase_fixed(a);
    assert(!(exists|i: int| 0 <= i < a.len() && a[i] == 'x'));
    assert(first_index_of(a, 'x') is None);
}

} // verus!
