//! Where pixl keeps things on disk: the merged-UNet cache, the Hugging Face
//! weights cache, the saved-images folder and per-run output folders, all
//! derived from the environment's directories; plus the mapping between a Hub
//! repo id and the directory name the Hub cache stores it under.

use vstd::prelude::*;
use crate::naming::{short_slug, spec_short_slug};
use crate::paths::{is_absolute, lemma_join_keeps_absolute, path_is_absolute, path_join, spec_path_join};
use crate::text::{
    chars_of, extend_str, slice_chars, spec_strip_prefix, string_from_chars,
    strip_prefix,
};

verus! {

/// The environment's directories that the cache locations derive from
/// (`$HOME`, `$XDG_CACHE_HOME`, `$HF_HOME` and the system temp dir).
#[derive(Debug, Clone)]
pub struct EnvDirs {
    pub home: Option<String>,
    pub xdg_cache_home: Option<String>,
    pub hf_home: Option<String>,
    pub temp_dir: String,
}

/// An environment directory that is set and absolute; an empty or relative
/// value counts as unset, so nothing lands relative to the working directory.
pub open spec fn usable_dir(d: Option<String>) -> bool {
    d matches Some(x) && is_absolute(x@)
}

/// `$HOME` when it is absolute, else the temp dir.
pub open spec fn home_or_temp(env: EnvDirs) -> Seq<char> {
    if usable_dir(env.home) {
        env.home->Some_0@
    } else {
        env.temp_dir@
    }
}

/// Cache root: `$XDG_CACHE_HOME` when `with_xdg` and it is absolute, else
/// `<home or temp>/.cache`.
pub open spec fn spec_cache_root(env: EnvDirs, with_xdg: bool) -> Seq<char> {
    if with_xdg && usable_dir(env.xdg_cache_home) {
        env.xdg_cache_home->Some_0@
    } else {
        spec_path_join(home_or_temp(env), ".cache"@)
    }
}

fn home_or_temp_dir(env: &EnvDirs) -> (r: &str)
    ensures
        r@ == home_or_temp(*env),
{
    match &env.home {
        Some(h) => if path_is_absolute(h.as_str()) {
            h.as_str()
        } else {
            env.temp_dir.as_str()
        },
        None => env.temp_dir.as_str(),
    }
}

/// With an absolute temp dir, every root derived from the environment is
/// absolute.
pub proof fn lemma_roots_absolute(env: EnvDirs, with_xdg: bool)
    requires
        is_absolute(env.temp_dir@),
    ensures
        is_absolute(home_or_temp(env)),
        is_absolute(spec_cache_root(env, with_xdg)),
{
    lemma_join_keeps_absolute(home_or_temp(env), ".cache"@);
}

/// Cache root (`$XDG_CACHE_HOME` or `$HOME/.cache`, else a temp dir — never
/// CWD-relative: relative or empty values are skipped). `with_xdg` lets
/// callers that must follow a tool's own contract (the Hub client ignores
/// `XDG_CACHE_HOME`) opt out of the XDG override.
pub fn cache_root(env: &EnvDirs, with_xdg: bool) -> (r: String)
    ensures
        r@ == spec_cache_root(*env, with_xdg),
        is_absolute(env.temp_dir@) ==> is_absolute(r@),
{
    proof {
        if is_absolute(env.temp_dir@) {
            lemma_roots_absolute(*env, with_xdg);
        }
    }
    if with_xdg {
        if let Some(x) = &env.xdg_cache_home {
            if path_is_absolute(x.as_str()) {
                return x.clone();
            }
        }
    }
    path_join(home_or_temp_dir(env), ".cache")
}

/// Directory holding cached merged-UNet safetensors (`~/.cache/pixl/merged`).
pub fn merged_cache_dir(env: &EnvDirs) -> (r: String)
    ensures
        r@ == spec_path_join(spec_path_join(spec_cache_root(*env, true), "pixl"@), "merged"@),
        is_absolute(env.temp_dir@) ==> is_absolute(r@),
{
    proof {
        if is_absolute(env.temp_dir@) {
            lemma_roots_absolute(*env, true);
            lemma_join_keeps_absolute(spec_cache_root(*env, true), "pixl"@);
            lemma_join_keeps_absolute(spec_path_join(spec_cache_root(*env, true), "pixl"@), "merged"@);
        }
    }
    let root = cache_root(env, true);
    let p = path_join(root.as_str(), "pixl");
    path_join(p.as_str(), "merged")
}

/// Directory where the Hub client stores downloaded weights (`$HF_HOME/hub`
/// or `~/.cache/huggingface/hub`); it does not honor `XDG_CACHE_HOME`.
pub fn hf_cache_dir(env: &EnvDirs) -> (r: String)
    ensures
        r@ == match env.hf_home {
            Some(h) => spec_path_join(h@, "hub"@),
            None => spec_path_join(
                spec_path_join(spec_cache_root(*env, false), "huggingface"@),
                "hub"@,
            ),
        },
{
    if let Some(h) = &env.hf_home {
        return path_join(h.as_str(), "hub");
    }
    let root = cache_root(env, false);
    let p = path_join(root.as_str(), "huggingface");
    path_join(p.as_str(), "hub")
}

/// Default keepers folder: `~/.pixl/saved` (consistent with the run dirs).
pub fn default_saved_dir(env: &EnvDirs) -> (r: String)
    ensures
        r@ == spec_path_join(spec_path_join(home_or_temp(*env), ".pixl"@), "saved"@),
{
    let p = path_join(home_or_temp_dir(env), ".pixl");
    path_join(p.as_str(), "saved")
}

/// Default per-run output dir: `~/.pixl/<stamp>-<prompt-words>`.
pub fn default_out_dir(env: &EnvDirs, stamp: &str, prompt: &str) -> (r: String)
    ensures
        r@ == spec_path_join(
            spec_path_join(home_or_temp(*env), ".pixl"@),
            stamp@ + "-"@ + spec_short_slug(prompt@),
        ),
{
    let p = path_join(home_or_temp_dir(env), ".pixl");
    let mut name = chars_of(stamp);
    extend_str(&mut name, "-");
    let slug = short_slug(prompt);
    extend_str(&mut name, slug.as_str());
    let name = string_from_chars(name.as_slice());
    path_join(p.as_str(), name.as_str())
}

/// `str::replace('/', "--")`.
pub open spec fn slash_to_dashes(s: Seq<char>) -> Seq<char>
    decreases s.len(),
{
    if s.len() == 0 {
        s
    } else {
        (if s[0] == '/' {
            seq!['-', '-']
        } else {
            seq![s[0]]
        }) + slash_to_dashes(s.drop_first())
    }
}

/// `str::replace("--", "/")`: non-overlapping `--` pairs, scanned from the
/// left, become `/`.
pub open spec fn dashes_to_slash(s: Seq<char>) -> Seq<char>
    decreases s.len(),
{
    if s.len() == 0 {
        s
    } else if s.len() >= 2 && s[0] == '-' && s[1] == '-' {
        seq!['/'] + dashes_to_slash(s.skip(2))
    } else {
        seq![s[0]] + dashes_to_slash(s.drop_first())
    }
}

/// Directory name of a repo in the Hub cache: `models--<repo, '/' -> "--">`.
pub open spec fn spec_hf_repo_dir_name(repo: Seq<char>) -> Seq<char> {
    "models--"@ + slash_to_dashes(repo)
}

/// Display name of a Hub cache entry: a `models--` entry shown as its repo
/// id, anything else unchanged.
pub open spec fn spec_pretty_repo_name(name: Seq<char>) -> Seq<char> {
    match spec_strip_prefix(name, "models--"@) {
        Some(r) => dashes_to_slash(r),
        None => name,
    }
}

proof fn lemma_slash_to_dashes_step(s: Seq<char>, i: int)
    requires
        0 <= i < s.len(),
    ensures
        slash_to_dashes(s.skip(i)) == (if s[i] == '/' {
            seq!['-', '-']
        } else {
            seq![s[i]]
        }) + slash_to_dashes(s.skip(i + 1)),
{
    assert(s.skip(i).drop_first() =~= s.skip(i + 1));
}

/// Directory name under which the Hub cache stores `repo`.
pub fn hf_repo_dir_name(repo: &str) -> (r: String)
    ensures
        r@ == spec_hf_repo_dir_name(repo@),
{
    let cs = chars_of(repo);
    let mut out = chars_of("models--");
    let mut i: usize = 0;
    assert(cs@.skip(0) =~= cs@);
    while i < cs.len()
        invariant
            0 <= i <= cs@.len(),
            cs@ == repo@,
            out@ + slash_to_dashes(cs@.skip(i as int)) == spec_hf_repo_dir_name(repo@),
        decreases cs.len() - i,
    {
        proof {
            lemma_slash_to_dashes_step(cs@, i as int);
        }
        if cs[i] == '/' {
            out.push('-');
            out.push('-');
        } else {
            out.push(cs[i]);
        }
        i += 1;
        assert(out@ + slash_to_dashes(cs@.skip(i as int)) =~= spec_hf_repo_dir_name(repo@));
    }
    assert(cs@.skip(i as int) =~= Seq::<char>::empty());
    string_from_chars(out.as_slice())
}

/// Display name of a Hub cache directory entry (`models--a--b` -> `a/b`).
pub fn pretty_repo_name(name: &str) -> (r: String)
    ensures
        r@ == spec_pretty_repo_name(name@),
{
    let cs = chars_of(name);
    let rest = match strip_prefix(cs.as_slice(), "models--") {
        Some(r) => r,
        None => return string_from_chars(cs.as_slice()),
    };
    let mut out: Vec<char> = Vec::new();
    let mut i: usize = 0;
    assert(rest@.skip(0) =~= rest@);
    while i < rest.len()
        invariant
            0 <= i <= rest@.len(),
            out@ + dashes_to_slash(rest@.skip(i as int)) == dashes_to_slash(rest@),
        decreases rest.len() - i,
    {
        let ghost t = rest@.skip(i as int);
        if i + 1 < rest.len() && rest[i] == '-' && rest[i + 1] == '-' {
            assert(t.skip(2) =~= rest@.skip(i + 2));
            out.push('/');
            i += 2;
        } else {
            assert(t.drop_first() =~= rest@.skip(i + 1));
            out.push(rest[i]);
            i += 1;
        }
        assert(out@ + dashes_to_slash(rest@.skip(i as int)) =~= dashes_to_slash(rest@));
    }
    assert(rest@.skip(i as int) =~= Seq::<char>::empty());
    assert(out@ =~= dashes_to_slash(rest@));
    string_from_chars(out.as_slice())
}

/// `-` or `/`.
pub open spec fn is_dash_or_slash(c: char) -> bool {
    c == '-' || c == '/'
}

/// No two neighbouring characters of `s` are both `-` or `/`.
pub open spec fn no_dash_slash_pairs(s: Seq<char>) -> bool {
    forall|i: int| 0 <= i < s.len() - 1 ==> !(is_dash_or_slash(#[trigger] s[i]) && is_dash_or_slash(s[i + 1]))
}

proof fn lemma_dashes_undo_slashes(s: Seq<char>)
    requires
        no_dash_slash_pairs(s),
    ensures
        dashes_to_slash(slash_to_dashes(s)) == s,
    decreases s.len(),
{
    if s.len() > 0 {
        let rest = s.drop_first();
        assert(no_dash_slash_pairs(rest)) by {
            assert forall|i: int| 0 <= i < rest.len() - 1 implies !(is_dash_or_slash(#[trigger] rest[i])
                && is_dash_or_slash(rest[i + 1])) by {
                assert(rest[i] == s[i + 1] && rest[i + 1] == s[i + 2]);
            }
        }
        lemma_dashes_undo_slashes(rest);
        let er = slash_to_dashes(rest);
        let e = slash_to_dashes(s);
        if rest.len() > 0 {
            assert(rest[0] == s[1]);
            if rest[0] != '/' {
                assert(slash_to_dashes(rest) == seq![rest[0]] + slash_to_dashes(rest.drop_first()));
                assert(er[0] == rest[0]);
            }
        }
        if s[0] == '/' {
            assert(e =~= seq!['-', '-'] + er);
            assert(e.skip(2) =~= er);
            assert(dashes_to_slash(e) == seq!['/'] + dashes_to_slash(e.skip(2)));
            assert(s =~= seq!['/'] + rest);
        } else {
            assert(e =~= seq![s[0]] + er);
            assert(e.drop_first() =~= er);
            if s[0] == '-' && e.len() >= 2 {
                assert(!is_dash_or_slash(s[1]));
                assert(e[1] == er[0]);
            }
            assert(dashes_to_slash(e) == seq![s[0]] + dashes_to_slash(e.drop_first()));
            assert(s =~= seq![s[0]] + rest);
        }
    }
}

/// A repo id without neighbouring `-`/`/` characters (such as
/// `stabilityai/sdxl-turbo`) is listed back under its own name: the display
/// name of its cache directory is the repo id itself.
pub proof fn lemma_repo_dir_name_round_trip(repo: Seq<char>)
    requires
        no_dash_slash_pairs(repo),
    ensures
        spec_pretty_repo_name(spec_hf_repo_dir_name(repo)) == repo,
{
    let d = spec_hf_repo_dir_name(repo);
    assert("models--"@.is_prefix_of(d)) by {
        assert(d.subrange(0, "models--"@.len() as int) =~= "models--"@);
    }
    assert(d.skip("models--"@.len() as int) =~= slash_to_dashes(repo));
    lemma_dashes_undo_slashes(repo);
}

} // verus!
