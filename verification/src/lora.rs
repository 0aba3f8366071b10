//! Mapping of kohya/sgm SDXL LoRA module names onto the diffusers weight keys
//! of the UNet.
//!
//! Pixel-art SDXL LoRAs ship in sgm naming (`lora_unet_input_blocks_4_1_...`)
//! while the UNet loads diffusers names (`down_blocks.1.attentions.0...`).
//! These LoRAs only touch attention blocks, so only the attention-block
//! envelope is translated and the inner payload is passed through.

use vstd::prelude::*;
use crate::text::{
    chars_eq, chars_of, extend_chars, extend_str, parse_unsigned, spec_parse_unsigned, spec_split_once,
    spec_strip_prefix, split_once, str_eq, string_from_chars, strip_prefix, slice_chars,
    lemma_first_index_of, digits_value, digit_value,
};

verus! {

/// The diffusers attention block for an sgm `(section, n, sub)` triple. Only
/// attention sub-blocks (`sub == 1`) carry the modules these LoRAs touch.
pub open spec fn spec_envelope(section: Seq<char>, n: int, sub: int) -> Option<Seq<char>> {
    if sub != 1 {
        None
    } else if section == "input_blocks"@ {
        if n == 4 {
            Some("down_blocks.1.attentions.0"@)
        } else if n == 5 {
            Some("down_blocks.1.attentions.1"@)
        } else if n == 7 {
            Some("down_blocks.2.attentions.0"@)
        } else if n == 8 {
            Some("down_blocks.2.attentions.1"@)
        } else {
            None
        }
    } else if section == "output_blocks"@ {
        if n == 0 {
            Some("up_blocks.0.attentions.0"@)
        } else if n == 1 {
            Some("up_blocks.0.attentions.1"@)
        } else if n == 2 {
            Some("up_blocks.0.attentions.2"@)
        } else if n == 3 {
            Some("up_blocks.1.attentions.0"@)
        } else if n == 4 {
            Some("up_blocks.1.attentions.1"@)
        } else if n == 5 {
            Some("up_blocks.1.attentions.2"@)
        } else {
            None
        }
    } else {
        None
    }
}

/// sgm underscore leaf name -> diffusers dotted leaf name.
pub open spec fn spec_leaf(leaf: Seq<char>) -> Option<Seq<char>> {
    if leaf == "attn1_to_q"@ {
        Some("attn1.to_q"@)
    } else if leaf == "attn1_to_k"@ {
        Some("attn1.to_k"@)
    } else if leaf == "attn1_to_v"@ {
        Some("attn1.to_v"@)
    } else if leaf == "attn1_to_out_0"@ {
        Some("attn1.to_out.0"@)
    } else if leaf == "attn2_to_q"@ {
        Some("attn2.to_q"@)
    } else if leaf == "attn2_to_k"@ {
        Some("attn2.to_k"@)
    } else if leaf == "attn2_to_v"@ {
        Some("attn2.to_v"@)
    } else if leaf == "attn2_to_out_0"@ {
        Some("attn2.to_out.0"@)
    } else if leaf == "ff_net_0_proj"@ {
        Some("ff.net.0.proj"@)
    } else if leaf == "ff_net_2"@ {
        Some("ff.net.2"@)
    } else if leaf == "norm1"@ {
        Some("norm1"@)
    } else if leaf == "norm2"@ {
        Some("norm2"@)
    } else if leaf == "norm3"@ {
        Some("norm3"@)
    } else {
        None
    }
}

/// Inner attention payload, sgm underscore form -> diffusers dotted form.
pub open spec fn spec_convert_inner(inner: Seq<char>) -> Option<Seq<char>> {
    if inner == "proj_in"@ {
        Some("proj_in"@)
    } else if inner == "proj_out"@ {
        Some("proj_out"@)
    } else {
        match spec_strip_prefix(inner, "transformer_blocks_"@) {
            None => None,
            Some(rest) => match spec_split_once(rest, '_') {
                None => None,
                Some((i, leaf)) => if spec_parse_unsigned(i, usize::MAX as nat) is Some {
                    match spec_leaf(leaf) {
                        Some(l) => Some("transformer_blocks."@ + i + "."@ + l),
                        None => None,
                    }
                } else {
                    None
                },
            },
        }
    }
}

/// The key for `<section>_<n>_<sub>_<inner>` (the part after the section's
/// `_`), i.e. `<envelope>.<inner>.weight`.
pub open spec fn spec_block_key(section: Seq<char>, r: Seq<char>) -> Option<Seq<char>> {
    match spec_split_once(r, '_') {
        None => None,
        Some((n, r2)) => match spec_split_once(r2, '_') {
            None => None,
            Some((sub, inner)) => match (
                spec_parse_unsigned(n, usize::MAX as nat),
                spec_parse_unsigned(sub, usize::MAX as nat),
            ) {
                (Some(nv), Some(sv)) => match spec_envelope(section, nv as int, sv as int) {
                    Some(env) => match spec_convert_inner(inner) {
                        Some(ci) => Some(env + "."@ + ci + ".weight"@),
                        None => None,
                    },
                    None => None,
                },
                _ => None,
            },
        },
    }
}

/// The diffusers weight key for a kohya LoRA module name.
pub open spec fn spec_map_module(kohya: Seq<char>) -> Option<Seq<char>> {
    match spec_strip_prefix(kohya, "lora_unet_"@) {
        None => None,
        Some(m) => match spec_strip_prefix(m, "input_blocks_"@) {
            Some(r) => spec_block_key("input_blocks"@, r),
            None => match spec_strip_prefix(m, "output_blocks_"@) {
                Some(r) => spec_block_key("output_blocks"@, r),
                None => match spec_strip_prefix(m, "middle_block_"@) {
                    Some(r) => match spec_split_once(r, '_') {
                        Some((sub, inner)) => if sub == "1"@ {
                            match spec_convert_inner(inner) {
                                Some(ci) => Some("mid_block.attentions.0"@ + "."@ + ci + ".weight"@),
                                None => None,
                            }
                        } else {
                            None
                        },
                        None => None,
                    },
                    None => None,
                },
            },
        },
    }
}

fn envelope(section: &str, n: usize, sub: usize) -> (r: Option<&'static str>)
    ensures
        match r {
            Some(e) => spec_envelope(section@, n as int, sub as int) == Some(e@),
            None => spec_envelope(section@, n as int, sub as int) is None,
        },
{
    if sub != 1 {
        return None;
    }
    if str_eq(section, "input_blocks") {
        if n == 4 {
            Some("down_blocks.1.attentions.0")
        } else if n == 5 {
            Some("down_blocks.1.attentions.1")
        } else if n == 7 {
            Some("down_blocks.2.attentions.0")
        } else if n == 8 {
            Some("down_blocks.2.attentions.1")
        } else {
            None
        }
    } else if str_eq(section, "output_blocks") {
        if n == 0 {
            Some("up_blocks.0.attentions.0")
        } else if n == 1 {
            Some("up_blocks.0.attentions.1")
        } else if n == 2 {
            Some("up_blocks.0.attentions.2")
        } else if n == 3 {
            Some("up_blocks.1.attentions.0")
        } else if n == 4 {
            Some("up_blocks.1.attentions.1")
        } else if n == 5 {
            Some("up_blocks.1.attentions.2")
        } else {
            None
        }
    } else {
        None
    }
}

fn is_literal(v: &[char], lit: &str) -> (r: bool)
    ensures
        r == (v@ == lit@),
{
    let l = chars_of(lit);
    chars_eq(v, l.as_slice())
}

fn leaf(name: &[char]) -> (r: Option<&'static str>)
    ensures
        match r {
            Some(l) => spec_leaf(name@) == Some(l@),
            None => spec_leaf(name@) is None,
        },
{
    if is_literal(name, "attn1_to_q") {
        Some("attn1.to_q")
    } else if is_literal(name, "attn1_to_k") {
        Some("attn1.to_k")
    } else if is_literal(name, "attn1_to_v") {
        Some("attn1.to_v")
    } else if is_literal(name, "attn1_to_out_0") {
        Some("attn1.to_out.0")
    } else if is_literal(name, "attn2_to_q") {
        Some("attn2.to_q")
    } else if is_literal(name, "attn2_to_k") {
        Some("attn2.to_k")
    } else if is_literal(name, "attn2_to_v") {
        Some("attn2.to_v")
    } else if is_literal(name, "attn2_to_out_0") {
        Some("attn2.to_out.0")
    } else if is_literal(name, "ff_net_0_proj") {
        Some("ff.net.0.proj")
    } else if is_literal(name, "ff_net_2") {
        Some("ff.net.2")
    } else if is_literal(name, "norm1") {
        Some("norm1")
    } else if is_literal(name, "norm2") {
        Some("norm2")
    } else if is_literal(name, "norm3") {
        Some("norm3")
    } else {
        None
    }
}

/// Inner attention payload, sgm underscore form -> diffusers dotted form.
fn convert_inner(inner: &[char]) -> (r: Option<Vec<char>>)
    ensures
        match r {
            Some(v) => spec_convert_inner(inner@) == Some(v@),
            None => spec_convert_inner(inner@) is None,
        },
{
    if is_literal(inner, "proj_in") {
        return Some(chars_of("proj_in"));
    }
    if is_literal(inner, "proj_out") {
        return Some(chars_of("proj_out"));
    }
    let rest = match strip_prefix(inner, "transformer_blocks_") {
        Some(r) => r,
        None => return None,
    };
    let (i, lf) = match split_once(rest.as_slice(), '_') {
        Some(p) => p,
        None => return None,
    };
    if parse_unsigned(i.as_slice(), usize::MAX as u64).is_none() {
        return None;
    }
    let l = match leaf(lf.as_slice()) {
        Some(l) => l,
        None => return None,
    };
    let mut out = chars_of("transformer_blocks.");
    extend_chars(&mut out, i.as_slice());
    extend_str(&mut out, ".");
    extend_str(&mut out, l);
    Some(out)
}

fn block_key(section: &str, r: &[char]) -> (k: Option<Vec<char>>)
    ensures
        match k {
            Some(v) => spec_block_key(section@, r@) == Some(v@),
            None => spec_block_key(section@, r@) is None,
        },
{
    let (n, r2) = match split_once(r, '_') {
        Some(p) => p,
        None => return None,
    };
    let (sub, inner) = match split_once(r2.as_slice(), '_') {
        Some(p) => p,
        None => return None,
    };
    let nv = match parse_unsigned(n.as_slice(), usize::MAX as u64) {
        Some(v) => v as usize,
        None => return None,
    };
    let sv = match parse_unsigned(sub.as_slice(), usize::MAX as u64) {
        Some(v) => v as usize,
        None => return None,
    };
    let env = match envelope(section, nv, sv) {
        Some(e) => e,
        None => return None,
    };
    let ci = match convert_inner(inner.as_slice()) {
        Some(c) => c,
        None => return None,
    };
    let mut out = chars_of(env);
    extend_str(&mut out, ".");
    extend_chars(&mut out, ci.as_slice());
    extend_str(&mut out, ".weight");
    Some(out)
}

/// Map a kohya LoRA module name to the diffusers weight key the UNet uses.
pub fn map_module(kohya: &str) -> (r: Option<String>)
    ensures
        match r {
            Some(k) => spec_map_module(kohya@) == Some(k@),
            None => spec_map_module(kohya@) is None,
        },
{
    let kv = chars_of(kohya);
    let m = match strip_prefix(kv.as_slice(), "lora_unet_") {
        Some(m) => m,
        None => return None,
    };
    let key = if let Some(r) = strip_prefix(m.as_slice(), "input_blocks_") {
        block_key("input_blocks", r.as_slice())
    } else if let Some(r) = strip_prefix(m.as_slice(), "output_blocks_") {
        block_key("output_blocks", r.as_slice())
    } else if let Some(r) = strip_prefix(m.as_slice(), "middle_block_") {
        match split_once(r.as_slice(), '_') {
            Some((sub, inner)) => {
                if !is_literal(sub.as_slice(), "1") {
                    None
                } else {
                    match convert_inner(inner.as_slice()) {
                        Some(ci) => {
                            let mut out = chars_of("mid_block.attentions.0");
                            extend_str(&mut out, ".");
                            extend_chars(&mut out, ci.as_slice());
                            extend_str(&mut out, ".weight");
                            Some(out)
                        },
                        None => None,
                    }
                }
            },
            None => None,
        }
    } else {
        None
    };
    match key {
        Some(k) => Some(string_from_chars(k.as_slice())),
        None => None,
    }
}

} // verus!

verus! {

/// One LoRA module to merge: its kohya name and the UNet weight it adds into.
pub struct MergeItem {
    pub module: String,
    pub key: String,
}

/// Which LoRA modules merge into which UNet weights, and how many modules
/// are skipped (missing a factor, unmappable, or absent from the UNet).
pub struct MergePlan {
    pub apply: Vec<MergeItem>,
    pub skipped: usize,
}

/// `s` without the suffix `suf`, or `None` when `s` does not end with it.
pub open spec fn spec_strip_suffix(s: Seq<char>, suf: Seq<char>) -> Option<Seq<char>> {
    if suf.is_suffix_of(s) {
        Some(s.take(s.len() - suf.len()))
    } else {
        None
    }
}

/// The tensor-name suffixes of a LoRA module: its two factors and its scale.
pub open spec fn lora_suffix(j: int) -> Seq<char> {
    if j == 0 {
        ".lora_down.weight"@
    } else if j == 1 {
        ".lora_up.weight"@
    } else {
        ".alpha"@
    }
}

/// `m` is a module of the LoRA tensors `keys[0..upto]`: one of them is `m`
/// followed by a module suffix.
pub open spec fn is_module_upto(keys: Seq<Seq<char>>, upto: int, m: Seq<char>) -> bool {
    exists|k: int, j: int|
        0 <= k < upto && 0 <= j < 3 && #[trigger] spec_strip_suffix(keys[k], lora_suffix(j)) == Some(m)
}

/// The modules of the LoRA tensors `keys`.
pub open spec fn module_set(keys: Seq<Seq<char>>) -> Set<Seq<char>> {
    Set::new(|m: Seq<char>| is_module_upto(keys, keys.len() as int, m))
}

/// The UNet weight key of module `m` (`spec_map_module`, kept folded in the
/// merge-planning proofs).
#[verifier::opaque]
pub open spec fn unet_key(m: Seq<char>) -> Option<Seq<char>> {
    spec_map_module(m)
}

/// Module `m` can be merged: both factors are present, its name maps to a
/// UNet weight key, and the UNet has that weight.
#[verifier::opaque]
pub open spec fn mergeable(keys: Seq<Seq<char>>, base: Seq<Seq<char>>, m: Seq<char>) -> bool {
    &&& keys.contains(m + ".lora_down.weight"@)
    &&& keys.contains(m + ".lora_up.weight"@)
    &&& unet_key(m) is Some
    &&& base.contains(unet_key(m)->Some_0)
}

pub open spec fn char_views(v: Seq<Vec<char>>) -> Seq<Seq<char>> {
    v.map_values(|c: Vec<char>| c@)
}

pub open spec fn string_views(v: Seq<String>) -> Seq<Seq<char>> {
    v.map_values(|s: String| s@)
}

fn strip_suffix(s: &[char], suf: &str) -> (r: Option<Vec<char>>)
    ensures
        match r {
            Some(v) => spec_strip_suffix(s@, suf@) == Some(v@),
            None => spec_strip_suffix(s@, suf@) is None,
        },
{
    let sv = chars_of(suf);
    if sv.len() > s.len() {
        return None;
    }
    let start = s.len() - sv.len();
    let tail = slice_chars(s, start, s.len());
    if chars_eq(tail.as_slice(), sv.as_slice()) {
        Some(slice_chars(s, 0, start))
    } else {
        proof {
            assert(!(sv@ =~= s@.subrange(start as int, s@.len() as int)));
        }
        None
    }
}

fn contains_chars(list: &Vec<Vec<char>>, x: &[char]) -> (r: bool)
    ensures
        r == char_views(list@).contains(x@),
{
    let ghost views = char_views(list@);
    let mut i: usize = 0;
    while i < list.len()
        invariant
            0 <= i <= list@.len(),
            views == char_views(list@),
            forall|j: int| 0 <= j < i ==> views[j] != x@,
        decreases list.len() - i,
    {
        if chars_eq(list[i].as_slice(), x) {
            assert(views[i as int] == x@);
            return true;
        }
        i += 1;
    }
    false
}

fn contains_string(list: &Vec<String>, x: &[char]) -> (r: bool)
    ensures
        r == string_views(list@).contains(x@),
{
    let ghost views = string_views(list@);
    let mut i: usize = 0;
    while i < list.len()
        invariant
            0 <= i <= list@.len(),
            views == string_views(list@),
            forall|j: int| 0 <= j < i ==> views[j] != x@,
        decreases list.len() - i,
    {
        let cs = chars_of(list[i].as_str());
        if chars_eq(cs.as_slice(), x) {
            assert(views[i as int] == x@);
            return true;
        }
        i += 1;
    }
    false
}

fn with_suffix(m: &[char], suf: &str) -> (r: Vec<char>)
    ensures
        r@ == m@ + suf@,
{
    let mut v = slice_chars(m, 0, m.len());
    assert(v@ =~= m@);
    extend_str(&mut v, suf);
    v
}

/// The set view of the distinct module list `mods` grows by `m`.
fn add_module(mods: &mut Vec<Vec<char>>, m: Vec<char>)
    requires
        char_views(old(mods)@).no_duplicates(),
    ensures
        char_views(final(mods)@).no_duplicates(),
        char_views(final(mods)@).to_set() == old(mods)@.map_values(
            |v: Vec<char>| v@,
        ).to_set().insert(m@),
{
    let ghost before = char_views(mods@);
    if !contains_chars(mods, m.as_slice()) {
        let ghost mv = m@;
        mods.push(m);
        proof {
            assert(char_views(mods@) =~= before.push(mv));
            before.lemma_push_to_set_commute(mv);
            assert forall|a: int, b: int|
                0 <= a < b < before.push(mv).len() implies before.push(mv)[a] != before.push(
                mv,
            )[b] by {
                if b == before.len() {
                    assert(before.contains(before[a]));
                }
            }
        }
    } else {
        proof {
            assert(before.to_set().insert(m@) =~= before.to_set());
        }
    }
}

/// The UNet key module `m` merges into, when it is mergeable.
fn merge_key(m: &[char], lora_keys: &Vec<String>, base_keys: &Vec<String>) -> (r: Option<String>)
    ensures
        r is Some <==> mergeable(string_views(lora_keys@), string_views(base_keys@), m@),
        r matches Some(k) ==> unet_key(m@) == Some(k@),
{
    reveal(mergeable);
    reveal(unet_key);
    let down = with_suffix(m, ".lora_down.weight");
    let up = with_suffix(m, ".lora_up.weight");
    if !contains_string(lora_keys, down.as_slice()) || !contains_string(lora_keys, up.as_slice()) {
        return None;
    }
    let name = string_from_chars(m);
    let key = match map_module(name.as_str()) {
        Some(k) => k,
        None => return None,
    };
    let kc = chars_of(key.as_str());
    if contains_string(base_keys, kc.as_slice()) {
        Some(key)
    } else {
        None
    }
}

/// Split the distinct modules `mods` into those that merge (with their UNet
/// keys, in order) and the count of those that do not.
fn partition_modules(mods: &Vec<Vec<char>>, lora_keys: &Vec<String>, base_keys: &Vec<String>) -> (plan: MergePlan)
    requires
        char_views(mods@).no_duplicates(),
    ensures
        plan.apply@.map_values(|x: MergeItem| x.module@).no_duplicates(),
        forall|i: int|
            0 <= i < plan.apply@.len() ==> {
                let m = #[trigger] plan.apply@[i].module@;
                &&& char_views(mods@).to_set().contains(m)
                &&& mergeable(string_views(lora_keys@), string_views(base_keys@), m)
                &&& unet_key(m) == Some(plan.apply@[i].key@)
            },
        forall|m: Seq<char>|
            char_views(mods@).to_set().contains(m) && mergeable(
                string_views(lora_keys@),
                string_views(base_keys@),
                m,
            ) ==> exists|i: int| 0 <= i < plan.apply@.len() && #[trigger] plan.apply@[i].module@ == m,
        plan.apply@.len() + plan.skipped == mods@.len(),
{
    let ghost mv = char_views(mods@);
    let ghost keys = string_views(lora_keys@);
    let ghost base = string_views(base_keys@);

    let mut apply: Vec<MergeItem> = Vec::new();
    let mut skipped: usize = 0;
    let ghost mut idx: Seq<int> = Seq::empty();
    let mut t: usize = 0;
    while t < mods.len()
        invariant
            0 <= t <= mods@.len(),
            mv == char_views(mods@),
            mv.no_duplicates(),
            keys == string_views(lora_keys@),
            base == string_views(base_keys@),
            apply@.len() + skipped == t,
            idx.len() == apply@.len(),
            forall|a: int, b: int| 0 <= a < b < idx.len() ==> idx[a] < idx[b],
            forall|a: int|
                0 <= a < idx.len() ==> {
                    &&& 0 <= #[trigger] idx[a] < t
                    &&& apply@[a].module@ == mv[idx[a]]
                    &&& mergeable(keys, base, mv[idx[a]])
                    &&& unet_key(mv[idx[a]]) == Some(apply@[a].key@)
                },
            forall|u: int|
                0 <= u < t && mergeable(keys, base, #[trigger] mv[u]) ==> exists|a: int|
                    0 <= a < idx.len() && idx[a] == u,
        decreases mods.len() - t,
    {
        let m = &mods[t];
        let ghost idx0 = idx;
        assert(m@ == mv[t as int]);
        match merge_key(m.as_slice(), lora_keys, base_keys) {
            Some(key) => {
                let name = string_from_chars(m.as_slice());
                apply.push(MergeItem { module: name, key });
                proof {
                    idx = idx.push(t as int);
                }
            },
            None => {
                assert(!mergeable(keys, base, mv[t as int]));
                skipped += 1;
            },
        }
        proof {
            assert forall|u: int|
                0 <= u < t + 1 && mergeable(keys, base, #[trigger] mv[u]) implies exists|a: int|
                0 <= a < idx.len() && idx[a] == u by {
                if u == t {
                    assert(idx[idx.len() - 1] == u);
                } else {
                    let a = choose|a: int| 0 <= a < idx0.len() && idx0[a] == u;
                    assert(idx[a] == u);
                }
            }
        }
        t += 1;
    }
    proof {
        let av = apply@.map_values(|x: MergeItem| x.module@);
        assert forall|a: int, b: int| 0 <= a < b < av.len() implies av[a] != av[b] by {
            assert(idx[a] < idx[b]);
        }
        assert forall|m: Seq<char>|
            mv.to_set().contains(m) && mergeable(keys, base, m) implies exists|a: int|
            0 <= a < apply@.len() && #[trigger] apply@[a].module@ == m by {
            assert(mv.to_set().contains(m));
            let u = choose|u: int| 0 <= u < mv.len() && mv[u] == m;
            let a = choose|a: int| 0 <= a < idx.len() && idx[a] == u;
            assert(apply@[a].module@ == m);
        }
        assert forall|a: int| 0 <= a < apply@.len() implies {
            let m = #[trigger] apply@[a].module@;
            &&& mv.to_set().contains(m)
            &&& mergeable(keys, base, m)
            &&& unet_key(m) == Some(apply@[a].key@)
        } by {
            assert(mv.to_set().contains(mv[idx[a]]));
        }
    }
    MergePlan { apply, skipped }
}

/// Plan the merge of a LoRA whose tensors are named `lora_keys` into a UNet
/// whose weights are named `base_keys`: every module (a tensor name without
/// its `.lora_down.weight` / `.lora_up.weight` / `.alpha` suffix) is applied
/// when it is mergeable, and counted as skipped otherwise.
pub fn plan_lora_merge(lora_keys: &Vec<String>, base_keys: &Vec<String>) -> (plan: MergePlan)
    ensures
        plan.apply@.map_values(|x: MergeItem| x.module@).no_duplicates(),
        forall|i: int|
            0 <= i < plan.apply@.len() ==> {
                let m = #[trigger] plan.apply@[i].module@;
                &&& module_set(string_views(lora_keys@)).contains(m)
                &&& mergeable(string_views(lora_keys@), string_views(base_keys@), m)
                &&& unet_key(m) == Some(plan.apply@[i].key@)
            },
        forall|m: Seq<char>|
            module_set(string_views(lora_keys@)).contains(m) && mergeable(
                string_views(lora_keys@),
                string_views(base_keys@),
                m,
            ) ==> exists|i: int| 0 <= i < plan.apply@.len() && #[trigger] plan.apply@[i].module@ == m,
        plan.apply@.len() + plan.skipped == module_set(string_views(lora_keys@)).len(),
{
    let ghost keys = string_views(lora_keys@);
    let ghost base = string_views(base_keys@);
    let mut mods: Vec<Vec<char>> = Vec::new();
    let mut i: usize = 0;
    assert(char_views(Seq::<Vec<char>>::empty()).to_set() =~= Set::new(
        |m: Seq<char>| is_module_upto(keys, 0, m),
    ));
    while i < lora_keys.len()
        invariant
            0 <= i <= lora_keys@.len(),
            keys == string_views(lora_keys@),
            char_views(mods@).no_duplicates(),
            char_views(mods@).to_set() == Set::new(
                |m: Seq<char>| is_module_upto(keys, i as int, m),
            ),
        decreases lora_keys.len() - i,
    {
        let k = chars_of(lora_keys[i].as_str());
        assert(k@ == keys[i as int]);
        let ghost s0 = char_views(mods@).to_set();
        let r0 = strip_suffix(k.as_slice(), ".lora_down.weight");
        if let Some(m) = r0 {
            add_module(&mut mods, m);
        }
        let ghost s1 = char_views(mods@).to_set();
        let r1 = strip_suffix(k.as_slice(), ".lora_up.weight");
        if let Some(m) = r1 {
            add_module(&mut mods, m);
        }
        let ghost s2 = char_views(mods@).to_set();
        let r2 = strip_suffix(k.as_slice(), ".alpha");
        if let Some(m) = r2 {
            add_module(&mut mods, m);
        }
        proof {
            let next = Set::new(|m: Seq<char>| is_module_upto(keys, i + 1, m));
            let now = char_views(mods@).to_set();
            assert forall|m: Seq<char>| now.contains(m) <==> next.contains(m) by {
                if next.contains(m) {
                    let (kk, j) = choose|kk: int, j: int|
                        0 <= kk < i + 1 && 0 <= j < 3 && #[trigger] spec_strip_suffix(
                            keys[kk],
                            lora_suffix(j),
                        ) == Some(m);
                    if kk < i {
                        assert(is_module_upto(keys, i as int, m));
                    }
                }
                if now.contains(m) && !s0.contains(m) {
                    if r0 matches Some(v) && v@ == m {
                        assert(spec_strip_suffix(keys[i as int], lora_suffix(0)) == Some(m));
                    } else if r1 matches Some(v) && v@ == m {
                        assert(spec_strip_suffix(keys[i as int], lora_suffix(1)) == Some(m));
                    } else {
                        assert(spec_strip_suffix(keys[i as int], lora_suffix(2)) == Some(m));
                    }
                }
                if s0.contains(m) {
                    let (kk, j) = choose|kk: int, j: int|
                        0 <= kk < i && 0 <= j < 3 && #[trigger] spec_strip_suffix(
                            keys[kk],
                            lora_suffix(j),
                        ) == Some(m);
                    assert(spec_strip_suffix(keys[kk], lora_suffix(j)) == Some(m));
                }
            }
            assert(now =~= next);
        }
        i += 1;
    }
    let ghost mv = char_views(mods@);
    assert(mv.to_set() =~= module_set(keys));
    proof {
        mv.unique_seq_to_set();
    }
    partition_modules(&mods, lora_keys, base_keys)
}


} // verus!

verus! {

/// Only UNet modules map: a name without the `lora_unet_` prefix (such as a
/// text-encoder `lora_te1_...` module) has no key.
pub proof fn lemma_only_unet_modules_map(kohya: Seq<char>)
    requires
        !"lora_unet_"@.is_prefix_of(kohya),
    ensures
        spec_map_module(kohya) is None,
{
}

/// Every key a module maps to names a weight: it ends in `.weight`.
pub proof fn lemma_keys_name_weights(kohya: Seq<char>)
    requires
        spec_map_module(kohya) is Some,
    ensures
        ".weight"@.is_suffix_of(spec_map_module(kohya)->Some_0),
{
    let k = spec_map_module(kohya)->Some_0;
    let w = ".weight"@;
    assert(exists|p: Seq<char>| k == p + w) by {
        let m = spec_strip_prefix(kohya, "lora_unet_"@)->Some_0;
        if spec_strip_prefix(m, "input_blocks_"@) is Some {
            let r = spec_strip_prefix(m, "input_blocks_"@)->Some_0;
            let (n, r2) = spec_split_once(r, '_')->Some_0;
            let (sub, inner) = spec_split_once(r2, '_')->Some_0;
            let nv = spec_parse_unsigned(n, usize::MAX as nat)->Some_0;
            let sv = spec_parse_unsigned(sub, usize::MAX as nat)->Some_0;
            let env = spec_envelope("input_blocks"@, nv as int, sv as int)->Some_0;
            let ci = spec_convert_inner(inner)->Some_0;
            assert(k == (env + "."@ + ci) + w);
        } else if spec_strip_prefix(m, "output_blocks_"@) is Some {
            let r = spec_strip_prefix(m, "output_blocks_"@)->Some_0;
            let (n, r2) = spec_split_once(r, '_')->Some_0;
            let (sub, inner) = spec_split_once(r2, '_')->Some_0;
            let nv = spec_parse_unsigned(n, usize::MAX as nat)->Some_0;
            let sv = spec_parse_unsigned(sub, usize::MAX as nat)->Some_0;
            let env = spec_envelope("output_blocks"@, nv as int, sv as int)->Some_0;
            let ci = spec_convert_inner(inner)->Some_0;
            assert(k == (env + "."@ + ci) + w);
        } else {
            let r = spec_strip_prefix(m, "middle_block_"@)->Some_0;
            let (sub, inner) = spec_split_once(r, '_')->Some_0;
            let ci = spec_convert_inner(inner)->Some_0;
            assert(k == ("mid_block.attentions.0"@ + "."@ + ci) + w);
        }
    }
    let p = choose|p: Seq<char>| k == p + w;
    assert(k.subrange(k.len() - w.len(), k.len() as int) =~= w);
}


/// Stripping a prefix that is there leaves the rest.
pub(crate) proof fn lemma_strip_present(p: Seq<char>, rest: Seq<char>)
    ensures
        spec_strip_prefix(p + rest, p) == Some(rest),
{
    assert(p.is_prefix_of(p + rest));
    assert((p + rest).skip(p.len() as int) =~= rest);
}

/// A prefix whose first character differs is not there.
proof fn lemma_strip_absent(s: Seq<char>, p: Seq<char>)
    requires
        s.len() > 0,
        p.len() > 0,
        s[0] != p[0],
    ensures
        spec_strip_prefix(s, p) is None,
{
}

/// Splitting `a + "_" + rest` at its first `_`, where `a` holds none.
pub(crate) proof fn lemma_split_after(a: Seq<char>, rest: Seq<char>)
    requires
        forall|i: int| 0 <= i < a.len() ==> a[i] != '_',
    ensures
        spec_split_once(a + seq!['_'] + rest, '_') == Some((a, rest)),
{
    let s = a + seq!['_'] + rest;
    assert forall|j: int| 0 <= j < a.len() implies s[j] != '_' by {
        assert(s[j] == a[j]);
    }
    lemma_first_index_of(s, '_', a.len() as int);
    assert(s.take(a.len() as int) =~= a);
    assert(s.skip(a.len() as int + 1) =~= rest);
}

/// The one-digit numeral `d` parses to its value.
proof fn lemma_parse_digit(d: char)
    requires
        '0' <= d <= '9',
    ensures
        spec_parse_unsigned(seq![d], usize::MAX as nat) == Some(digit_value(d)),
{
    assert(seq![d].drop_last() =~= Seq::<char>::empty());
    assert(digits_value(Seq::<char>::empty()) == 0);
    assert(digits_value(seq![d]) == digit_value(d));
}

/// `<n>_1_<inner>` inside a section maps to the section's attention envelope
/// for block `n`, followed by the converted payload and `.weight`.
#[verifier::rlimit(100)]
proof fn lemma_block_key_of(section: Seq<char>, d: char, inner: Seq<char>)
    requires
        '0' <= d <= '9',
        spec_envelope(section, digit_value(d) as int, 1) is Some,
        spec_convert_inner(inner) is Some,
    ensures
        spec_block_key(section, seq![d, '_', '1', '_'] + inner) == Some(
            spec_envelope(section, digit_value(d) as int, 1)->Some_0 + "."@
                + spec_convert_inner(inner)->Some_0 + ".weight"@,
        ),
{
    let r = seq![d, '_', '1', '_'] + inner;
    let r2 = seq!['1', '_'] + inner;
    assert(r =~= seq![d] + seq!['_'] + r2);
    lemma_split_after(seq![d], r2);
    assert(r2 =~= seq!['1'] + seq!['_'] + inner);
    lemma_split_after(seq!['1'], inner);
    lemma_parse_digit(d);
    lemma_parse_digit('1');
}

/// The middle block's attention payloads: `lora_unet_middle_block_1_<inner>`
/// maps to `mid_block.attentions.0.<converted inner>.weight` for every
/// convertible payload.
#[verifier::rlimit(100)]
proof fn lemma_middle_key(inner: Seq<char>)
    requires
        spec_convert_inner(inner) is Some,
    ensures
        spec_map_module("lora_unet_middle_block_1_"@ + inner) == Some(
            "mid_block.attentions.0."@ + spec_convert_inner(inner)->Some_0 + ".weight"@,
        ),
{
    reveal_strlit("lora_unet_middle_block_1_");
    reveal_strlit("lora_unet_");
    reveal_strlit("middle_block_");
    reveal_strlit("input_blocks_");
    reveal_strlit("output_blocks_");
    reveal_strlit("mid_block.attentions.0.");
    reveal_strlit("mid_block.attentions.0");
    reveal_strlit(".");
    reveal_strlit("1");
    let k = "lora_unet_middle_block_1_"@ + inner;
    let m = "middle_block_"@ + seq!['1', '_'] + inner;
    assert(k =~= "lora_unet_"@ + m);
    lemma_strip_present("lora_unet_"@, m);
    lemma_strip_absent(m, "input_blocks_"@);
    lemma_strip_absent(m, "output_blocks_"@);
    assert(m =~= "middle_block_"@ + (seq!['1', '_'] + inner));
    lemma_strip_present("middle_block_"@, seq!['1', '_'] + inner);
    assert(seq!['1', '_'] + inner =~= seq!['1'] + seq!['_'] + inner);
    lemma_split_after(seq!['1'], inner);
    assert(seq!['1'] =~= "1"@);
    let ci = spec_convert_inner(inner)->Some_0;
    assert("mid_block.attentions.0"@ + "."@ + ci + ".weight"@ =~= "mid_block.attentions.0."@ + ci
        + ".weight"@);
}

/// `lora_unet_input_blocks_<d>_1_<inner>` maps through the input-section
/// envelope of block `d`.
#[verifier::rlimit(100)]
proof fn lemma_input_key(d: char, inner: Seq<char>)
    requires
        '0' <= d <= '9',
        spec_envelope("input_blocks"@, digit_value(d) as int, 1) is Some,
        spec_convert_inner(inner) is Some,
    ensures
        spec_map_module("lora_unet_input_blocks_"@ + seq![d, '_', '1', '_'] + inner)
            == spec_block_key("input_blocks"@, seq![d, '_', '1', '_'] + inner),
{
    reveal_strlit("lora_unet_input_blocks_");
    reveal_strlit("lora_unet_");
    reveal_strlit("input_blocks_");
    let r = seq![d, '_', '1', '_'] + inner;
    let m = "input_blocks_"@ + r;
    assert("lora_unet_input_blocks_"@ + seq![d, '_', '1', '_'] + inner =~= "lora_unet_"@ + m);
    lemma_strip_present("lora_unet_"@, m);
    lemma_strip_present("input_blocks_"@, r);
}

/// `lora_unet_output_blocks_<d>_1_<inner>` maps through the output-section
/// envelope of block `d`.
#[verifier::rlimit(100)]
proof fn lemma_output_key(d: char, inner: Seq<char>)
    requires
        '0' <= d <= '9',
        "output_blocks"@ != "input_blocks"@,
        spec_envelope("output_blocks"@, digit_value(d) as int, 1) is Some,
        spec_convert_inner(inner) is Some,
    ensures
        spec_map_module("lora_unet_output_blocks_"@ + seq![d, '_', '1', '_'] + inner)
            == spec_block_key("output_blocks"@, seq![d, '_', '1', '_'] + inner),
{
    reveal_strlit("lora_unet_output_blocks_");
    reveal_strlit("lora_unet_");
    reveal_strlit("output_blocks_");
    reveal_strlit("input_blocks_");
    let r = seq![d, '_', '1', '_'] + inner;
    let m = "output_blocks_"@ + r;
    assert("lora_unet_output_blocks_"@ + seq![d, '_', '1', '_'] + inner =~= "lora_unet_"@ + m);
    lemma_strip_present("lora_unet_"@, m);
    lemma_strip_absent(m, "input_blocks_"@);
    lemma_strip_present("output_blocks_"@, r);
}

/// The two section names differ.
proof fn lemma_sections_differ()
    ensures
        "output_blocks"@ != "input_blocks"@,
{
    reveal_strlit("output_blocks");
    reveal_strlit("input_blocks");
    assert("output_blocks"@[0] != "input_blocks"@[0]);
}

/// Block 4 of the input section maps through `down_blocks.1.attentions.0`.
#[verifier::rlimit(100)]
proof fn lemma_input_block_4(inner: Seq<char>)
    requires
        spec_convert_inner(inner) is Some,
    ensures
        spec_map_module("lora_unet_input_blocks_"@ + seq!['4', '_', '1', '_'] + inner) == Some(
            "down_blocks.1.attentions.0"@ + "."@ + spec_convert_inner(inner)->Some_0 + ".weight"@,
        ),
{
    lemma_input_key('4', inner);
    assert(digit_value('4') == 4);
    assert(spec_envelope("input_blocks"@, 4, 1) == Some("down_blocks.1.attentions.0"@));
    lemma_block_key_of("input_blocks"@, '4', inner);
}

/// Block 5 of the input section maps through `down_blocks.1.attentions.1`.
#[verifier::rlimit(100)]
proof fn lemma_input_block_5(inner: Seq<char>)
    requires
        spec_convert_inner(inner) is Some,
    ensures
        spec_map_module("lora_unet_input_blocks_"@ + seq!['5', '_', '1', '_'] + inner) == Some(
            "down_blocks.1.attentions.1"@ + "."@ + spec_convert_inner(inner)->Some_0 + ".weight"@,
        ),
{
    lemma_input_key('5', inner);
    assert(digit_value('5') == 5);
    assert(spec_envelope("input_blocks"@, 5, 1) == Some("down_blocks.1.attentions.1"@));
    lemma_block_key_of("input_blocks"@, '5', inner);
}

/// Block 7 of the input section maps through `down_blocks.2.attentions.0`.
#[verifier::rlimit(100)]
proof fn lemma_input_block_7(inner: Seq<char>)
    requires
        spec_convert_inner(inner) is Some,
    ensures
        spec_map_module("lora_unet_input_blocks_"@ + seq!['7', '_', '1', '_'] + inner) == Some(
            "down_blocks.2.attentions.0"@ + "."@ + spec_convert_inner(inner)->Some_0 + ".weight"@,
        ),
{
    lemma_input_key('7', inner);
    assert(digit_value('7') == 7);
    assert(spec_envelope("input_blocks"@, 7, 1) == Some("down_blocks.2.attentions.0"@));
    lemma_block_key_of("input_blocks"@, '7', inner);
}

/// Block 8 of the input section maps through `down_blocks.2.attentions.1`.
#[verifier::rlimit(100)]
proof fn lemma_input_block_8(inner: Seq<char>)
    requires
        spec_convert_inner(inner) is Some,
    ensures
        spec_map_module("lora_unet_input_blocks_"@ + seq!['8', '_', '1', '_'] + inner) == Some(
            "down_blocks.2.attentions.1"@ + "."@ + spec_convert_inner(inner)->Some_0 + ".weight"@,
        ),
{
    lemma_input_key('8', inner);
    assert(digit_value('8') == 8);
    assert(spec_envelope("input_blocks"@, 8, 1) == Some("down_blocks.2.attentions.1"@));
    lemma_block_key_of("input_blocks"@, '8', inner);
}

/// Block 0 of the output section maps through `up_blocks.0.attentions.0`.
#[verifier::rlimit(100)]
proof fn lemma_output_block_0(inner: Seq<char>)
    requires
        spec_convert_inner(inner) is Some,
    ensures
        spec_map_module("lora_unet_output_blocks_"@ + seq!['0', '_', '1', '_'] + inner) == Some(
            "up_blocks.0.attentions.0"@ + "."@ + spec_convert_inner(inner)->Some_0 + ".weight"@,
        ),
{
    lemma_sections_differ();
    lemma_output_key('0', inner);
    assert(digit_value('0') == 0);
    assert(spec_envelope("output_blocks"@, 0, 1) == Some("up_blocks.0.attentions.0"@));
    lemma_block_key_of("output_blocks"@, '0', inner);
}

/// Block 1 of the output section maps through `up_blocks.0.attentions.1`.
#[verifier::rlimit(100)]
proof fn lemma_output_block_1(inner: Seq<char>)
    requires
        spec_convert_inner(inner) is Some,
    ensures
        spec_map_module("lora_unet_output_blocks_"@ + seq!['1', '_', '1', '_'] + inner) == Some(
            "up_blocks.0.attentions.1"@ + "."@ + spec_convert_inner(inner)->Some_0 + ".weight"@,
        ),
{
    lemma_sections_differ();
    lemma_output_key('1', inner);
    assert(digit_value('1') == 1);
    assert(spec_envelope("output_blocks"@, 1, 1) == Some("up_blocks.0.attentions.1"@));
    lemma_block_key_of("output_blocks"@, '1', inner);
}

/// Block 2 of the output section maps through `up_blocks.0.attentions.2`.
#[verifier::rlimit(100)]
proof fn lemma_output_block_2(inner: Seq<char>)
    requires
        spec_convert_inner(inner) is Some,
    ensures
        spec_map_module("lora_unet_output_blocks_"@ + seq!['2', '_', '1', '_'] + inner) == Some(
            "up_blocks.0.attentions.2"@ + "."@ + spec_convert_inner(inner)->Some_0 + ".weight"@,
        ),
{
    lemma_sections_differ();
    lemma_output_key('2', inner);
    assert(digit_value('2') == 2);
    assert(spec_envelope("output_blocks"@, 2, 1) == Some("up_blocks.0.attentions.2"@));
    lemma_block_key_of("output_blocks"@, '2', inner);
}

/// Block 3 of the output section maps through `up_blocks.1.attentions.0`.
#[verifier::rlimit(100)]
proof fn lemma_output_block_3(inner: Seq<char>)
    requires
        spec_convert_inner(inner) is Some,
    ensures
        spec_map_module("lora_unet_output_blocks_"@ + seq!['3', '_', '1', '_'] + inner) == Some(
            "up_blocks.1.attentions.0"@ + "."@ + spec_convert_inner(inner)->Some_0 + ".weight"@,
        ),
{
    lemma_sections_differ();
    lemma_output_key('3', inner);
    assert(digit_value('3') == 3);
    assert(spec_envelope("output_blocks"@, 3, 1) == Some("up_blocks.1.attentions.0"@));
    lemma_block_key_of("output_blocks"@, '3', inner);
}

/// Block 4 of the output section maps through `up_blocks.1.attentions.1`.
#[verifier::rlimit(100)]
proof fn lemma_output_block_4(inner: Seq<char>)
    requires
        spec_convert_inner(inner) is Some,
    ensures
        spec_map_module("lora_unet_output_blocks_"@ + seq!['4', '_', '1', '_'] + inner) == Some(
            "up_blocks.1.attentions.1"@ + "."@ + spec_convert_inner(inner)->Some_0 + ".weight"@,
        ),
{
    lemma_sections_differ();
    lemma_output_key('4', inner);
    assert(digit_value('4') == 4);
    assert(spec_envelope("output_blocks"@, 4, 1) == Some("up_blocks.1.attentions.1"@));
    lemma_block_key_of("output_blocks"@, '4', inner);
}

/// Block 5 of the output section maps through `up_blocks.1.attentions.2`.
#[verifier::rlimit(100)]
proof fn lemma_output_block_5(inner: Seq<char>)
    requires
        spec_convert_inner(inner) is Some,
    ensures
        spec_map_module("lora_unet_output_blocks_"@ + seq!['5', '_', '1', '_'] + inner) == Some(
            "up_blocks.1.attentions.2"@ + "."@ + spec_convert_inner(inner)->Some_0 + ".weight"@,
        ),
{
    lemma_sections_differ();
    lemma_output_key('5', inner);
    assert(digit_value('5') == 5);
    assert(spec_envelope("output_blocks"@, 5, 1) == Some("up_blocks.1.attentions.2"@));
    lemma_block_key_of("output_blocks"@, '5', inner);
}

/// Every attention envelope passes its payload through: for each attention
/// block of the SDXL UNet (input blocks 4, 5, 7, 8; the middle block; output
/// blocks 0 to 5, all at sub-block 1) and every payload the converter
/// accepts, the module maps to `<diffusers block>.<converted payload>.weight`.
#[verifier::rlimit(100)]
pub proof fn lemma_attention_payload_keys(inner: Seq<char>)
    requires
        spec_convert_inner(inner) is Some,
    ensures
        spec_map_module("lora_unet_middle_block_1_"@ + inner) == Some(
            "mid_block.attentions.0."@ + spec_convert_inner(inner)->Some_0 + ".weight"@,
        ),
        spec_map_module("lora_unet_input_blocks_"@ + seq!['4', '_', '1', '_'] + inner) == Some(
            "down_blocks.1.attentions.0"@ + "."@ + spec_convert_inner(inner)->Some_0 + ".weight"@,
        ),
        spec_map_module("lora_unet_input_blocks_"@ + seq!['5', '_', '1', '_'] + inner) == Some(
            "down_blocks.1.attentions.1"@ + "."@ + spec_convert_inner(inner)->Some_0 + ".weight"@,
        ),
        spec_map_module("lora_unet_input_blocks_"@ + seq!['7', '_', '1', '_'] + inner) == Some(
            "down_blocks.2.attentions.0"@ + "."@ + spec_convert_inner(inner)->Some_0 + ".weight"@,
        ),
        spec_map_module("lora_unet_input_blocks_"@ + seq!['8', '_', '1', '_'] + inner) == Some(
            "down_blocks.2.attentions.1"@ + "."@ + spec_convert_inner(inner)->Some_0 + ".weight"@,
        ),
        spec_map_module("lora_unet_output_blocks_"@ + seq!['0', '_', '1', '_'] + inner) == Some(
            "up_blocks.0.attentions.0"@ + "."@ + spec_convert_inner(inner)->Some_0 + ".weight"@,
        ),
        spec_map_module("lora_unet_output_blocks_"@ + seq!['1', '_', '1', '_'] + inner) == Some(
            "up_blocks.0.attentions.1"@ + "."@ + spec_convert_inner(inner)->Some_0 + ".weight"@,
        ),
        spec_map_module("lora_unet_output_blocks_"@ + seq!['2', '_', '1', '_'] + inner) == Some(
            "up_blocks.0.attentions.2"@ + "."@ + spec_convert_inner(inner)->Some_0 + ".weight"@,
        ),
        spec_map_module("lora_unet_output_blocks_"@ + seq!['3', '_', '1', '_'] + inner) == Some(
            "up_blocks.1.attentions.0"@ + "."@ + spec_convert_inner(inner)->Some_0 + ".weight"@,
        ),
        spec_map_module("lora_unet_output_blocks_"@ + seq!['4', '_', '1', '_'] + inner) == Some(
            "up_blocks.1.attentions.1"@ + "."@ + spec_convert_inner(inner)->Some_0 + ".weight"@,
        ),
        spec_map_module("lora_unet_output_blocks_"@ + seq!['5', '_', '1', '_'] + inner) == Some(
            "up_blocks.1.attentions.2"@ + "."@ + spec_convert_inner(inner)->Some_0 + ".weight"@,
        ),
{
    lemma_middle_key(inner);
    lemma_input_block_4(inner);
    lemma_input_block_5(inner);
    lemma_input_block_7(inner);
    lemma_input_block_8(inner);
    lemma_output_block_0(inner);
    lemma_output_block_1(inner);
    lemma_output_block_2(inner);
    lemma_output_block_3(inner);
    lemma_output_block_4(inner);
    lemma_output_block_5(inner);
}

/// The projections pass through every envelope: `proj_in` and `proj_out`
/// are payloads the converter keeps as they are, so
/// `lora_unet_middle_block_1_proj_in` maps to
/// `mid_block.attentions.0.proj_in.weight` (and likewise `proj_out`).
pub proof fn lemma_projections_pass_through()
    ensures
        spec_convert_inner("proj_in"@) == Some("proj_in"@),
        spec_convert_inner("proj_out"@) == Some("proj_out"@),
        spec_map_module("lora_unet_middle_block_1_"@ + "proj_in"@) == Some(
            "mid_block.attentions.0."@ + "proj_in"@ + ".weight"@,
        ),
        spec_map_module("lora_unet_middle_block_1_"@ + "proj_out"@) == Some(
            "mid_block.attentions.0."@ + "proj_out"@ + ".weight"@,
        ),
{
    lemma_middle_key("proj_in"@);
    lemma_middle_key("proj_out"@);
}

} // verus!
