//! The integer parts of the pixelize pipeline: colors, parameters, the crop
//! that trims noisy borders, cell-boundary finishing, distinct-color counting
//! and the deterministic generator that seeds the palette search.

use vstd::prelude::*;
use vstd::seq_lib::{seq_to_set_is_finite, group_to_multiset_ensures};
use vstd::set_lib::lemma_map_size;

verus! {

/// An sRGB color.
#[derive(Clone, Copy, Debug, PartialEq, Eq, Structural)]
pub struct Rgb {
    pub r: u8,
    pub g: u8,
    pub b: u8,
}

impl Rgb {
    pub fn new(r: u8, g: u8, b: u8) -> (c: Self)
        ensures
            c == (Rgb { r, g, b }),
    {
        Rgb { r, g, b }
    }
}

/// Image axis of a change signal.
#[derive(Clone, Copy, Debug, PartialEq, Eq, Structural)]
pub enum Axis {
    X,
    Y,
}

/// Knobs of the pixelize pass.
#[derive(Clone, Copy, Debug, PartialEq, Eq, Structural)]
pub struct PixelizeParams {
    /// Force the logical cell size in source pixels, bypassing detection entirely.
    pub pixel_size: Option<u32>,
    /// Fallback logical long-edge (in cells) used only when detection fails.
    pub target_cells: Option<u32>,
    /// Palette size. `0` keeps every distinct cell color (no quantization).
    pub max_colors: u16,
    /// Border pixels trimmed before detection (AI borders are often noisy).
    pub trim_border: u32,
    /// Alpha at or above this is opaque; below is treated as transparent.
    pub alpha_threshold: u8,
    /// Seed for the deterministic k-means init.
    pub kmeans_seed: u64,
}

impl Default for PixelizeParams {
    fn default() -> (p: Self)
        ensures
            p == (PixelizeParams {
                pixel_size: None,
                target_cells: Some(128),
                max_colors: 16,
                trim_border: 2,
                alpha_threshold: 128,
                kmeans_seed: 0,
            }),
    {
        PixelizeParams {
            pixel_size: None,
            target_cells: Some(128),
            max_colors: 16,
            trim_border: 2,
            alpha_threshold: 128,
            kmeans_seed: 0,
        }
    }
}

/// Why pixelize refused an image.
#[derive(Clone, Copy, Debug, PartialEq, Eq, Structural)]
pub enum PixelizeError {
    /// Image too small for grid detection.
    TooSmall,
}

/// The region left after trimming the border: `trim` pixels off each side,
/// `width` x `height` remaining.
#[derive(Clone, Copy, Debug, PartialEq, Eq, Structural)]
pub struct CropRegion {
    pub trim: u32,
    pub width: u32,
    pub height: u32,
}

/// Trim at most a quarter of the shorter side; what is left must be at least
/// 4x4 pixels.
pub open spec fn spec_crop_region(w0: nat, h0: nat, trim_border: nat) -> Result<
    CropRegion,
    PixelizeError,
> {
    let t = if trim_border <= w0 / 4 && trim_border <= h0 / 4 {
        trim_border
    } else if w0 / 4 <= h0 / 4 {
        w0 / 4
    } else {
        h0 / 4
    };
    let w = w0 - 2 * t;
    let h = h0 - 2 * t;
    if w < 4 || h < 4 {
        Err(PixelizeError::TooSmall)
    } else {
        Ok(CropRegion { trim: t as u32, width: w as u32, height: h as u32 })
    }
}

/// The border trim of a `w0` x `h0` image and the size that remains, or
/// `TooSmall` when less than 4x4 pixels would be left.
pub fn crop_region(w0: u32, h0: u32, trim_border: u32) -> (r: Result<CropRegion, PixelizeError>)
    ensures
        r == spec_crop_region(w0 as nat, h0 as nat, trim_border as nat),
{
    let a = if trim_border < w0 / 4 {
        trim_border
    } else {
        w0 / 4
    };
    let t = if a < h0 / 4 {
        a
    } else {
        h0 / 4
    };
    let w = w0 - 2 * t;
    let h = h0 - 2 * t;
    if w < 4 || h < 4 {
        Err(PixelizeError::TooSmall)
    } else {
        Ok(CropRegion { trim: t, width: w, height: h })
    }
}

/// Strictly increasing.
pub open spec fn increasing(b: Seq<usize>) -> bool {
    forall|i: int, j: int| 0 <= i < j < b.len() ==> b[i] < b[j]
}

/// Column boundaries `0 = b[0] < b[1] < ... < len`: interior boundaries
/// found so far, before the closing `len` is appended.
pub open spec fn open_boundaries(b: Seq<usize>, len: nat) -> bool {
    &&& b.len() >= 1
    &&& b[0] == 0
    &&& increasing(b)
    &&& forall|i: int| 1 <= i < b.len() ==> b[i] < len
}

/// Close the boundary list with `len`, then merge a head or tail sliver
/// narrower than `thr` (at least 1) into its neighbour.
pub open spec fn spec_finish_boundaries(b: Seq<usize>, len: usize, thr_raw: usize) -> Seq<usize> {
    let c = if b.last() == len {
        b
    } else {
        b.push(len)
    };
    let thr = if thr_raw > 1 {
        thr_raw
    } else {
        1
    };
    let c2 = if c.len() >= 3 && c[1] - c[0] < thr {
        c.remove(1)
    } else {
        c
    };
    let n = c2.len();
    if n >= 3 && c2[n - 1] - c2[n - 2] < thr {
        c2.remove(n - 2)
    } else {
        c2
    }
}

/// Close the boundary list `b` with `len` and merge head/tail slivers shorter
/// than `max(thr_raw, 1)` so that non-integer periods and phase offsets do not
/// spawn a spurious thin cell.
pub fn finish_boundaries(b: Vec<usize>, len: usize, thr_raw: usize) -> (r: Vec<usize>)
    requires
        open_boundaries(b@, len as nat),
    ensures
        r@ == spec_finish_boundaries(b@, len, thr_raw),
{
    let mut b = b;
    if b[b.len() - 1] != len {
        b.push(len);
    }
    let thr = if thr_raw > 1 {
        thr_raw
    } else {
        1
    };
    if b.len() >= 3 && b[1] - b[0] < thr {
        b.remove(1);
    }
    let n = b.len();
    if n >= 3 && b[n - 1] - b[n - 2] < thr {
        b.remove(n - 2);
    }
    b
}

/// Finished boundaries start at 0, end at `len` and strictly increase, so
/// every cell between two of them is at least one pixel wide.
pub proof fn lemma_finished_boundaries_are_cells(b: Seq<usize>, len: usize, thr_raw: usize)
    requires
        open_boundaries(b, len as nat),
    ensures
        ({
            let r = spec_finish_boundaries(b, len, thr_raw);
            &&& r.len() >= 1
            &&& r[0] == 0
            &&& r.last() == len
            &&& increasing(r)
            &&& len > 0 ==> r.len() >= 2
        }),
{
    let c = if b.last() == len {
        b
    } else {
        b.push(len)
    };
    if b.last() != len {
        assert(b.last() < len || b.len() == 1);
    }
    assert(increasing(c));
    let thr = if thr_raw > 1 {
        thr_raw
    } else {
        1
    };
    let c2 = if c.len() >= 3 && c[1] - c[0] < thr {
        c.remove(1)
    } else {
        c
    };
    assert(increasing(c2));
    assert(c2[0] == 0 && c2.last() == len);
    let n = c2.len();
    let r = if n >= 3 && c2[n - 1] - c2[n - 2] < thr {
        c2.remove(n - 2)
    } else {
        c2
    };
    assert(increasing(r));
}

/// Removing index `k` from a strictly increasing list drops exactly the value
/// at `k`: every other value stays and nothing new appears.
proof fn lemma_remove_from_increasing(c: Seq<usize>, k: int)
    requires
        increasing(c),
        0 <= k < c.len(),
    ensures
        !c.remove(k).contains(c[k]),
        forall|i: int| 0 <= i < c.len() && i != k ==> c.remove(k).contains(#[trigger] c[i]),
        forall|x: usize| c.remove(k).contains(x) ==> c.contains(x),
        increasing(c.remove(k)),
{
    let r = c.remove(k);
    assert forall|j: int| 0 <= j < r.len() implies r[j] != c[k] by {
        if j < k {
            assert(r[j] == c[j]);
        } else {
            assert(r[j] == c[j + 1]);
        }
    }
    assert forall|i: int| 0 <= i < c.len() && i != k implies r.contains(#[trigger] c[i]) by {
        if i < k {
            assert(r[i] == c[i]);
        } else {
            assert(r[i - 1] == c[i]);
        }
    }
    assert forall|x: usize| r.contains(x) implies c.contains(x) by {
        let j = choose|j: int| 0 <= j < r.len() && r[j] == x;
        if j < k {
            assert(c[j] == x);
        } else {
            assert(c[j + 1] == x);
        }
    }
}

/// Slivers at both ends are merged, each on its own: finishing only drops
/// boundaries of the closed list (the boundaries with `len` appended); it
/// drops the boundary after 0 when the head cell is narrower than the
/// threshold `max(thr_raw, 1)`, drops the boundary before `len` when the tail
/// cell is narrower (whether or not the head was merged, as long as a cell
/// is left to merge it into), and keeps every boundary in between.
pub proof fn lemma_slivers_merged(b: Seq<usize>, len: usize, thr_raw: usize)
    requires
        open_boundaries(b, len as nat),
    ensures
        ({
            let c = if b.last() == len {
                b
            } else {
                b.push(len)
            };
            let t = if thr_raw > 1 {
                thr_raw
            } else {
                1
            };
            let n = c.len() as int;
            let r = spec_finish_boundaries(b, len, thr_raw);
            &&& forall|x: usize| r.contains(x) ==> c.contains(x)
            &&& n >= 3 && c[1] - c[0] < t ==> !r.contains(c[1])
            &&& n >= 3 && c[n - 1] - c[n - 2] < t && (n >= 4 || c[1] - c[0] >= t) ==> !r.contains(
                c[n - 2],
            )
            &&& forall|i: int| 2 <= i < n - 2 ==> r.contains(#[trigger] c[i])
        }),
{
    let c = if b.last() == len {
        b
    } else {
        b.push(len)
    };
    if b.last() != len {
        assert(b.last() < len || b.len() == 1);
    }
    assert(increasing(c));
    let t = if thr_raw > 1 {
        thr_raw
    } else {
        1
    };
    let n = c.len() as int;
    let head = n >= 3 && c[1] - c[0] < t;
    let c2 = if head {
        c.remove(1)
    } else {
        c
    };
    if head {
        lemma_remove_from_increasing(c, 1);
        assert forall|i: int| 1 <= i < c2.len() implies c2[i] == c[i + 1] by {}
    }
    let m = c2.len() as int;
    let tail = m >= 3 && c2[m - 1] - c2[m - 2] < t;
    let r = if tail {
        c2.remove(m - 2)
    } else {
        c2
    };
    if tail {
        lemma_remove_from_increasing(c2, m - 2);
    }
    assert(r == spec_finish_boundaries(b, len, thr_raw));
    if n >= 3 && c[n - 1] - c[n - 2] < t && (n >= 4 || c[1] - c[0] >= t) {
        if head {
            assert(c2[m - 1] == c[n - 1]);
            assert(c2[m - 2] == c[n - 2]);
        }
        assert(!r.contains(c[n - 2]));
    }
    if head {
        if tail {
            assert forall|x: usize| r.contains(x) implies !(x == c[1]) by {}
        }
    }
    assert forall|i: int| 2 <= i < n - 2 implies r.contains(#[trigger] c[i]) by {
        if head {
            assert(c2[i - 1] == c[i]);
            if tail {
                assert(i - 1 != m - 2);
                assert(r.contains(c2[i - 1]));
            }
        } else if tail {
            assert(i != m - 2);
            assert(r.contains(c2[i]));
        }
    }
}

/// `(r, g, b)` packed into one integer, red most significant.
pub open spec fn packed(c: Rgb) -> u32 {
    ((c.r as int) * 65536 + (c.g as int) * 256 + (c.b as int)) as u32
}

/// The number of distinct colors in `colors`.
pub open spec fn spec_distinct(colors: Seq<Rgb>) -> nat {
    colors.to_set().len()
}

fn pack(c: Rgb) -> (p: u32)
    ensures
        p == packed(c),
{
    let r = c.r as u32;
    let g = c.g as u32;
    let b = c.b as u32;
    let p = r << 16 | g << 8 | b;
    assert(p == r * 65536 + g * 256 + b) by (bit_vector)
        requires
            r < 256 && g < 256 && b < 256 && p == r << 16 | g << 8 | b,
    ;
    p
}

/// `sort_unstable` on `v`: ascending, same elements (with multiplicity).
#[verifier::external_body]
fn sort_u32(v: &mut Vec<u32>)
    ensures
        final(v)@.to_multiset() == old(v)@.to_multiset(),
        forall|i: int, j: int| 0 <= i < j < final(v)@.len() ==> final(v)@[i] <= final(v)@[j],
{
    v.sort_unstable();
}

proof fn lemma_packed_injective(c1: Rgb, c2: Rgb)
    requires
        packed(c1) == packed(c2),
    ensures
        c1 == c2,
{
    assert(c1.r == c2.r && c1.g == c2.g && c1.b == c2.b) by (nonlinear_arith)
        requires
            (c1.r as int) * 65536 + (c1.g as int) * 256 + (c1.b as int) == (c2.r as int) * 65536
                + (c2.g as int) * 256 + (c2.b as int),
            c1.r < 256,
            c1.g < 256,
            c1.b < 256,
            c2.r < 256,
            c2.g < 256,
            c2.b < 256,
    ;
}

/// Number of distinct colors in `colors`.
pub fn distinct(colors: &[Rgb]) -> (n: usize)
    ensures
        n == spec_distinct(colors@),
{
    broadcast use seq_to_set_is_finite, group_to_multiset_ensures;

    let mut v: Vec<u32> = Vec::new();
    let mut i: usize = 0;
    while i < colors.len()
        invariant
            0 <= i <= colors@.len(),
            v@ == colors@.take(i as int).map_values(|c: Rgb| packed(c)),
        decreases colors.len() - i,
    {
        v.push(pack(colors[i]));
        i += 1;
        assert(colors@.take(i as int).map_values(|c: Rgb| packed(c)) =~= colors@.take(
            i - 1,
        ).map_values(|c: Rgb| packed(c)).push(packed(colors@[i - 1])));
    }
    assert(colors@.take(colors@.len() as int) =~= colors@);
    let ghost unsorted = v@;
    sort_u32(&mut v);
    let mut n: usize = 0;
    let mut k: usize = 0;
    assert(v@.take(0).to_set() =~= Set::<u32>::empty());
    while k < v.len()
        invariant
            0 <= k <= v@.len(),
            forall|a: int, b: int| 0 <= a < b < v@.len() ==> v@[a] <= v@[b],
            n == v@.take(k as int).to_set().len(),
            n <= k,
        decreases v.len() - k,
    {
        let fresh = k == 0 || v[k] != v[k - 1];
        proof {
            let pre = v@.take(k as int);
            assert(v@.take(k + 1) =~= pre.push(v@[k as int]));
            pre.lemma_push_to_set_commute(v@[k as int]);
            if fresh {
                if pre.contains(v@[k as int]) {
                    let j = choose|j: int| 0 <= j < pre.len() && pre[j] == v@[k as int];
                    assert(v@[j] <= v@[k - 1]);
                }
            } else {
                assert(pre[k - 1] == v@[k as int]);
                assert(pre.contains(v@[k as int]));
            }
        }
        if fresh {
            n += 1;
        }
        k += 1;
    }
    proof {
        assert(v@.take(v@.len() as int) =~= v@);
        assert(v@.to_set() =~= unsorted.to_set()) by {
            assert forall|x: u32| v@.contains(x) <==> unsorted.contains(x) by {
                assert(v@.contains(x) <==> v@.to_multiset().count(x) > 0);
                assert(unsorted.contains(x) <==> unsorted.to_multiset().count(x) > 0);
            }
        }
        colors@.lemma_to_set_map_commutes(|c: Rgb| packed(c));
        assert forall|c1: Rgb, c2: Rgb|
            colors@.to_set().contains(c1) && colors@.to_set().contains(c2) && packed(c1) == packed(
                c2,
            ) implies c1 == c2 by {
            lemma_packed_injective(c1, c2);
        }
        assert(vstd::relations::injective_on(|c: Rgb| packed(c), colors@.to_set()));
        lemma_map_size(colors@.to_set(), unsorted.to_set(), |c: Rgb| packed(c));
    }
    n
}

} // verus!

verus! {

/// Palette size reported for a result: the palette's length, or the number of
/// distinct cell colors when no palette was built, as a `u16` (wrapping).
pub fn report_palette_len(palette_len: usize, opaque_colors: &[Rgb]) -> (r: u16)
    ensures
        r == (if palette_len == 0 {
            spec_distinct(opaque_colors@)
        } else {
            palette_len as nat
        }) as u16,
{
    if palette_len == 0 {
        distinct(opaque_colors) as u16
    } else {
        palette_len as u16
    }
}

/// One step of the 64-bit linear congruential generator.
pub open spec fn lcg_step(s: u64) -> u64 {
    ((s as nat * 6364136223846793005 + 1442695040888963407) % 0x1_0000_0000_0000_0000) as u64
}

/// Deterministic generator for the k-means initialisation: the same seed
/// always yields the same sequence.
pub struct Lcg {
    state: u64,
}

impl Lcg {
    pub closed spec fn state(&self) -> u64 {
        self.state
    }

    /// A generator seeded from `seed` (golden-ratio offset, forced odd).
    pub fn new(seed: u64) -> (g: Self)
        ensures
            g.state() == (((seed as nat + 0x9E37_79B9_7F4A_7C15) % 0x1_0000_0000_0000_0000) as u64
                | 1),
    {
        Lcg { state: seed.wrapping_add(0x9E37_79B9_7F4A_7C15) | 1 }
    }

    /// Advance the generator and return its top 24 bits; `bits / 2^24` is
    /// the next uniform sample in `[0, 1)`.
    pub fn next_bits(&mut self) -> (r: u32)
        ensures
            final(self).state() == lcg_step(old(self).state()),
            r == final(self).state() >> 40,
    {
        let w = self.state.wrapping_mul(6364136223846793005);
        self.state = w.wrapping_add(1442695040888963407);
        proof {
            let s = old(self).state as int;
            let m = 0x1_0000_0000_0000_0000int;
            let b = 1442695040888963407int;
            assert(w as int == (s * 6364136223846793005) % m);
            assert(self.state as int == (w as int + b) % m);
            vstd::arithmetic::div_mod::lemma_small_mod(b as nat, m as nat);
            vstd::arithmetic::div_mod::lemma_add_mod_noop(s * 6364136223846793005, b, m);
            vstd::arithmetic::div_mod::lemma_small_mod(w as nat, m as nat);
        }
        let st = self.state;
        let top = st >> 40;
        assert(top < 0x100_0000) by (bit_vector)
            requires
                top == st >> 40,
        ;
        top as u32
    }
}

/// Every sample of the generator has at most 24 bits, so `bits / 2^24` lies
/// in `[0, 1)`.
pub proof fn lemma_sample_below_one(s: u64)
    ensures
        (s >> 40) < 0x100_0000,
{
    assert((s >> 40) < 0x100_0000) by (bit_vector);
}

} // verus!
