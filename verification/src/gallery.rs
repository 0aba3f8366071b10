//! Gallery state: the navigable list of images with a cursor that can ride the
//! live edge of a streaming batch, plus the choice of a non-clobbering save
//! destination.

use vstd::prelude::*;
use vstd::string::StringExecFns;
use crate::paths::{extension, file_stem, path_join, spec_extension, spec_file_stem, spec_path_join};
use crate::text::{chars_of, extend_str, spec_decimal, string_from_chars, u64_to_decimal};

verus! {

/// One image in the gallery.
#[derive(Clone, Debug, PartialEq)]
pub struct Entry {
    pub path: String,
    pub prompt: String,
    /// The seed that produced it, when known (`None` for a browsed directory).
    pub seed: Option<u64>,
    /// Whether the user has copied this one into the saved folder.
    pub saved: bool,
}

/// The navigable list of images plus a cursor.
///
/// `follow_edge` tracks whether the cursor is "riding the live edge": while it
/// is, newly pushed images auto-advance the cursor to the newest; once the user
/// steps back to inspect, their position is held and only the count grows.
pub struct Gallery {
    pub entries: Vec<Entry>,
    pub current: usize,
    pub follow_edge: bool,
}

/// Abstract state of a gallery: its entries, the cursor and whether the cursor
/// follows the live edge.
pub struct GalleryState {
    pub entries: Seq<Entry>,
    pub current: nat,
    pub following: bool,
}

impl GalleryState {
    /// The cursor points at an entry, or at 0 when there is none.
    pub open spec fn wf(self) -> bool {
        self.current < self.entries.len() || (self.entries.len() == 0 && self.current == 0)
    }

    /// The cursor is on the last entry (or past it).
    pub open spec fn at_edge(self) -> bool {
        self.current + 1 >= self.entries.len()
    }

    pub open spec fn next(self) -> GalleryState {
        let current = if self.current + 1 < self.entries.len() {
            self.current + 1
        } else {
            self.current
        };
        GalleryState {
            entries: self.entries,
            current,
            following: current + 1 >= self.entries.len(),
        }
    }

    pub open spec fn prev(self) -> GalleryState {
        GalleryState {
            entries: self.entries,
            current: if self.current > 0 {
                (self.current - 1) as nat
            } else {
                0
            },
            following: false,
        }
    }

    pub open spec fn first(self) -> GalleryState {
        GalleryState { entries: self.entries, current: 0, following: self.entries.len() <= 1 }
    }

    pub open spec fn last(self) -> GalleryState {
        GalleryState {
            entries: self.entries,
            current: if self.entries.len() > 0 {
                (self.entries.len() - 1) as nat
            } else {
                0
            },
            following: true,
        }
    }

    /// The current entry removed; the cursor stays, or moves to the new last
    /// entry when it was on the last one. Nothing changes without a current
    /// entry.
    pub open spec fn discard(self) -> GalleryState {
        if self.current < self.entries.len() {
            let entries = self.entries.remove(self.current as int);
            GalleryState {
                entries,
                current: if self.current < entries.len() {
                    self.current
                } else if entries.len() > 0 {
                    (entries.len() - 1) as nat
                } else {
                    0
                },
                following: self.following,
            }
        } else {
            self
        }
    }

    pub open spec fn push(self, e: Entry) -> GalleryState {
        GalleryState {
            entries: self.entries.push(e),
            current: if self.following {
                self.entries.len()
            } else {
                self.current
            },
            following: self.following,
        }
    }
}

impl View for Gallery {
    type V = GalleryState;

    open spec fn view(&self) -> GalleryState {
        GalleryState {
            entries: self.entries@,
            current: self.current as nat,
            following: self.follow_edge,
        }
    }
}

impl Default for Gallery {
    fn default() -> (g: Self)
        ensures
            g@ == (GalleryState { entries: Seq::empty(), current: 0, following: false }),
    {
        Gallery { entries: Vec::new(), current: 0, follow_edge: false }
    }
}

impl Gallery {
    /// An empty gallery that follows the live edge (for streaming generation).
    pub fn live() -> (g: Self)
        ensures
            g@ == (GalleryState { entries: Seq::empty(), current: 0, following: true }),
    {
        Gallery { entries: Vec::new(), current: 0, follow_edge: true }
    }

    /// A fixed gallery over already-known images (for browsing a directory).
    pub fn fixed(entries: Vec<Entry>) -> (g: Self)
        ensures
            g@ == (GalleryState { entries: entries@, current: 0, following: false }),
    {
        Gallery { entries, current: 0, follow_edge: false }
    }

    pub fn len(&self) -> (n: usize)
        ensures
            n == self@.entries.len(),
    {
        self.entries.len()
    }

    pub fn is_empty(&self) -> (b: bool)
        ensures
            b == (self@.entries.len() == 0),
    {
        self.entries.len() == 0
    }

    pub fn current(&self) -> (e: Option<&Entry>)
        ensures
            e == (if self@.current < self@.entries.len() {
                Some(&self@.entries[self@.current as int])
            } else {
                None
            }),
    {
        if self.current < self.entries.len() {
            Some(&self.entries[self.current])
        } else {
            None
        }
    }

    pub fn current_mut(&mut self) -> (e: Option<&mut Entry>)
        ensures
            old(self)@.current < old(self)@.entries.len() <==> e is Some,
            final(self)@.current == old(self)@.current,
            final(self)@.following == old(self)@.following,
            e is None ==> final(self)@.entries == old(self)@.entries,
            e matches Some(r) ==> *r == old(self)@.entries[old(self)@.current as int]
                && final(self)@.entries == old(self)@.entries.update(old(self)@.current as int, *final(r)),
    {
        if self.current < self.entries.len() {
            let i = self.current;
            Some(&mut self.entries[i])
        } else {
            None
        }
    }

    fn at_edge(&self) -> (b: bool)
        requires
            self@.current < usize::MAX,
        ensures
            b == self@.at_edge(),
    {
        self.current + 1 >= self.entries.len()
    }

    pub fn next(&mut self)
        requires
            old(self)@.current < usize::MAX,
        ensures
            final(self)@ == old(self)@.next(),
    {
        if self.current + 1 < self.entries.len() {
            self.current += 1;
        }
        self.follow_edge = self.at_edge();
    }

    pub fn prev(&mut self)
        ensures
            final(self)@ == old(self)@.prev(),
    {
        self.current = if self.current > 0 {
            self.current - 1
        } else {
            0
        };
        self.follow_edge = false;
    }

    pub fn first(&mut self)
        ensures
            final(self)@ == old(self)@.first(),
    {
        self.current = 0;
        self.follow_edge = self.entries.len() <= 1;
    }

    pub fn last(&mut self)
        ensures
            final(self)@ == old(self)@.last(),
    {
        self.current = if self.entries.len() > 0 {
            self.entries.len() - 1
        } else {
            0
        };
        self.follow_edge = true;
    }

    /// Discard the current entry (see `GalleryState::discard`) and hand it
    /// back.
    pub fn discard_current(&mut self) -> (e: Option<Entry>)
        ensures
            final(self)@ == old(self)@.discard(),
            e == (if old(self)@.current < old(self)@.entries.len() {
                Some(old(self)@.entries[old(self)@.current as int])
            } else {
                None
            }),
    {
        if self.current < self.entries.len() {
            let e = self.entries.remove(self.current);
            if self.current >= self.entries.len() {
                self.current = if self.entries.len() > 0 {
                    self.entries.len() - 1
                } else {
                    0
                };
            }
            Some(e)
        } else {
            None
        }
    }

    /// Append a freshly generated image, advancing the cursor only if we're
    /// following the live edge.
    pub fn push(&mut self, entry: Entry)
        ensures
            final(self)@ == old(self)@.push(entry),
    {
        self.entries.push(entry);
        if self.follow_edge {
            self.current = self.entries.len() - 1;
        }
    }
}

} // verus!

verus! {

/// The file stem of `path`, or `img` when it has none.
pub open spec fn save_stem(path: Seq<char>) -> Seq<char> {
    match spec_file_stem(path) {
        Some(s) => s,
        None => "img"@,
    }
}

/// The extension of `path`, or `png` when it has none.
pub open spec fn save_ext(path: Seq<char>) -> Seq<char> {
    match spec_extension(path) {
        Some(e) => e,
        None => "png"@,
    }
}

/// `<dir>/<stem>.<ext>`: the source name kept as is.
pub open spec fn direct_dest(dir: Seq<char>, path: Seq<char>) -> Seq<char> {
    spec_path_join(dir, save_stem(path) + "."@ + save_ext(path))
}

/// `<dir>/<stem>_<k>.<ext>`: the name disambiguated by a number (the seed, or
/// a counter).
pub open spec fn suffixed_dest(dir: Seq<char>, path: Seq<char>, k: nat) -> Seq<char> {
    spec_path_join(dir, save_stem(path) + "_"@ + spec_decimal(k) + "."@ + save_ext(path))
}

/// Every call of `taken` on the path `p` reports it free.
pub open spec fn reported_free<F: Fn(&str) -> bool>(taken: F, p: Seq<char>) -> bool {
    forall|q: &str, r: bool| q@ == p && #[trigger] call_ensures(taken, (q,), r) ==> !r
}

/// A call of `taken` on the path `p` can report it taken.
pub open spec fn reported_taken<F: Fn(&str) -> bool>(taken: F, p: Seq<char>) -> bool {
    exists|q: &str| q@ == p && #[trigger] call_ensures(taken, (q,), true)
}

/// A call of `taken` on the path `p` can report it free.
pub open spec fn may_report_free<F: Fn(&str) -> bool>(taken: F, p: Seq<char>) -> bool {
    exists|q: &str| q@ == p && #[trigger] call_ensures(taken, (q,), false)
}

fn join_name(dir: &str, stem: &str, suffix: Option<u64>, ext: &str) -> (r: String)
    ensures
        r@ == spec_path_join(
            dir@,
            match suffix {
                Some(k) => stem@ + "_"@ + spec_decimal(k as nat) + "."@ + ext@,
                None => stem@ + "."@ + ext@,
            },
        ),
{
    let mut name = chars_of(stem);
    if let Some(k) = suffix {
        extend_str(&mut name, "_");
        let d = u64_to_decimal(k);
        extend_str(&mut name, d.as_str());
    }
    extend_str(&mut name, ".");
    extend_str(&mut name, ext);
    let name = string_from_chars(name.as_slice());
    path_join(dir, name.as_str())
}

/// What a search for a save destination may return: the plain name when it
/// is first; otherwise, after the plain name was reported taken, the seed
/// name, or the `k`-th numbered name once the seed name (if any) and every
/// smaller number were reported taken. The returned name can be reported
/// free.
pub open spec fn chosen_dest<F: Fn(&str) -> bool>(
    taken: F,
    dir: Seq<char>,
    entry: Entry,
    dest: Seq<char>,
) -> bool {
    &&& may_report_free(taken, dest)
    &&& dest == direct_dest(dir, entry.path@) || (reported_taken(taken, direct_dest(dir, entry.path@))
        && ((entry.seed matches Some(s) && dest == suffixed_dest(dir, entry.path@, s as nat)) || (
    exists|k: u32|
        1 <= k && dest == suffixed_dest(dir, entry.path@, k as nat) && (entry.seed matches Some(s)
            ==> reported_taken(taken, suffixed_dest(dir, entry.path@, s as nat))) && forall|j: u32|
            1 <= j < k ==> #[trigger] reported_taken(taken, suffixed_dest(dir, entry.path@, j as nat)))))
}

/// Every candidate was reported taken: the plain name, the seed name (if
/// any) and every numbered name a `u32` counter reaches.
pub open spec fn all_taken<F: Fn(&str) -> bool>(taken: F, dir: Seq<char>, entry: Entry) -> bool {
    &&& reported_taken(taken, direct_dest(dir, entry.path@))
    &&& (entry.seed matches Some(s) ==> reported_taken(taken, suffixed_dest(dir, entry.path@, s as nat)))
    &&& forall|j: u32|
        1 <= j ==> #[trigger] reported_taken(taken, suffixed_dest(dir, entry.path@, j as nat))
}

/// Search for a save destination (see `save_dest`), giving up with `None`
/// when the numeric suffix would pass `u32::MAX`.
pub fn try_save_dest(saved_dir: &str, entry: &Entry, taken: impl Fn(&str) -> bool) -> (dest:
    Option<String>)
    requires
        forall|p: &str| call_requires(taken, (p,)),
    ensures
        dest matches Some(d) ==> chosen_dest(taken, saved_dir@, *entry, d@),
        dest is None ==> all_taken(taken, saved_dir@, *entry),
{
    let stem = match file_stem(entry.path.as_str()) {
        Some(s) => s,
        None => String::from_str("img"),
    };
    let ext = match extension(entry.path.as_str()) {
        Some(e) => e,
        None => String::from_str("png"),
    };
    let ghost dir = saved_dir@;
    let ghost path = entry.path@;
    assert(stem@ == save_stem(path));
    assert(ext@ == save_ext(path));

    let direct = join_name(saved_dir, stem.as_str(), None, ext.as_str());
    let ds = direct.as_str();
    if !taken(ds) {
        return Some(direct);
    }
    assert(reported_taken(taken, direct_dest(dir, path)));
    if let Some(seed) = entry.seed {
        let with_seed = join_name(saved_dir, stem.as_str(), Some(seed), ext.as_str());
        let ss = with_seed.as_str();
        if !taken(ss) {
            return Some(with_seed);
        }
        assert(reported_taken(taken, suffixed_dest(dir, path, seed as nat)));
    }
    let mut n: u32 = 1;
    loop
        invariant
            1 <= n,
            forall|p: &str| call_requires(taken, (p,)),
            forall|j: u32|
                1 <= j < n ==> #[trigger] reported_taken(taken, suffixed_dest(dir, path, j as nat)),
            stem@ == save_stem(path),
            ext@ == save_ext(path),
            dir == saved_dir@,
            path == entry.path@,
            reported_taken(taken, direct_dest(dir, path)),
            entry.seed matches Some(s) ==> reported_taken(taken, suffixed_dest(dir, path, s as nat)),
        decreases u32::MAX - n,
    {
        let cand = join_name(saved_dir, stem.as_str(), Some(n as u64), ext.as_str());
        let cs = cand.as_str();
        if !taken(cs) {
            assert(cand@ == suffixed_dest(dir, path, n as nat));
            return Some(cand);
        }
        assert(reported_taken(taken, suffixed_dest(dir, path, n as nat)));
        if n == u32::MAX {
            return None;
        }
        n += 1;
    }
}

/// A path cannot be both reported free by every call and reported taken by
/// one.
proof fn lemma_free_not_taken<F: Fn(&str) -> bool>(taken: F, p: Seq<char>)
    ensures
        !(reported_free(taken, p) && reported_taken(taken, p)),
{
    if reported_taken(taken, p) {
        let q = choose|q: &str| q@ == p && #[trigger] call_ensures(taken, (q,), true);
    }
}

/// Destination path for saving `entry` into `saved_dir` without clobbering a
/// different existing file: keep the source name; on collision disambiguate
/// with the seed (`name_<seed>.png`), then a numeric suffix. `taken` is
/// injected so this stays pure and testable.
///
/// The counter is a `u32`; `requires` asks that `taken` reports some
/// candidate free: the plain name, the seed name, or a numbered name.
pub fn save_dest(saved_dir: &str, entry: &Entry, taken: impl Fn(&str) -> bool) -> (dest: String)
    requires
        forall|p: &str| call_requires(taken, (p,)),
        reported_free(taken, direct_dest(saved_dir@, entry.path@)) || (entry.seed matches Some(s)
            && reported_free(taken, suffixed_dest(saved_dir@, entry.path@, s as nat))) || exists|
            k: u32,
        |
            1 <= k && #[trigger] reported_free(
                taken,
                suffixed_dest(saved_dir@, entry.path@, k as nat),
            ),
    ensures
        chosen_dest(taken, saved_dir@, *entry, dest@),
{
    match try_save_dest(saved_dir, entry, taken) {
        Some(d) => d,
        None => {
            proof {
                let dir = saved_dir@;
                let path = entry.path@;
                if reported_free(taken, direct_dest(dir, path)) {
                    lemma_free_not_taken(taken, direct_dest(dir, path));
                } else if entry.seed matches Some(s) && reported_free(
                    taken,
                    suffixed_dest(dir, path, s as nat),
                ) {
                    lemma_free_not_taken(taken, suffixed_dest(dir, path, entry.seed->Some_0 as nat));
                } else {
                    let k = choose|k: u32|
                        1 <= k && #[trigger] reported_free(taken, suffixed_dest(dir, path, k as nat));
                    assert(reported_taken(taken, suffixed_dest(dir, path, k as nat)));
                    lemma_free_not_taken(taken, suffixed_dest(dir, path, k as nat));
                }
            }
            String::new()
        },
    }
}

} // verus!

verus! {

/// Every navigation step, every push and every discard keeps the cursor on an entry, or at 0
/// when the gallery is empty.
pub proof fn lemma_cursor_stays_valid(s: GalleryState, e: Entry)
    requires
        s.wf(),
    ensures
        s.next().wf(),
        s.prev().wf(),
        s.first().wf(),
        s.last().wf(),
        s.push(e).wf(),
        s.discard().wf(),
{
}

/// While the cursor rides the live edge, a newly pushed image becomes the
/// current one.
pub proof fn lemma_following_shows_newest(s: GalleryState, e: Entry)
    requires
        s.following,
    ensures
        s.push(e).current == s.push(e).entries.len() - 1,
        s.push(e).following,
{
}

/// Stepping back stops following: images that stream in afterwards do not
/// move the cursor, only the count grows.
pub proof fn lemma_prev_holds_position(s: GalleryState, e: Entry)
    ensures
        s.prev().push(e).current == s.prev().current,
        s.prev().push(e).entries.len() == s.entries.len() + 1,
{
}

/// Jumping to the last image re-attaches the cursor to the live edge.
pub proof fn lemma_last_reattaches(s: GalleryState, e: Entry)
    ensures
        s.last().following,
        s.last().push(e).current == s.entries.len(),
{
}

/// Navigation clamps at both ends: `next` on the last image and `prev` on the
/// first leave the cursor where it is.
pub proof fn lemma_nav_clamps(s: GalleryState)
    requires
        s.wf(),
    ensures
        s.entries.len() > 0 && s.current == s.entries.len() - 1 ==> s.next().current
            == s.current,
        s.current == 0 ==> s.prev().current == 0,
{
}

/// Away from the last image, `prev` undoes `next`.
pub proof fn lemma_prev_undoes_next(s: GalleryState)
    requires
        s.current + 1 < s.entries.len(),
    ensures
        s.next().prev().current == s.current,
        s.next().prev().entries == s.entries,
{
}

/// `next` follows the live edge exactly when it lands on the last image.
pub proof fn lemma_next_follows_at_edge(s: GalleryState)
    requires
        s.wf(),
        s.entries.len() > 0,
    ensures
        s.next().following <==> s.next().current == s.entries.len() - 1,
{
}

} // verus!
