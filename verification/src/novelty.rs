//! The novelty heuristic. A run keeps a set of per-generation hashes of the
//! value buffer for its first `sample_frame_count` generations, and ORs the
//! change flags over two disjoint 5-generation windows just before that
//! cutoff. A finished run is "interesting" when every sampled generation
//! hashed differently and the two windows still disagree in enough cells.

use std::collections::hash_map::DefaultHasher;
use std::hash::Hash;
use std::hash::Hasher;
use vstd::prelude::*;

use crate::world::{World, WorldModel};

verus! {

/// The digest that hashing a value buffer produces; a function of the
/// buffer's contents alone.
pub uninterp spec fn hash_of(s: Seq<u32>) -> u64;

/// Relies on std's `DefaultHasher`: hashers created through `new` all hash
/// alike, so the digest of a buffer depends on its contents alone.
#[verifier::external_body]
pub(crate) fn calculate_vec_hash(vec: &Vec<u32>) -> (r: u64)
    ensures
        r == hash_of(vec@),
{
    let mut s = DefaultHasher::new();
    vec.hash(&mut s);
    s.finish()
}

/// How many positions of the first `k` hold different flags.
pub open spec fn diff_count_upto(a: Seq<bool>, b: Seq<bool>, k: int) -> int
    decreases k,
{
    if k <= 0 {
        0
    } else {
        diff_count_upto(a, b, k - 1) + if a[k - 1] != b[k - 1] {
            1int
        } else {
            0int
        }
    }
}

/// How many positions of two equally long flag buffers disagree.
pub open spec fn diff_count_spec(a: Seq<bool>, b: Seq<bool>) -> int {
    diff_count_upto(a, b, a.len() as int)
}

/// Counts the positions where the two flag buffers disagree.
pub fn bool_vec_diff_count(vec1: &Vec<bool>, vec2: &Vec<bool>) -> (r: u32)
    requires
        vec1@.len() == vec2@.len(),
        vec1@.len() <= u32::MAX,
    ensures
        r == diff_count_spec(vec1@, vec2@),
{
    let mut diff_count: u32 = 0;
    let mut i: usize = 0;
    while i < vec1.len()
        invariant
            i <= vec1@.len() <= u32::MAX,
            vec1@.len() == vec2@.len(),
            diff_count == diff_count_upto(vec1@, vec2@, i as int),
            diff_count <= i,
        decreases vec1@.len() - i,
    {
        if vec2[i] != vec1[i] {
            diff_count = diff_count + 1;
        }
        i = i + 1;
    }
    diff_count
}

/// Whether `v` holds `h`, by linear scan.
fn hashes_contain(v: &Vec<u64>, h: u64) -> (r: bool)
    ensures
        r == v@.contains(h),
{
    let mut k: usize = 0;
    while k < v.len()
        invariant
            k <= v@.len(),
            forall|m: int| 0 <= m < k ==> v@[m] != h,
        decreases v@.len() - k,
    {
        if v[k] == h {
            return true;
        }
        k = k + 1;
    }
    false
}

/// A hash multiset that stays duplicate-free: an insert of a hash already
/// present changes nothing.
pub open spec fn insert_unique(s: Seq<u64>, h: u64) -> Seq<u64> {
    if s.contains(h) {
        s
    } else {
        s.push(h)
    }
}

/// No hash occurs twice.
pub open spec fn no_dups(s: Seq<u64>) -> bool {
    forall|i: int, j: int| 0 <= i < j < s.len() ==> s[i] != s[j]
}

/// The OR of two equally long flag buffers.
pub open spec fn or_seq(a: Seq<bool>, b: Seq<bool>) -> Seq<bool> {
    Seq::new(a.len(), |i: int| a[i] || b[i])
}

/// The mathematical state of a novelty tracker.
#[verifier::ext_equal]
pub ghost struct NoveltyModel {
    pub sample_frame_count: int,
    pub min_end_cell_diff: int,
    pub frame_hashes: Seq<u64>,
    pub window_a: Seq<bool>,
    pub window_b: Seq<bool>,
    pub frames_seen: int,
}

impl NoveltyModel {
    /// Well-formedness: a sampling horizon long enough to hold the two
    /// 5-generation windows, equally sized window buffers small enough to
    /// count, and a duplicate-free hash set no larger than the number of
    /// generations seen.
    pub open spec fn wf(self) -> bool {
        &&& 10 <= self.sample_frame_count <= usize::MAX
        &&& self.window_a.len() == self.window_b.len()
        &&& self.window_a.len() <= u32::MAX
        &&& 0 <= self.frames_seen
        &&& no_dups(self.frame_hashes)
        &&& self.frame_hashes.len() <= self.frames_seen
    }
}

/// What observing one fresh generation does to the tracker: its hash joins
/// the set while the horizon has not passed, and the change flags are OR'd
/// into whichever window the generation falls in.
pub open spec fn observe_spec(t: NoveltyModel, w: WorldModel) -> NoveltyModel {
    let c = t.frames_seen;
    NoveltyModel {
        frame_hashes: if c <= t.sample_frame_count {
            insert_unique(t.frame_hashes, hash_of(w.data))
        } else {
            t.frame_hashes
        },
        window_a: if c > t.sample_frame_count - 10 && c <= t.sample_frame_count - 5 {
            or_seq(t.window_a, w.cell_changed)
        } else {
            t.window_a
        },
        window_b: if c > t.sample_frame_count - 5 && c <= t.sample_frame_count {
            or_seq(t.window_b, w.cell_changed)
        } else {
            t.window_b
        },
        frames_seen: c + 1,
        ..t
    }
}

/// The per-run bookkeeping behind the novelty heuristic.
pub struct NoveltyTracker {
    sample_frame_count: usize,
    min_end_cell_diff: u32,
    frame_hashes: Vec<u64>,
    window_a: Vec<bool>,
    window_b: Vec<bool>,
    frames_seen: usize,
}

impl View for NoveltyTracker {
    type V = NoveltyModel;

    closed spec fn view(&self) -> NoveltyModel {
        NoveltyModel {
            sample_frame_count: self.sample_frame_count as int,
            min_end_cell_diff: self.min_end_cell_diff as int,
            frame_hashes: self.frame_hashes@,
            window_a: self.window_a@,
            window_b: self.window_b@,
            frames_seen: self.frames_seen as int,
        }
    }
}

impl NoveltyTracker {
    /// A fresh tracker: no hashes, both windows clear, nothing seen.
    pub fn new(sample_frame_count: usize, min_end_cell_diff: u32, cell_count: usize) -> (t:
        NoveltyTracker)
        requires
            10 <= sample_frame_count,
            cell_count <= u32::MAX,
        ensures
            t@.wf(),
            t@.sample_frame_count == sample_frame_count,
            t@.min_end_cell_diff == min_end_cell_diff,
            t@.frame_hashes.len() == 0,
            t@.frames_seen == 0,
            t@.window_a.len() == cell_count,
            t@.window_b.len() == cell_count,
            forall|i: int| 0 <= i < cell_count ==> !t@.window_a[i],
            forall|i: int| 0 <= i < cell_count ==> !t@.window_b[i],
    {
        NoveltyTracker {
            sample_frame_count,
            min_end_cell_diff,
            frame_hashes: Vec::new(),
            window_a: crate::world::filled_bool(cell_count, false),
            window_b: crate::world::filled_bool(cell_count, false),
            frames_seen: 0,
        }
    }

    /// Records the generation that `world` has just computed.
    pub fn observe(&mut self, world: &World)
        requires
            old(self)@.wf(),
            old(self)@.frames_seen < usize::MAX,
            old(self)@.window_a.len() == world@.cell_changed.len(),
        ensures
            final(self)@ == observe_spec(old(self)@, world@),
            final(self)@.wf(),
    {
        let c = self.frames_seen;
        if c <= self.sample_frame_count {
            let h = calculate_vec_hash(world.data());
            if !hashes_contain(&self.frame_hashes, h) {
                self.frame_hashes.push(h);
            }
        }
        let changed = world.cell_changed_flags();
        if c > self.sample_frame_count - 10 && c <= self.sample_frame_count - 5 {
            let ghost mid = self@;
            let mut i: usize = 0;
            while i < self.window_a.len()
                invariant
                    i <= self@.window_a.len(),
                    self@.window_a.len() == mid.window_a.len(),
                    self@.window_a.len() == changed@.len(),
                    self@ == (NoveltyModel { window_a: self@.window_a, ..mid }),
                    forall|j: int|
                        0 <= j < i ==> self@.window_a[j] == (mid.window_a[j] || changed@[j]),
                    forall|j: int|
                        i <= j < self@.window_a.len() ==> self@.window_a[j] == mid.window_a[j],
                decreases self@.window_a.len() - i,
            {
                let f = self.window_a[i] || changed[i];
                self.window_a.set(i, f);
                i = i + 1;
            }
            proof {
                assert(self@.window_a =~= or_seq(mid.window_a, changed@));
            }
        }
        if c > self.sample_frame_count - 5 && c <= self.sample_frame_count {
            let ghost mid = self@;
            let mut i: usize = 0;
            while i < self.window_b.len()
                invariant
                    i <= self@.window_b.len(),
                    self@.window_b.len() == mid.window_b.len(),
                    self@.window_b.len() == changed@.len(),
                    self@ == (NoveltyModel { window_b: self@.window_b, ..mid }),
                    forall|j: int|
                        0 <= j < i ==> self@.window_b[j] == (mid.window_b[j] || changed@[j]),
                    forall|j: int|
                        i <= j < self@.window_b.len() ==> self@.window_b[j] == mid.window_b[j],
                decreases self@.window_b.len() - i,
            {
                let f = self.window_b[i] || changed[i];
                self.window_b.set(i, f);
                i = i + 1;
            }
            proof {
                assert(self@.window_b =~= or_seq(mid.window_b, changed@));
            }
        }
        self.frames_seen = c + 1;
        proof {
            assert(self@ =~= observe_spec(old(self)@, world@));
        }
    }

    /// How many distinct generation hashes the run produced.
    pub fn unique_count(&self) -> (r: usize)
        ensures
            r == self@.frame_hashes.len(),
    {
        self.frame_hashes.len()
    }

    /// In how many cells the two sampled activity windows disagree.
    pub fn diff_count(&self) -> (r: u32)
        requires
            self@.wf(),
        ensures
            r == diff_count_spec(self@.window_a, self@.window_b),
    {
        bool_vec_diff_count(&self.window_a, &self.window_b)
    }

    /// How many generations the tracker has observed.
    pub fn frames_seen(&self) -> (r: usize)
        ensures
            r == self@.frames_seen,
    {
        self.frames_seen
    }

    /// The sampling horizon.
    pub fn sample_frame_count(&self) -> (r: usize)
        ensures
            r == self@.sample_frame_count,
    {
        self.sample_frame_count
    }

    /// The verdict on a finished run: every sampled generation hashed
    /// differently, and the late activity windows disagree in more than
    /// `min_end_cell_diff` cells — the zone of activity is still moving.
    pub fn is_interesting(&self) -> (r: bool)
        requires
            self@.wf(),
        ensures
            r == (self@.frame_hashes.len() == self@.sample_frame_count && diff_count_spec(
                self@.window_a,
                self@.window_b,
            ) > self@.min_end_cell_diff),
    {
        let unique = self.frame_hashes.len();
        let diff = self.diff_count();
        unique == self.sample_frame_count && diff > self.min_end_cell_diff
    }
}

} // verus!
