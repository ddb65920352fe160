//! The grid state and the stepper. A world holds two equally sized symbol
//! buffers whose roles swap every generation, a per-cell change flag, and a
//! per-cell "neighborhood changed" flag that gates recomputation: a cell
//! whose neighborhood saw no change keeps its (already correct) stale value.

use vstd::prelude::*;

use crate::calibrate::{calibrate_rule_count, calibrated_rule_count, is_power_of_two};
use crate::rng::{process_rng, process_rng_below, rng_below, rng_from_seed};
use crate::rules::{rule_matches_set, rule_valid, WorldRule};
use crate::torus::{
    cell_at, flag_at, neighbor_seq, neighbor_set, neighborhood_any_flagged, neighborhood_flagged,
    tidx, torus_index, wrap,
};
use crate::transition::{compute_transition, transition_spec};

verus! {

/// The mathematical state of a world: plain sequences over the row-major
/// toroidal index space, with the grid side and symbol alphabet as integers.
#[verifier::ext_equal]
pub ghost struct WorldModel {
    pub size: int,
    pub symbol_count: int,
    pub data: Seq<u32>,
    pub prev_data: Seq<u32>,
    pub cell_changed: Seq<bool>,
    pub neighborhood_changed: Seq<bool>,
    pub symbol_to_color: Seq<(u8, u8, u8)>,
    pub rules: Seq<WorldRule>,
}

impl WorldModel {
    /// Number of cells of the grid.
    pub open spec fn area(self) -> int {
        self.size * self.size
    }

    /// Structural well-formedness: a power-of-two grid side, equally sized
    /// buffers, at least one rule, and every stored symbol in range.
    pub open spec fn wf(self) -> bool {
        &&& 1 <= self.size <= 0x8000
        &&& is_power_of_two(self.size as nat)
        &&& 2 <= self.symbol_count <= u32::MAX
        &&& self.data.len() == self.area()
        &&& self.prev_data.len() == self.area()
        &&& self.cell_changed.len() == self.area()
        &&& self.neighborhood_changed.len() == self.area()
        &&& self.symbol_to_color.len() == self.symbol_count
        &&& self.rules.len() >= 1
        &&& forall|i: int|
            0 <= i < self.area() ==> (#[trigger] self.data[i]) < self.symbol_count
        &&& forall|i: int|
            0 <= i < self.area() ==> (#[trigger] self.prev_data[i]) < self.symbol_count
        &&& forall|j: int|
            0 <= j < self.rules.len() ==> rule_valid(#[trigger] self.rules[j], self.symbol_count)
    }

    /// The stability invariant behind the skip-optimization: a cell whose
    /// neighborhood saw no change holds the same value in both buffers, so
    /// leaving it untouched after the buffer swap is a no-op.
    pub open spec fn stable(self) -> bool {
        forall|i: int|
            0 <= i < self.area() && !(#[trigger] self.neighborhood_changed[i])
                ==> self.data[i] == self.prev_data[i]
    }

    /// The gating flags agree with the change flags: a neighborhood is
    /// marked changed exactly when some cell of its 3x3 surroundings is.
    pub open spec fn flags_consistent(self) -> bool {
        forall|i: int|
            0 <= i < self.area() ==> (#[trigger] self.neighborhood_changed[i])
                == neighborhood_flagged(self.cell_changed, self.size, i % self.size, i / self.size)
    }
}

/// The transition of the cell at flat index `i`, evaluated on the current
/// buffer.
pub open spec fn cell_next(w: WorldModel, i: int) -> u32 {
    transition_spec(w.data, w.size, i % w.size, i / w.size, w.rules)
}

/// One generation. The buffers swap roles; every cell whose neighborhood
/// was marked changed is recomputed into the write buffer and its change
/// flag set; untouched cells keep the write buffer's stale value; then the
/// erosion pass rebuilds the neighborhood flags from the fresh change flags.
pub open spec fn step_spec(w: WorldModel) -> WorldModel {
    let new_changed = Seq::new(
        w.area() as nat,
        |i: int| w.neighborhood_changed[i] && cell_next(w, i) != w.data[i],
    );
    WorldModel {
        data: Seq::new(
            w.area() as nat,
            |i: int|
                if w.neighborhood_changed[i] {
                    cell_next(w, i)
                } else {
                    w.prev_data[i]
                },
        ),
        prev_data: w.data,
        cell_changed: new_changed,
        neighborhood_changed: Seq::new(
            w.area() as nat,
            |i: int| neighborhood_flagged(new_changed, w.size, i % w.size, i / w.size),
        ),
        ..w
    }
}

/// One generation's worth of simulation state.
pub struct World {
    size: u32,
    data: Vec<u32>,
    prev_data: Vec<u32>,
    cell_changed_flags: Vec<bool>,
    neighborhood_changed_flags: Vec<bool>,
    symbol_count: u32,
    symbol_to_color: Vec<(u8, u8, u8)>,
    rules: Vec<WorldRule>,
}

impl View for World {
    type V = WorldModel;

    closed spec fn view(&self) -> WorldModel {
        WorldModel {
            size: self.size as int,
            symbol_count: self.symbol_count as int,
            data: self.data@,
            prev_data: self.prev_data@,
            cell_changed: self.cell_changed_flags@,
            neighborhood_changed: self.neighborhood_changed_flags@,
            symbol_to_color: self.symbol_to_color@,
            rules: self.rules@,
        }
    }
}

/// A row-major index decomposes into in-range coordinates and recomposes to
/// itself.
pub proof fn lemma_index_roundtrip(n: int, i: int)
    requires
        1 <= n,
        0 <= i < n * n,
    ensures
        0 <= i % n < n,
        0 <= i / n < n,
        torus_index(n, i % n, i / n) == i,
{
    vstd::arithmetic::div_mod::lemma_fundamental_div_mod(i, n);
    vstd::arithmetic::div_mod::lemma_mod_bound(i, n);
    assert(i / n < n) by (nonlinear_arith)
        requires
            1 <= n,
            0 <= i < n * n,
    ;
    vstd::arithmetic::div_mod::lemma_div_pos_is_pos(i, n);
    assert((i / n) * n == n * (i / n)) by (nonlinear_arith);
}

/// Coordinates recompose to an index that decomposes back into them.
pub proof fn lemma_xy_index(n: int, x: int, y: int)
    requires
        1 <= n,
        0 <= x < n,
        0 <= y < n,
    ensures
        0 <= torus_index(n, x, y) < n * n,
        torus_index(n, x, y) % n == x,
        torus_index(n, x, y) / n == y,
{
    assert(0 <= y * n + x < n * n) by (nonlinear_arith)
        requires
            1 <= n,
            0 <= x < n,
            0 <= y < n,
    ;
    vstd::arithmetic::div_mod::lemma_fundamental_div_mod_converse(y * n + x, n, y, x);
}

/// A vector of `len` copies of `v`.
pub(crate) fn filled_u32(len: usize, v: u32) -> (r: Vec<u32>)
    ensures
        r@.len() == len,
        forall|i: int| 0 <= i < len ==> r@[i] == v,
{
    let mut r: Vec<u32> = Vec::new();
    let mut i: usize = 0;
    while i < len
        invariant
            i <= len,
            r@.len() == i,
            forall|j: int| 0 <= j < i ==> r@[j] == v,
        decreases len - i,
    {
        r.push(v);
        i = i + 1;
    }
    r
}

/// A vector of `len` copies of `v`.
pub(crate) fn filled_bool(len: usize, v: bool) -> (r: Vec<bool>)
    ensures
        r@.len() == len,
        forall|i: int| 0 <= i < len ==> r@[i] == v,
{
    let mut r: Vec<bool> = Vec::new();
    let mut i: usize = 0;
    while i < len
        invariant
            i <= len,
            r@.len() == i,
            forall|j: int| 0 <= j < i ==> r@[j] == v,
        decreases len - i,
    {
        r.push(v);
        i = i + 1;
    }
    r
}

impl World {
    /// Builds a world from a seed: a random color per symbol, a rule count
    /// calibrated from the match-probability estimate, and that many rules
    /// sampled with `avg_symbols_per_rule / symbol_count` chance per symbol
    /// (an empty draw is forced to one random symbol). Cells start at
    /// symbol 0 with every flag set, so the first generation recomputes
    /// everything.
    pub fn new(world_size: u32, symbol_count: u32, avg_symbols_per_rule: u32, seed: u64) -> (w:
        World)
        requires
            1 <= world_size <= 0x8000,
            is_power_of_two(world_size as nat),
            2 <= symbol_count,
            avg_symbols_per_rule < symbol_count,
        ensures
            w@.wf(),
            w@.stable(),
            w@.flags_consistent(),
            w@.size == world_size,
            w@.symbol_count == symbol_count,
            w@.rules.len() == calibrated_rule_count(symbol_count, avg_symbols_per_rule),
            w@.symbol_to_color.len() == symbol_count,
            forall|i: int| 0 <= i < w@.area() ==> w@.data[i] == 0,
            forall|i: int| 0 <= i < w@.area() ==> w@.prev_data[i] == 0,
            forall|i: int| 0 <= i < w@.area() ==> w@.cell_changed[i],
            forall|i: int| 0 <= i < w@.area() ==> w@.neighborhood_changed[i],
    {
        let mut rng = rng_from_seed(seed);

        let mut symbol_to_color: Vec<(u8, u8, u8)> = Vec::new();
        let mut ci: u32 = 0;
        while ci < symbol_count
            invariant
                ci <= symbol_count,
                symbol_to_color@.len() == ci,
            decreases symbol_count - ci,
        {
            let r = rng_below(&mut rng, 256) as u8;
            let g = rng_below(&mut rng, 256) as u8;
            let b = rng_below(&mut rng, 256) as u8;
            symbol_to_color.push((r, g, b));
            ci = ci + 1;
        }

        let rule_count = calibrate_rule_count(symbol_count, avg_symbols_per_rule);

        let mut rules: Vec<WorldRule> = Vec::new();
        let mut ri: u64 = 0;
        while ri < rule_count
            invariant
                ri <= rule_count,
                rules@.len() == ri,
                2 <= symbol_count,
                avg_symbols_per_rule < symbol_count,
                forall|j: int|
                    0 <= j < ri ==> rule_valid(#[trigger] rules@[j], symbol_count as int),
            decreases rule_count - ri,
        {
            let mut symbols_needed: Vec<u32> = Vec::new();
            let mut sym: u32 = 0;
            while sym < symbol_count
                invariant
                    sym <= symbol_count,
                    2 <= symbol_count,
                    avg_symbols_per_rule < symbol_count,
                    forall|k: int|
                        0 <= k < symbols_needed@.len() ==> (#[trigger] symbols_needed@[k])
                            < symbol_count,
                decreases symbol_count - sym,
            {
                let draw = rng_below(&mut rng, 1001);
                proof {
                    assert((draw as int) * (symbol_count as int) <= 1000 * 0xFFFF_FFFF)
                        by (nonlinear_arith)
                        requires
                            draw <= 1000,
                            symbol_count <= 0xFFFF_FFFF,
                    ;
                }
                if (draw as u64) * (symbol_count as u64) < 1000 * (avg_symbols_per_rule as u64) {
                    symbols_needed.push(sym);
                }
                sym = sym + 1;
            }
            if symbols_needed.len() == 0 {
                symbols_needed.push(rng_below(&mut rng, symbol_count));
            }
            let output_symbol = rng_below(&mut rng, symbol_count);
            rules.push(WorldRule { symbols_needed, output_symbol });
            ri = ri + 1;
        }

        proof {
            assert(world_size * world_size <= 0x4000_0000) by (nonlinear_arith)
                requires
                    world_size <= 0x8000,
            ;
        }
        let area = (world_size as usize) * (world_size as usize);
        let w = World {
            size: world_size,
            data: filled_u32(area, 0),
            prev_data: filled_u32(area, 0),
            cell_changed_flags: filled_bool(area, true),
            neighborhood_changed_flags: filled_bool(area, true),
            symbol_count,
            symbol_to_color,
            rules,
        };
        proof {
            assert forall|i: int| 0 <= i < w@.area() implies (w@.neighborhood_changed[i])
                == neighborhood_flagged(
                w@.cell_changed,
                w@.size,
                i % w@.size,
                i / w@.size,
            ) by {
                lemma_index_roundtrip(w@.size, i);
                vstd::arithmetic::div_mod::lemma_small_mod(
                    (i % w@.size) as nat,
                    w@.size as nat,
                );
                vstd::arithmetic::div_mod::lemma_small_mod(
                    (i / w@.size) as nat,
                    w@.size as nat,
                );
                assert(crate::torus::flag_at(w@.cell_changed, w@.size, i % w@.size, i / w@.size));
            }
        }
        w
    }

    /// Advances the simulation by exactly one generation, as `step_spec`
    /// describes: buffer swap, gated recomputation with fresh change flags,
    /// then the erosion pass over the change flags.
    pub fn step(&mut self)
        requires
            old(self)@.wf(),
        ensures
            final(self)@ == step_spec(old(self)@),
            final(self)@.wf(),
            final(self)@.flags_consistent(),
    {
        core::mem::swap(&mut self.data, &mut self.prev_data);
        let n = self.size;
        let area = self.data.len();
        proof {
            assert(n * n <= 0x4000_0000) by (nonlinear_arith)
                requires
                    n <= 0x8000,
            ;
        }

        let mut i: usize = 0;
        while i < area
            invariant
                old(self)@.wf(),
                n == old(self)@.size,
                area == old(self)@.area(),
                area <= 0x4000_0000,
                i <= area,
                self@.size == old(self)@.size,
                self@.symbol_count == old(self)@.symbol_count,
                self@.symbol_to_color == old(self)@.symbol_to_color,
                self@.rules == old(self)@.rules,
                self@.prev_data == old(self)@.data,
                self@.neighborhood_changed == old(self)@.neighborhood_changed,
                self@.data.len() == area,
                self@.cell_changed.len() == area,
                forall|j: int|
                    0 <= j < i ==> self@.data[j] == step_spec(old(self)@).data[j],
                forall|j: int|
                    0 <= j < i ==> self@.cell_changed[j] == step_spec(old(self)@).cell_changed[j],
                forall|j: int| i <= j < area ==> self@.data[j] == old(self)@.prev_data[j],
            decreases area - i,
        {
            proof {
                lemma_index_roundtrip(n as int, i as int);
            }
            if self.neighborhood_changed_flags[i] {
                let x = (i as u32) % n;
                let y = (i as u32) / n;
                let v = compute_transition(&self.prev_data, n, (x, y), &self.rules);
                let changed = v != self.prev_data[i];
                self.data.set(i, v);
                self.cell_changed_flags.set(i, changed);
            } else {
                self.cell_changed_flags.set(i, false);
            }
            i = i + 1;
        }

        proof {
            assert(self@.data =~= step_spec(old(self)@).data);
            assert(self@.cell_changed =~= step_spec(old(self)@).cell_changed);
        }

        let mut k: usize = 0;
        while k < area
            invariant
                old(self)@.wf(),
                n == old(self)@.size,
                area == old(self)@.area(),
                area <= 0x4000_0000,
                k <= area,
                self@.size == old(self)@.size,
                self@.symbol_count == old(self)@.symbol_count,
                self@.symbol_to_color == old(self)@.symbol_to_color,
                self@.rules == old(self)@.rules,
                self@.prev_data == old(self)@.data,
                self@.data == step_spec(old(self)@).data,
                self@.cell_changed == step_spec(old(self)@).cell_changed,
                self@.neighborhood_changed.len() == area,
                forall|j: int|
                    0 <= j < k ==> self@.neighborhood_changed[j] == step_spec(
                        old(self)@,
                    ).neighborhood_changed[j],
            decreases area - k,
        {
            proof {
                lemma_index_roundtrip(n as int, k as int);
            }
            let x = (k as u32) % n;
            let y = (k as u32) / n;
            let f = neighborhood_any_flagged(&self.cell_changed_flags, n, x, y);
            self.neighborhood_changed_flags.set(k, f);
            k = k + 1;
        }

        proof {
            assert(self@.neighborhood_changed =~= step_spec(old(self)@).neighborhood_changed);
            assert(self@ =~= step_spec(old(self)@));
            lemma_step_preserves_wf(old(self)@);
            lemma_step_flags_consistent(old(self)@);
        }
    }

    /// Overwrites one cell of the current buffer.
    pub fn _set(&mut self, pos: (u32, u32), value: u32)
        requires
            old(self)@.wf(),
            pos.0 < old(self)@.size,
            pos.1 < old(self)@.size,
            value < old(self)@.symbol_count,
        ensures
            final(self)@ == (WorldModel {
                data: old(self)@.data.update(
                    torus_index(old(self)@.size, pos.0 as int, pos.1 as int),
                    value,
                ),
                ..old(self)@
            }),
            final(self)@.wf(),
    {
        let (x, y) = pos;
        let i = tidx(self.size, x, y);
        self.data.set(i, value);
    }

    /// The grid side.
    pub fn size(&self) -> (r: u32)
        ensures
            r == self@.size,
    {
        self.size
    }

    /// The symbol alphabet size.
    pub fn symbol_count(&self) -> (r: u32)
        ensures
            r == self@.symbol_count,
    {
        self.symbol_count
    }

    /// The current value buffer, read-only.
    pub fn data(&self) -> (r: &Vec<u32>)
        ensures
            r@ == self@.data,
    {
        &self.data
    }

    /// The per-cell change flags of the last generation, read-only.
    pub fn cell_changed_flags(&self) -> (r: &Vec<bool>)
        ensures
            r@ == self@.cell_changed,
    {
        &self.cell_changed_flags
    }

    /// The per-symbol color table, read-only.
    pub fn symbol_to_color(&self) -> (r: &Vec<(u8, u8, u8)>)
        ensures
            r@ == self@.symbol_to_color,
    {
        &self.symbol_to_color
    }

    /// The rule set, read-only.
    pub fn rules(&self) -> (r: &Vec<WorldRule>)
        ensures
            r@ == self@.rules,
    {
        &self.rules
    }

    /// Whether the last generation changed any cell at all; a generation
    /// with no change ends a run early.
    pub fn any_cell_changed(&self) -> (r: bool)
        ensures
            r == exists|i: int| 0 <= i < self@.cell_changed.len() && self@.cell_changed[i],
    {
        let mut i: usize = 0;
        while i < self.cell_changed_flags.len()
            invariant
                i <= self@.cell_changed.len(),
                forall|j: int| 0 <= j < i ==> !self@.cell_changed[j],
            decreases self@.cell_changed.len() - i,
        {
            if self.cell_changed_flags[i] {
                return true;
            }
            i = i + 1;
        }
        false
    }

    /// Reseeds every cell of the current buffer to a uniformly random
    /// symbol, drawn from the process-wide source rather than the
    /// construction seed. Flags and the previous buffer are untouched, so a
    /// freshly built world (all flags set) stays ready to step.
    pub fn randomize(&mut self)
        requires
            old(self)@.wf(),
        ensures
            final(self)@.wf(),
            final(self)@ == (WorldModel { data: final(self)@.data, ..old(self)@ }),
            final(self)@.data.len() == old(self)@.area(),
            (forall|i: int|
                0 <= i < old(self)@.area() ==> old(self)@.neighborhood_changed[i])
                ==> final(self)@.stable(),
    {
        let mut rng = process_rng();
        let len = self.data.len();
        let mut i: usize = 0;
        while i < len
            invariant
                i <= len,
                self@ == (WorldModel { data: self@.data, ..old(self)@ }),
                self@.data.len() == len,
                len == old(self)@.area(),
                2 <= old(self)@.symbol_count <= u32::MAX,
                self.symbol_count == old(self)@.symbol_count,
                forall|j: int|
                    0 <= j < len ==> (#[trigger] self@.data[j]) < old(self)@.symbol_count,
            decreases len - i,
        {
            let v = process_rng_below(&mut rng, self.symbol_count);
            self.data.set(i, v);
            i = i + 1;
        }
    }
}

/// On a buffer with no flag set, no neighborhood sees a flag, wherever it
/// is centered.
proof fn lemma_no_flags_no_neighborhood(flags: Seq<bool>, n: int, x: int, y: int)
    requires
        n >= 1,
        flags.len() == n * n,
        forall|i: int| 0 <= i < flags.len() ==> !(#[trigger] flags[i]),
    ensures
        !neighborhood_flagged(flags, n, x, y),
{
    assert forall|a: int, b: int| !(#[trigger] flag_at(flags, n, a, b)) by {
        vstd::arithmetic::div_mod::lemma_mod_bound(a, n);
        vstd::arithmetic::div_mod::lemma_mod_bound(b, n);
        lemma_xy_index(n, wrap(a, n), wrap(b, n));
    }
}

/// A step leaves the world structurally well-formed: in particular every
/// recomputed symbol stays inside the alphabet.
pub proof fn lemma_step_preserves_wf(w: WorldModel)
    requires
        w.wf(),
    ensures
        step_spec(w).wf(),
{
    let s = step_spec(w);
    assert forall|i: int| 0 <= i < s.area() implies (#[trigger] s.data[i]) < s.symbol_count by {
        lemma_index_roundtrip(w.size, i);
        if w.neighborhood_changed[i] {
            crate::rules::lemma_first_match_in_range(
                w.rules,
                neighbor_set(w.data, w.size, i % w.size, i / w.size),
                w.data[torus_index(w.size, i % w.size, i / w.size)],
                w.symbol_count,
            );
        }
    }
}

/// After a step the gating flags agree with the fresh change flags: the
/// erosion pass computes exactly the 3x3 disjunction.
pub proof fn lemma_step_flags_consistent(w: WorldModel)
    requires
        w.wf(),
    ensures
        step_spec(w).flags_consistent(),
{
}

/// A step preserves the stability invariant: wherever the new gating flag
/// is clear, the two buffers agree afterwards.
pub proof fn lemma_step_preserves_stability(w: WorldModel)
    requires
        w.wf(),
        w.stable(),
    ensures
        step_spec(w).stable(),
{
    let s = step_spec(w);
    assert forall|i: int|
        0 <= i < s.area() && !(#[trigger] s.neighborhood_changed[i]) implies s.data[i]
        == s.prev_data[i] by {
        lemma_index_roundtrip(w.size, i);
        let x = i % w.size;
        let y = i / w.size;
        vstd::arithmetic::div_mod::lemma_small_mod(x as nat, w.size as nat);
        vstd::arithmetic::div_mod::lemma_small_mod(y as nat, w.size as nat);
        assert(flag_at(s.cell_changed, w.size, x, y) == s.cell_changed[i]);
        assert(!s.cell_changed[i]);
    }
}

/// Dirty-flag soundness: when every cell of a cell's 3x3 neighborhood went
/// unchanged in the prior generation, the next step leaves that cell's
/// value exactly as it was.
pub proof fn lemma_dirty_flag_soundness(w: WorldModel, x: int, y: int)
    requires
        w.wf(),
        w.stable(),
        w.flags_consistent(),
        0 <= x < w.size,
        0 <= y < w.size,
        !neighborhood_flagged(w.cell_changed, w.size, x, y),
    ensures
        step_spec(w).data[torus_index(w.size, x, y)] == w.data[torus_index(w.size, x, y)],
{
    lemma_xy_index(w.size, x, y);
    let i = torus_index(w.size, x, y);
    assert(!w.neighborhood_changed[i]);
    assert(step_spec(w).data[i] == w.prev_data[i]);
}

/// Quiescence on a uniform grid: with every cell holding the one symbol
/// `v`, and every rule needing some symbol other than `v`, a step changes
/// no cell and clears every flag.
pub proof fn lemma_uniform_quiescent(w: WorldModel, v: u32)
    requires
        w.wf(),
        w.stable(),
        forall|i: int| 0 <= i < w.area() ==> (#[trigger] w.data[i]) == v,
        forall|j: int|
            0 <= j < w.rules.len() ==> !rule_matches_set(
                (#[trigger] w.rules[j]).symbols_needed@,
                Set::empty().insert(v),
            ),
    ensures
        step_spec(w).data == w.data,
        forall|i: int| 0 <= i < w.area() ==> !(#[trigger] step_spec(w).cell_changed[i]),
        forall|i: int| 0 <= i < w.area() ==> !(#[trigger] step_spec(w).neighborhood_changed[i]),
{
    let s = step_spec(w);
    assert forall|a: int, b: int| #[trigger] cell_at(w.data, w.size, a, b) == v by {
        vstd::arithmetic::div_mod::lemma_mod_bound(a, w.size);
        vstd::arithmetic::div_mod::lemma_mod_bound(b, w.size);
        lemma_xy_index(w.size, wrap(a, w.size), wrap(b, w.size));
    }
    assert forall|i: int| 0 <= i < w.area() implies cell_next(w, i) == v by {
        lemma_index_roundtrip(w.size, i);
        let x = i % w.size;
        let y = i / w.size;
        let sq = neighbor_seq(w.data, w.size, x, y);
        let nb = neighbor_set(w.data, w.size, x, y);
        assert forall|sy: u32| nb.contains(sy) implies sy == v by {
            assert(sq.contains(sy));
            let m = choose|m: int| 0 <= m < sq.len() && sq[m] == sy;
            assert(sq[0] == v && sq[1] == v && sq[2] == v && sq[3] == v && sq[4] == v && sq[5] == v
                && sq[6] == v && sq[7] == v && sq[8] == v);
        }
        assert forall|j: int| 0 <= j < w.rules.len() implies !rule_matches_set(
            (#[trigger] w.rules[j]).symbols_needed@,
            nb,
        ) by {
            let needed = w.rules[j].symbols_needed@;
            if rule_matches_set(needed, nb) {
                assert forall|k: int| 0 <= k < needed.len() implies Set::empty().insert(
                    v,
                ).contains(#[trigger] needed[k]) by {
                    assert(nb.contains(needed[k]));
                }
                assert(rule_matches_set(needed, Set::empty().insert(v)));
            }
        }
        crate::rules::lemma_rule_fallback(w.rules, nb, w.data[torus_index(w.size, x, y)]);
    }
    assert forall|i: int| 0 <= i < w.area() implies s.data[i] == w.data[i] by {
        if !w.neighborhood_changed[i] {
            assert(w.data[i] == w.prev_data[i]);
        }
    }
    assert(s.data =~= w.data);
    assert forall|i: int| 0 <= i < w.area() implies !(#[trigger] s.neighborhood_changed[i]) by {
        lemma_no_flags_no_neighborhood(s.cell_changed, w.size, i % w.size, i / w.size);
    }
}

/// Quiescence is absorbing: once a generation changes no cell, a further
/// step leaves every value as it is and still changes no cell.
pub proof fn lemma_quiescence_absorbing(w: WorldModel)
    requires
        w.wf(),
        w.stable(),
        w.flags_consistent(),
        forall|i: int| 0 <= i < w.area() ==> !(#[trigger] w.cell_changed[i]),
    ensures
        step_spec(w).data == w.data,
        forall|i: int| 0 <= i < w.area() ==> !(#[trigger] step_spec(w).cell_changed[i]),
        forall|i: int| 0 <= i < w.area() ==> !(#[trigger] step_spec(w).neighborhood_changed[i]),
{
    let s = step_spec(w);
    assert forall|i: int| 0 <= i < w.area() implies !(#[trigger] w.neighborhood_changed[i]) by {
        lemma_index_roundtrip(w.size, i);
        lemma_no_flags_no_neighborhood(w.cell_changed, w.size, i % w.size, i / w.size);
    }
    assert forall|i: int| 0 <= i < w.area() implies s.data[i] == w.data[i] by {
        assert(!w.neighborhood_changed[i]);
        assert(w.data[i] == w.prev_data[i]);
    }
    assert(s.data =~= w.data);
    assert forall|i: int| 0 <= i < w.area() implies !(#[trigger] s.neighborhood_changed[i]) by {
        lemma_no_flags_no_neighborhood(s.cell_changed, w.size, i % w.size, i / w.size);
    }
}

} // verus!
