//! Toroidal addressing: coordinate wraparound, row-major indexing, and the
//! 3x3 neighborhood of a cell. The same wraparound rule is shared by the
//! transition evaluator and the dirty-flag erosion pass.

use vstd::prelude::*;

verus! {

/// Toroidal wraparound of a coordinate on a grid of side `n`: `-1` maps to
/// `n - 1`, `n` maps to `0`, and in general a coordinate is reduced modulo `n`.
pub open spec fn wrap(c: int, n: int) -> int {
    c % n
}

/// Row-major index of the cell at `(x, y)` on a grid of side `n`.
pub open spec fn torus_index(n: int, x: int, y: int) -> int {
    y * n + x
}

/// The symbol stored at toroidal coordinates `(x, y)`: the coordinates are
/// wrapped, then the buffer is read at the row-major index.
pub open spec fn cell_at(data: Seq<u32>, n: int, x: int, y: int) -> u32 {
    data[torus_index(n, wrap(x, n), wrap(y, n))]
}

/// The 9 symbols of the 3x3 toroidal neighborhood centered at `(x, y)`,
/// gathered row by row.
pub open spec fn neighbor_seq(data: Seq<u32>, n: int, x: int, y: int) -> Seq<u32> {
    seq![
        cell_at(data, n, x - 1, y - 1),
        cell_at(data, n, x, y - 1),
        cell_at(data, n, x + 1, y - 1),
        cell_at(data, n, x - 1, y),
        cell_at(data, n, x, y),
        cell_at(data, n, x + 1, y),
        cell_at(data, n, x - 1, y + 1),
        cell_at(data, n, x, y + 1),
        cell_at(data, n, x + 1, y + 1),
    ]
}

/// The set of symbols present in the 3x3 toroidal neighborhood of `(x, y)`:
/// duplicates collapse, only presence matters.
pub open spec fn neighbor_set(data: Seq<u32>, n: int, x: int, y: int) -> Set<u32> {
    neighbor_seq(data, n, x, y).to_set()
}

/// The flag stored at toroidal coordinates `(x, y)` of a boolean buffer.
pub open spec fn flag_at(flags: Seq<bool>, n: int, x: int, y: int) -> bool {
    flags[torus_index(n, wrap(x, n), wrap(y, n))]
}

/// Whether any cell of the 3x3 toroidal neighborhood of `(x, y)` is flagged.
pub open spec fn neighborhood_flagged(flags: Seq<bool>, n: int, x: int, y: int) -> bool {
    ||| flag_at(flags, n, x - 1, y - 1)
    ||| flag_at(flags, n, x, y - 1)
    ||| flag_at(flags, n, x + 1, y - 1)
    ||| flag_at(flags, n, x - 1, y)
    ||| flag_at(flags, n, x, y)
    ||| flag_at(flags, n, x + 1, y)
    ||| flag_at(flags, n, x - 1, y + 1)
    ||| flag_at(flags, n, x, y + 1)
    ||| flag_at(flags, n, x + 1, y + 1)
}

/// Shifting a coordinate by a full grid side does not change where it wraps.
pub proof fn lemma_wrap_shift(c: int, n: int)
    requires
        n >= 1,
    ensures
        wrap(n + c, n) == wrap(c, n),
{
    vstd::arithmetic::div_mod::lemma_mod_multiples_vanish(1, c, n);
}

/// Toroidal symmetry: the neighborhood gathered at `(0, 0)` holds the same
/// 9 values as the neighborhood gathered at `(n, n)`, so the two present the
/// same symbol set.
pub proof fn lemma_toroidal_symmetry(data: Seq<u32>, n: int)
    requires
        n >= 1,
    ensures
        neighbor_seq(data, n, 0, 0) == neighbor_seq(data, n, n, n),
        neighbor_set(data, n, 0, 0) == neighbor_set(data, n, n, n),
{
    lemma_wrap_shift(-1, n);
    lemma_wrap_shift(0, n);
    lemma_wrap_shift(1, n);
    assert(neighbor_seq(data, n, 0, 0) =~= neighbor_seq(data, n, n, n));
}

/// Whether any cell of the 3x3 toroidal neighborhood of `(x, y)` is flagged:
/// the erosion pass runs this on the fresh change flags to decide which
/// neighborhoods the next generation must recompute.
pub fn neighborhood_any_flagged(flags: &Vec<bool>, n: u32, x: u32, y: u32) -> (r: bool)
    requires
        1 <= n <= 0x8000,
        flags@.len() == n * n,
        x < n,
        y < n,
    ensures
        r == neighborhood_flagged(flags@, n as int, x as int, y as int),
{
    let xl = wrap_exec(x as i64 - 1, n);
    let xr = wrap_exec(x as i64 + 1, n);
    let yu = wrap_exec(y as i64 - 1, n);
    let yd = wrap_exec(y as i64 + 1, n);
    proof {
        vstd::arithmetic::div_mod::lemma_small_mod(x as nat, n as nat);
        vstd::arithmetic::div_mod::lemma_small_mod(y as nat, n as nat);
    }
    flags[tidx(n, xl, yu)] || flags[tidx(n, x, yu)] || flags[tidx(n, xr, yu)]
        || flags[tidx(n, xl, y)] || flags[tidx(n, x, y)] || flags[tidx(n, xr, y)]
        || flags[tidx(n, xl, yd)] || flags[tidx(n, x, yd)] || flags[tidx(n, xr, yd)]
}

/// Computes the row-major index of in-range coordinates, bounded by the
/// grid's area.
pub fn tidx(n: u32, x: u32, y: u32) -> (i: usize)
    requires
        1 <= n <= 0x8000,
        x < n,
        y < n,
    ensures
        i == torus_index(n as int, x as int, y as int),
        i < n * n,
{
    proof {
        assert(y * n + x < n * n) by (nonlinear_arith)
            requires
                0 <= x < n,
                0 <= y < n,
        ;
        assert(n * n <= 0x4000_0000) by (nonlinear_arith)
            requires
                n <= 0x8000,
        ;
    }
    (y as usize) * (n as usize) + (x as usize)
}

/// The wraparound rule as the engine executes it, for the coordinates that a
/// 3x3 gather can produce: one below zero, one past the edge, or in range.
pub fn wrap_exec(c: i64, n: u32) -> (r: u32)
    requires
        1 <= n,
        -1 <= c as int <= n as int,
    ensures
        r == wrap(c as int, n as int),
        r < n,
{
    if c < 0 {
        proof {
            vstd::arithmetic::div_mod::lemma_mod_multiples_vanish(1, -1, n as int);
            vstd::arithmetic::div_mod::lemma_small_mod((n - 1) as nat, n as nat);
        }
        n - 1
    } else if c == n as i64 {
        proof {
            vstd::arithmetic::div_mod::lemma_mod_self_0(n as int);
        }
        0
    } else {
        proof {
            vstd::arithmetic::div_mod::lemma_small_mod(c as nat, n as nat);
        }
        c as u32
    }
}

} // verus!
