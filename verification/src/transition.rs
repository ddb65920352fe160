//! The transition evaluator: gather the 9 symbols around a cell on the
//! torus, scan the rule set in priority order, and fall back to the cell's
//! current value when no rule matches.

use vstd::prelude::*;

use crate::rules::{first_match, rule_matches, rule_matches_set, WorldRule};
use crate::torus::{neighbor_seq, neighbor_set, tidx, torus_index, wrap_exec};

verus! {

/// The symbol a cell takes in the next generation: the output of the first
/// rule matching its 3x3 neighborhood, or its previous value when none does.
pub open spec fn transition_spec(
    data: Seq<u32>,
    n: int,
    x: int,
    y: int,
    rules: Seq<WorldRule>,
) -> u32 {
    first_match(rules, neighbor_set(data, n, x, y), data[torus_index(n, x, y)])
}

/// Gathers the 9 symbols of the 3x3 toroidal neighborhood of `(x, y)`,
/// row by row.
pub fn gather_neighborhood(data: &Vec<u32>, n: u32, x: u32, y: u32) -> (v: Vec<u32>)
    requires
        1 <= n <= 0x8000,
        data@.len() == n * n,
        x < n,
        y < n,
    ensures
        v@ == neighbor_seq(data@, n as int, x as int, y as int),
{
    let xl = wrap_exec(x as i64 - 1, n);
    let xc = x;
    let xr = wrap_exec(x as i64 + 1, n);
    let yu = wrap_exec(y as i64 - 1, n);
    let yc = y;
    let yd = wrap_exec(y as i64 + 1, n);
    proof {
        vstd::arithmetic::div_mod::lemma_small_mod(x as nat, n as nat);
        vstd::arithmetic::div_mod::lemma_small_mod(y as nat, n as nat);
    }
    let mut v: Vec<u32> = Vec::new();
    v.push(data[tidx(n, xl, yu)]);
    v.push(data[tidx(n, xc, yu)]);
    v.push(data[tidx(n, xr, yu)]);
    v.push(data[tidx(n, xl, yc)]);
    v.push(data[tidx(n, xc, yc)]);
    v.push(data[tidx(n, xr, yc)]);
    v.push(data[tidx(n, xl, yd)]);
    v.push(data[tidx(n, xc, yd)]);
    v.push(data[tidx(n, xr, yd)]);
    proof {
        assert(v@ =~= neighbor_seq(data@, n as int, x as int, y as int));
    }
    v
}

/// Evaluates one cell's transition: the first rule whose needed symbols are
/// all present in the 3x3 neighborhood of `pos` decides the new symbol; with
/// no match the cell keeps its value.
pub fn compute_transition(
    prev_data: &Vec<u32>,
    world_size: u32,
    pos: (u32, u32),
    rules: &Vec<WorldRule>,
) -> (r: u32)
    requires
        1 <= world_size <= 0x8000,
        prev_data@.len() == world_size * world_size,
        pos.0 < world_size,
        pos.1 < world_size,
    ensures
        r == transition_spec(
            prev_data@,
            world_size as int,
            pos.0 as int,
            pos.1 as int,
            rules@,
        ),
{
    let (xc, yc) = pos;
    let neigh = gather_neighborhood(prev_data, world_size, xc, yc);
    let ghost present = neighbor_set(prev_data@, world_size as int, xc as int, yc as int);
    let mut j: usize = 0;
    while j < rules.len()
        invariant
            0 <= j <= rules@.len(),
            xc == pos.0,
            yc == pos.1,
            present == neighbor_set(prev_data@, world_size as int, xc as int, yc as int),
            neigh@.to_set() == present,
            forall|m: int|
                0 <= m < j ==> !rule_matches_set(#[trigger] rules@[m].symbols_needed@, present),
        decreases rules@.len() - j,
    {
        if rule_matches(&rules[j], &neigh) {
            proof {
                crate::rules::lemma_rule_priority(
                    rules@,
                    present,
                    prev_data@[torus_index(world_size as int, xc as int, yc as int)],
                    j as int,
                );
            }
            return rules[j].output_symbol;
        }
        j = j + 1;
    }
    proof {
        crate::rules::lemma_rule_fallback(
            rules@,
            present,
            prev_data@[torus_index(world_size as int, xc as int, yc as int)],
        );
    }
    prev_data[tidx(world_size, xc, yc)]
}

} // verus!
