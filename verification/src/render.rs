//! Rendering support: expanding the grid into a square pixel buffer of
//! packed RGB words, one `cell_size` x `cell_size` block per cell, and the
//! plain conversions that frame encoding needs. The windowing and encoding
//! themselves live outside the engine.

use vstd::prelude::*;

use crate::calibrate::is_power_of_two;
use crate::torus::torus_index;
use crate::world::{World, WorldModel};

verus! {

/// A color triplet packed into one word: red, green, blue from the third
/// byte down.
pub open spec fn rgb_u32(c: (u8, u8, u8)) -> u32 {
    ((c.0 as int) * 0x10000 + (c.1 as int) * 0x100 + (c.2 as int)) as u32
}

/// Whether `c` scales the grid to the window: the window is a square whose
/// side is the power-of-two multiple `c` of the grid side.
pub open spec fn is_window_scale(c: int, len: int, size: int) -> bool {
    &&& 1 <= c
    &&& is_power_of_two(c as nat)
    &&& len == (c * size) * (c * size)
}

/// Whether a buffer of `len` words can hold this grid: its side must be a
/// power-of-two multiple of the grid side.
pub open spec fn valid_window(len: int, size: int) -> bool {
    exists|c: int| is_window_scale(c, len, size)
}

/// The pixel at `(wx, wy)` shows the color of the cell it falls in.
pub open spec fn pixel_shows_cell(
    buf: Seq<u32>,
    w: WorldModel,
    c: int,
    wx: int,
    wy: int,
) -> bool {
    buf[wy * (c * w.size) + wx] == rgb_u32(
        w.symbol_to_color[w.data[torus_index(w.size, wx / c, wy / c)] as int],
    )
}

/// An index within a block of length `c` starting at `q * c` divides down
/// to `q`.
proof fn lemma_div_block(a: int, q: int, c: int)
    requires
        1 <= c,
        q * c <= a < (q + 1) * c,
    ensures
        a / c == q,
{
    assert((q + 1) * c == q * c + c) by (nonlinear_arith);
    vstd::arithmetic::div_mod::lemma_fundamental_div_mod_converse(a, c, q, a - q * c);
}

/// A power of two strictly below another power of two is at most its half.
proof fn lemma_pow2_step(a: nat, b: nat)
    requires
        is_power_of_two(a),
        is_power_of_two(b),
        a < b,
    ensures
        2 * a <= b,
    decreases a,
{
    if a > 1 {
        lemma_pow2_step(a / 2, b / 2);
    }
}

/// The pixel at flat index `k` of a window of side `c * w.size` shows the
/// color of the cell it falls in.
pub open spec fn pixel_flat(buf: Seq<u32>, w: WorldModel, c: int, k: int) -> bool {
    let ws = c * w.size;
    buf[k] == rgb_u32(
        w.symbol_to_color[w.data[torus_index(w.size, (k % ws) / c, (k / ws) / c)] as int],
    )
}

impl World {
    /// Expands the grid into `buffer`, whose square side must be a
    /// power-of-two multiple of the grid side: each cell becomes a block of
    /// identical pixels holding its symbol's packed color.
    pub fn draw_to_buffer(&self, buffer: &mut Vec<u32>)
        requires
            self@.wf(),
            valid_window(old(buffer)@.len() as int, self@.size),
        ensures
            final(buffer)@.len() == old(buffer)@.len(),
            forall|c: int, wx: int, wy: int|
                is_window_scale(c, final(buffer)@.len() as int, self@.size) && 0 <= wy < c
                    * self@.size && 0 <= wx < c * self@.size ==> pixel_shows_cell(
                    final(buffer)@,
                    self@,
                    c,
                    wx,
                    wy,
                ),
    {
        let n = self.size();
        let nu = n as usize;
        let len = buffer.len();
        let ghost c0 = choose|c: int| is_window_scale(c, len as int, self@.size);
        proof {
            assert(nu * nu <= (c0 * (nu as int)) * (c0 * (nu as int)) && nu <= nu * nu)
                by (nonlinear_arith)
                requires
                    1 <= c0,
                    1 <= nu,
            ;
        }
        let mut cell: usize = 1;
        while (cell * nu) * (cell * nu) < len
            invariant
                n == self@.size,
                nu == self@.size,
                1 <= self@.size <= 0x8000,
                len <= usize::MAX,
                is_window_scale(c0, len as int, self@.size),
                1 <= cell <= c0,
                cell * nu <= len,
                (cell * nu) * (cell * nu) <= len,
                is_power_of_two(cell as nat),
            decreases c0 - cell,
        {
            proof {
                assert(cell < c0) by (nonlinear_arith)
                    requires
                        1 <= cell,
                        1 <= c0,
                        1 <= nu,
                        (cell * nu) * (cell * nu) < (c0 * nu) * (c0 * nu),
                ;
                lemma_pow2_step(cell as nat, c0 as nat);
                assert(is_power_of_two((2 * cell) as nat)) by {
                    assert((2 * cell) as nat % 2 == 0);
                    assert((2 * cell) as nat / 2 == cell as nat);
                }
                assert(((2 * cell) * nu) * ((2 * cell) * nu) <= (c0 * nu) * (c0 * nu) && (2
                    * cell) * nu <= ((2 * cell) * nu) * ((2 * cell) * nu) && 2 * cell <= (2
                    * cell) * nu) by (nonlinear_arith)
                    requires
                        1 <= cell,
                        2 * cell <= c0,
                        1 <= nu,
                ;
            }
            cell = cell * 2;
        }
        proof {
            assert(cell == c0) by (nonlinear_arith)
                requires
                    1 <= cell <= c0,
                    1 <= nu,
                    (cell * nu) * (cell * nu) >= len,
                    (c0 * (nu as int)) * (c0 * (nu as int)) == len as int,
            ;
        }
        let ws = cell * nu;

        let mut y: usize = 0;
        while y < nu
            invariant
                self@.wf(),
                n == self@.size,
                nu == self@.size,
                cell == c0,
                1 <= cell,
                ws == cell * nu,
                ws * ws == len,
                ws <= len <= usize::MAX,
                buffer@.len() == len,
                y <= nu,
                forall|k: int|
                    0 <= k < len && (k / (ws as int)) / c0 < y ==> #[trigger] pixel_flat(
                        buffer@,
                        self@,
                        c0,
                        k,
                    ),
            decreases nu - y,
        {
            let mut x: usize = 0;
            while x < nu
                invariant
                    self@.wf(),
                    n == self@.size,
                    nu == self@.size,
                    cell == c0,
                    1 <= cell,
                    ws == cell * nu,
                    ws * ws == len,
                    ws <= len <= usize::MAX,
                    buffer@.len() == len,
                    y < nu,
                    x <= nu,
                    forall|k: int|
                        0 <= k < len && (k / (ws as int)) / c0 < y ==> #[trigger] pixel_flat(
                            buffer@,
                            self@,
                            c0,
                            k,
                        ),
                    forall|k: int|
                        0 <= k < len && (k / (ws as int)) / c0 == y && (k % (ws as int)) / c0 < x
                            ==> #[trigger] pixel_flat(buffer@, self@, c0, k),
                decreases nu - x,
            {
                let i = crate::torus::tidx(n, x as u32, y as u32);
                let v = self.data()[i];
                let color = self.symbol_to_color()[v as usize];
                let rgb_bits: u32 = (color.0 as u32) * 0x10000 + (color.1 as u32) * 0x100 + (
                color.2 as u32);
                proof {
                    assert(y * cell <= (y + 1) * cell && (y + 1) * cell <= ws && x * cell <= (x
                        + 1) * cell && (x + 1) * cell <= ws) by (nonlinear_arith)
                        requires
                            y < nu,
                            x < nu,
                            ws == cell * nu,
                            1 <= cell,
                    ;
                }
                let mut wy = y * cell;
                while wy < (y + 1) * cell
                    invariant
                        self@.wf(),
                        nu == self@.size,
                        cell == c0,
                        1 <= cell,
                        ws == cell * nu,
                        ws * ws == len,
                        ws <= len <= usize::MAX,
                        buffer@.len() == len,
                        y < nu,
                        x < nu,
                        y * cell <= wy <= (y + 1) * cell,
                        x * cell <= (x + 1) * cell,
                        (y + 1) * cell <= ws,
                        (x + 1) * cell <= ws,
                        rgb_bits == rgb_u32(
                            self@.symbol_to_color[self@.data[torus_index(
                                self@.size,
                                x as int,
                                y as int,
                            )] as int],
                        ),
                        forall|k: int|
                            0 <= k < len && (k / (ws as int)) / c0 < y ==> #[trigger] pixel_flat(
                                buffer@,
                                self@,
                                c0,
                                k,
                            ),
                        forall|k: int|
                            0 <= k < len && (k / (ws as int)) / c0 == y && (k % (ws as int)) / c0
                                < x ==> #[trigger] pixel_flat(buffer@, self@, c0, k),
                        forall|k: int|
                            0 <= k < len && y * cell <= k / (ws as int) < wy && x * cell <= k % (
                            ws as int) < (x + 1) * cell ==> #[trigger] pixel_flat(
                                buffer@,
                                self@,
                                c0,
                                k,
                            ),
                    decreases (y + 1) * cell - wy,
                {
                    let mut wx = x * cell;
                    while wx < (x + 1) * cell
                        invariant
                            self@.wf(),
                            nu == self@.size,
                            cell == c0,
                            1 <= cell,
                            ws == cell * nu,
                            ws * ws == len,
                            ws <= len <= usize::MAX,
                            buffer@.len() == len,
                            y < nu,
                            x < nu,
                            y * cell <= wy < (y + 1) * cell,
                            x * cell <= wx <= (x + 1) * cell,
                            (y + 1) * cell <= ws,
                            (x + 1) * cell <= ws,
                            rgb_bits == rgb_u32(
                                self@.symbol_to_color[self@.data[torus_index(
                                    self@.size,
                                    x as int,
                                    y as int,
                                )] as int],
                            ),
                            forall|k: int|
                                0 <= k < len && (k / (ws as int)) / c0 < y ==> #[trigger]
                                pixel_flat(buffer@, self@, c0, k),
                            forall|k: int|
                                0 <= k < len && (k / (ws as int)) / c0 == y && (k % (ws as int))
                                    / c0 < x ==> #[trigger] pixel_flat(buffer@, self@, c0, k),
                            forall|k: int|
                                0 <= k < len && y * cell <= k / (ws as int) < wy && x * cell <= k
                                    % (ws as int) < (x + 1) * cell ==> #[trigger] pixel_flat(
                                    buffer@,
                                    self@,
                                    c0,
                                    k,
                                ),
                            forall|k: int|
                                0 <= k < len && k / (ws as int) == wy && x * cell <= k % (
                                ws as int) < wx ==> #[trigger] pixel_flat(buffer@, self@, c0, k),
                        decreases (x + 1) * cell - wx,
                    {
                        proof {
                            assert(wy * ws + wx < ws * ws && wy < ws && wx < ws)
                                by (nonlinear_arith)
                                requires
                                    1 <= ws,
                                    wy < (y + 1) * cell,
                                    wx < (x + 1) * cell,
                                    (y + 1) * cell <= ws,
                                    (x + 1) * cell <= ws,
                                    0 <= wy,
                                    0 <= wx,
                            ;
                        }
                        let wi = wy * ws + wx;
                        let ghost prevb = buffer@;
                        buffer.set(wi, rgb_bits);
                        proof {
                            vstd::arithmetic::div_mod::lemma_fundamental_div_mod_converse(
                                wi as int,
                                ws as int,
                                wy as int,
                                wx as int,
                            );
                            lemma_div_block(wy as int, y as int, cell as int);
                            lemma_div_block(wx as int, x as int, cell as int);
                            assert(pixel_flat(buffer@, self@, c0, wi as int));
                            assert forall|k: int|
                                0 <= k < len && (k / (ws as int)) / c0 < y implies #[trigger]
                                pixel_flat(buffer@, self@, c0, k) by {
                                assert(pixel_flat(prevb, self@, c0, k));
                            }
                            assert forall|k: int|
                                0 <= k < len && (k / (ws as int)) / c0 == y && (k % (ws as int))
                                    / c0 < x implies #[trigger] pixel_flat(
                                buffer@,
                                self@,
                                c0,
                                k,
                            ) by {
                                assert(pixel_flat(prevb, self@, c0, k));
                            }
                            assert forall|k: int|
                                0 <= k < len && y * cell <= k / (ws as int) < wy && x * cell <= k
                                    % (ws as int) < (x + 1) * cell implies #[trigger] pixel_flat(
                                buffer@,
                                self@,
                                c0,
                                k,
                            ) by {
                                assert(pixel_flat(prevb, self@, c0, k));
                            }
                            assert forall|k: int|
                                0 <= k < len && k / (ws as int) == wy && x * cell <= k % (
                                ws as int) < wx + 1 implies #[trigger] pixel_flat(
                                buffer@,
                                self@,
                                c0,
                                k,
                            ) by {
                                if k != wi {
                                    vstd::arithmetic::div_mod::lemma_fundamental_div_mod(
                                        k,
                                        ws as int,
                                    );
                                    assert((ws as int) * (k / (ws as int)) == (k / (
                                    ws as int)) * (ws as int)) by (nonlinear_arith);
                                    assert(k % (ws as int) != wx);
                                    assert(pixel_flat(prevb, self@, c0, k));
                                }
                            }
                        }
                        wx = wx + 1;
                    }
                    wy = wy + 1;
                }
                proof {
                    assert forall|k: int|
                        0 <= k < len && (k / (ws as int)) / c0 == y && (k % (ws as int)) / c0
                            <= x implies #[trigger] pixel_flat(buffer@, self@, c0, k) by {
                        if (k % (ws as int)) / c0 == x {
                            let ky = k / (ws as int);
                            let kx = k % (ws as int);
                            vstd::arithmetic::div_mod::lemma_fundamental_div_mod(ky, c0);
                            vstd::arithmetic::div_mod::lemma_fundamental_div_mod(kx, c0);
                            vstd::arithmetic::div_mod::lemma_mod_bound(ky, c0);
                            vstd::arithmetic::div_mod::lemma_mod_bound(kx, c0);
                            assert(y * cell <= ky < (y + 1) * cell && x * cell <= kx < (x + 1)
                                * cell) by (nonlinear_arith)
                                requires
                                    cell == c0,
                                    1 <= c0,
                                    ky == c0 * (ky / c0) + ky % c0,
                                    kx == c0 * (kx / c0) + kx % c0,
                                    0 <= ky % c0 < c0,
                                    0 <= kx % c0 < c0,
                                    ky / c0 == y as int,
                                    kx / c0 == x as int,
                            ;
                        }
                    }
                }
                x = x + 1;
            }
            proof {
                assert forall|k: int|
                    0 <= k < len && (k / (ws as int)) / c0 <= y implies #[trigger] pixel_flat(
                        buffer@,
                        self@,
                        c0,
                        k,
                    ) by {
                    let kx = k % (ws as int);
                    vstd::arithmetic::div_mod::lemma_fundamental_div_mod(kx, c0);
                    vstd::arithmetic::div_mod::lemma_mod_bound(kx, c0);
                    vstd::arithmetic::div_mod::lemma_mod_bound(k, ws as int);
                    assert(kx / c0 < nu) by (nonlinear_arith)
                        requires
                            1 <= c0,
                            0 <= kx < ws as int,
                            ws == cell * nu,
                            cell == c0,
                            kx == c0 * (kx / c0) + kx % c0,
                            0 <= kx % c0 < c0,
                    ;
                }
            }
            y = y + 1;
        }
        proof {
            assert forall|c: int, wx: int, wy: int|
                is_window_scale(c, buffer@.len() as int, self@.size) && 0 <= wy < c * self@.size
                    && 0 <= wx < c * self@.size implies pixel_shows_cell(
                buffer@,
                self@,
                c,
                wx,
                wy,
            ) by {
                assert(c == c0) by (nonlinear_arith)
                    requires
                        1 <= c,
                        1 <= c0,
                        1 <= nu,
                        nu == self@.size,
                        (c * self@.size) * (c * self@.size) == len as int,
                        (c0 * self@.size) * (c0 * self@.size) == len as int,
                ;
                let k = wy * (ws as int) + wx;
                assert(0 <= k < len && 0 <= wx < ws && 0 <= wy < ws) by (nonlinear_arith)
                    requires
                        0 <= wy < c0 * (nu as int),
                        0 <= wx < c0 * (nu as int),
                        ws == cell * nu,
                        cell == c0,
                        k == wy * (ws as int) + wx,
                        ws * ws == len,
                ;
                vstd::arithmetic::div_mod::lemma_fundamental_div_mod_converse(
                    k,
                    ws as int,
                    wy,
                    wx,
                );
                vstd::arithmetic::div_mod::lemma_fundamental_div_mod(wy, c0);
                vstd::arithmetic::div_mod::lemma_mod_bound(wy, c0);
                assert(wy / c0 < nu) by (nonlinear_arith)
                    requires
                        1 <= c0,
                        0 <= wy < c0 * (nu as int),
                        wy == c0 * (wy / c0) + wy % c0,
                        0 <= wy % c0 < c0,
                ;
                assert(pixel_flat(buffer@, self@, c0, k));
            }
        }
    }
}

/// Flattens a color table into consecutive red, green, blue bytes, as a
/// palette encoder expects them.
pub fn flatten_colors(colors: &Vec<(u8, u8, u8)>) -> (v: Vec<u8>)
    requires
        colors@.len() * 3 <= usize::MAX,
    ensures
        v@.len() == colors@.len() * 3,
        forall|i: int|
            0 <= i < colors@.len() ==> v@[3 * i] == (#[trigger] colors@[i]).0 && v@[3 * i + 1]
                == colors@[i].1 && v@[3 * i + 2] == colors@[i].2,
{
    let mut v: Vec<u8> = Vec::new();
    let mut i: usize = 0;
    while i < colors.len()
        invariant
            i <= colors@.len(),
            colors@.len() * 3 <= usize::MAX,
            v@.len() == 3 * i,
            forall|j: int|
                0 <= j < i ==> v@[3 * j] == (#[trigger] colors@[j]).0 && v@[3 * j + 1]
                    == colors@[j].1 && v@[3 * j + 2] == colors@[j].2,
        decreases colors@.len() - i,
    {
        let (r, g, b) = colors[i];
        v.push(r);
        v.push(g);
        v.push(b);
        i = i + 1;
    }
    v
}

/// Narrows a frame of symbol values to the palette-index bytes a frame
/// encoder takes; symbols beyond one byte keep only their low byte.
pub fn frame_to_bytes(frame: &Vec<u32>) -> (v: Vec<u8>)
    ensures
        v@.len() == frame@.len(),
        forall|i: int| 0 <= i < frame@.len() ==> v@[i] == (#[trigger] frame@[i]) % 256,
{
    let mut v: Vec<u8> = Vec::new();
    let mut i: usize = 0;
    while i < frame.len()
        invariant
            i <= frame@.len(),
            v@.len() == i,
            forall|j: int| 0 <= j < i ==> v@[j] == (#[trigger] frame@[j]) % 256,
        decreases frame@.len() - i,
    {
        v.push((frame[i] % 256) as u8);
        i = i + 1;
    }
    v
}

} // verus!
