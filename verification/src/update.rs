//! Per-tick diffusion kernel: every cell relaxes toward the weighted average
//! of its 3x3 neighborhood (center excluded), each neighbor weighted by the
//! stencil pattern (corner half of edge) scaled by that neighbor's
//! conductivity.
//!
//! All arithmetic is fixed-point (`SCALE` units).  Stencil weights are
//! stored doubled so they stay integers: corner 1, edge 2.

use crate::board::Board;
use crate::SCALE;
use vstd::prelude::*;

verus! {

/// Largest fixed-point energy value a cell may hold (about a billion units).
pub const ENERGY_FIX_MAX: i64 = 0x100_0000_0000;

/// Linear index of cell `(x, y)` in a grid of width `w`.
pub open spec fn idx(w: int, x: int, y: int) -> int {
    y * w + x
}

/// Doubled stencil weight of the neighbor at offset `(dx - 1, dy - 1)`:
/// 1 at the corners, 2 at the edges, 0 at the center.
pub open spec fn kernel_weight(dx: int, dy: int) -> int {
    if dx == 1 && dy == 1 {
        0
    } else if dx == 1 || dy == 1 {
        2
    } else {
        1
    }
}

/// Conductivity-scaled weight contributed by the neighbor at offset
/// `(dx - 1, dy - 1)` of cell `(x, y)`; 0 outside the grid.
pub open spec fn weight_term(c: Seq<i64>, w: int, h: int, x: int, y: int, dx: int, dy: int) -> int {
    let nx = x + dx - 1;
    let ny = y + dy - 1;
    if 0 <= nx < w && 0 <= ny < h {
        kernel_weight(dx, dy) * c[idx(w, nx, ny)]
    } else {
        0
    }
}

/// Weighted energy contributed by the neighbor at offset `(dx - 1, dy - 1)`
/// of cell `(x, y)`; 0 outside the grid.
pub open spec fn energy_term(
    e: Seq<i64>,
    c: Seq<i64>,
    w: int,
    h: int,
    x: int,
    y: int,
    dx: int,
    dy: int,
) -> int {
    let nx = x + dx - 1;
    let ny = y + dy - 1;
    if 0 <= nx < w && 0 <= ny < h {
        kernel_weight(dx, dy) * c[idx(w, nx, ny)] * e[idx(w, nx, ny)]
    } else {
        0
    }
}

/// Sum of the conductivity-scaled weights of the eight neighbors of `(x, y)`.
pub open spec fn weight_sum(c: Seq<i64>, w: int, h: int, x: int, y: int) -> int {
    weight_term(c, w, h, x, y, 0, 0) + weight_term(c, w, h, x, y, 1, 0) + weight_term(
        c,
        w,
        h,
        x,
        y,
        2,
        0,
    ) + weight_term(c, w, h, x, y, 0, 1) + weight_term(c, w, h, x, y, 2, 1) + weight_term(
        c,
        w,
        h,
        x,
        y,
        0,
        2,
    ) + weight_term(c, w, h, x, y, 1, 2) + weight_term(c, w, h, x, y, 2, 2)
}

/// Sum of the weighted energies of the eight neighbors of `(x, y)`.
pub open spec fn energy_sum(e: Seq<i64>, c: Seq<i64>, w: int, h: int, x: int, y: int) -> int {
    energy_term(e, c, w, h, x, y, 0, 0) + energy_term(e, c, w, h, x, y, 1, 0) + energy_term(
        e,
        c,
        w,
        h,
        x,
        y,
        2,
        0,
    ) + energy_term(e, c, w, h, x, y, 0, 1) + energy_term(e, c, w, h, x, y, 2, 1) + energy_term(
        e,
        c,
        w,
        h,
        x,
        y,
        0,
        2,
    ) + energy_term(e, c, w, h, x, y, 1, 2) + energy_term(e, c, w, h, x, y, 2, 2)
}

/// The next energy of cell `(x, y)`: a first-order relaxation from the
/// current value toward the neighborhood's weighted average, by the fraction
/// `dt / SCALE` of the difference.  A fully isolated cell (weight sum zero)
/// keeps its energy unchanged.
pub open spec fn step_cell_spec(
    e: Seq<i64>,
    c: Seq<i64>,
    w: int,
    h: int,
    x: int,
    y: int,
    dt: int,
) -> int {
    let cur = e[idx(w, x, y)];
    let ws = weight_sum(c, w, h, x, y);
    if ws == 0 {
        cur as int
    } else {
        let t = energy_sum(e, c, w, h, x, y) / ws;
        if t >= cur {
            cur + (t - cur) * dt / (SCALE as int)
        } else {
            cur - (cur - t) * dt / (SCALE as int)
        }
    }
}

/// Bounds on the read buffers that the kernel needs: conductivities within
/// `[0, SCALE]` and energies within `[0, ENERGY_FIX_MAX]`.
pub open spec fn kernel_inputs_ok(e: Seq<i64>, c: Seq<i64>, w: int, h: int) -> bool {
    &&& w <= 0x7fff_ffff
    &&& h <= 0x7fff_ffff
    &&& e.len() == w * h
    &&& c.len() == w * h
    &&& forall|i: int| 0 <= i < c.len() ==> 0 <= #[trigger] c[i] <= SCALE
    &&& forall|i: int| 0 <= i < e.len() ==> 0 <= #[trigger] e[i] <= ENERGY_FIX_MAX
}

/// Weight and weighted energy contributed by one neighbor of `(x, y)`.
fn neighbor_contrib(
    energy: &Vec<i64>,
    cond: &Vec<i64>,
    width: usize,
    height: usize,
    x: usize,
    y: usize,
    dx: usize,
    dy: usize,
) -> (r: (i64, i64))
    requires
        kernel_inputs_ok(energy@, cond@, width as int, height as int),
        x < width,
        y < height,
        dx < 3,
        dy < 3,
    ensures
        r.0 == weight_term(cond@, width as int, height as int, x as int, y as int, dx as int, dy as int),
        r.1 == energy_term(energy@, cond@, width as int, height as int, x as int, y as int, dx as int, dy as int),
        0 <= r.0 <= 2 * SCALE,
        0 <= r.1 <= r.0 * ENERGY_FIX_MAX,
{
    let nxp = x + dx;
    let nyp = y + dy;
    if nxp >= 1 && nxp - 1 < width && nyp >= 1 && nyp - 1 < height {
        let nx = nxp - 1;
        let ny = nyp - 1;
        proof {
            assert(cond.len() == cond@.len());
            assert(ny * width + nx < width * height) by (nonlinear_arith)
                requires
                    0 <= nx < width,
                    0 <= ny < height,
            ;
        }
        let i = ny * width + nx;
        let kw: i64 = if dx == 1 && dy == 1 {
            0
        } else if dx == 1 || dy == 1 {
            2
        } else {
            1
        };
        let cv = cond[i];
        let ev = energy[i];
        let wterm = kw * cv;
        proof {
            assert(0 <= wterm * ev <= wterm * ENERGY_FIX_MAX) by (nonlinear_arith)
                requires
                    0 <= wterm <= 2 * SCALE,
                    0 <= ev <= ENERGY_FIX_MAX,
            ;
        }
        let eterm = wterm * ev;
        (wterm, eterm)
    } else {
        (0, 0)
    }
}

/// Computes the next energy of cell `(x, y)` from the read buffers of the
/// prior tick.  The result always stays within the energy bounds, between
/// the cell's current energy and its neighborhood average.
pub fn step_cell(
    energy: &Vec<i64>,
    cond: &Vec<i64>,
    width: usize,
    height: usize,
    x: usize,
    y: usize,
    dt: i64,
) -> (r: i64)
    requires
        kernel_inputs_ok(energy@, cond@, width as int, height as int),
        x < width,
        y < height,
        0 <= dt <= SCALE,
    ensures
        r == step_cell_spec(energy@, cond@, width as int, height as int, x as int, y as int, dt as int),
        0 <= r <= ENERGY_FIX_MAX,
{
    let ghost ew = energy@;
    let ghost cw = cond@;
    let ghost wi = width as int;
    let ghost hi = height as int;
    let (w00, e00) = neighbor_contrib(energy, cond, width, height, x, y, 0, 0);
    let (w10, e10) = neighbor_contrib(energy, cond, width, height, x, y, 1, 0);
    let (w20, e20) = neighbor_contrib(energy, cond, width, height, x, y, 2, 0);
    let (w01, e01) = neighbor_contrib(energy, cond, width, height, x, y, 0, 1);
    let (w21, e21) = neighbor_contrib(energy, cond, width, height, x, y, 2, 1);
    let (w02, e02) = neighbor_contrib(energy, cond, width, height, x, y, 0, 2);
    let (w12, e12) = neighbor_contrib(energy, cond, width, height, x, y, 1, 2);
    let (w22, e22) = neighbor_contrib(energy, cond, width, height, x, y, 2, 2);
    let ws = w00 + w10 + w20 + w01 + w21 + w02 + w12 + w22;
    let es = e00 + e10 + e20 + e01 + e21 + e02 + e12 + e22;
    proof {
        assert(ws == weight_sum(cw, wi, hi, x as int, y as int));
        assert(es == energy_sum(ew, cw, wi, hi, x as int, y as int));
        assert(es <= ws * ENERGY_FIX_MAX);
    }
    proof {
        assert(energy.len() == energy@.len());
        assert(y * width + x < width * height) by (nonlinear_arith)
            requires
                0 <= x < width,
                0 <= y < height,
        ;
    }
    let cur = energy[y * width + x];
    if ws == 0 {
        return cur;
    }
    proof {
        vstd::arithmetic::div_mod::lemma_div_pos_is_pos(es as int, ws as int);
        vstd::arithmetic::div_mod::lemma_div_nonincreasing(es as int, ws as int);
        vstd::arithmetic::div_mod::lemma_div_is_ordered(es as int, (ws * ENERGY_FIX_MAX) as int, ws as int);
        vstd::arithmetic::div_mod::lemma_div_multiples_vanish(ENERGY_FIX_MAX as int, ws as int);
    }
    let t = ((es as u64) / (ws as u64)) as i64;
    assert(0 <= t <= ENERGY_FIX_MAX);
    if t >= cur {
        let diff = t - cur;
        proof {
            assert(diff * dt <= diff * SCALE <= ENERGY_FIX_MAX * SCALE) by (nonlinear_arith)
                requires
                    0 <= diff <= ENERGY_FIX_MAX,
                    0 <= dt <= SCALE,
            ;
            vstd::arithmetic::div_mod::lemma_div_pos_is_pos((diff * dt) as int, SCALE as int);
            vstd::arithmetic::div_mod::lemma_div_is_ordered((diff * dt) as int, (SCALE * diff) as int, SCALE as int);
            vstd::arithmetic::div_mod::lemma_div_multiples_vanish(diff as int, SCALE as int);
        }
        let num = (diff as u64) * (dt as u64);
        let d = (num / (SCALE as u64)) as i64;
        assert(0 <= d <= diff);
        cur + d
    } else {
        let diff = cur - t;
        proof {
            assert(diff * dt <= diff * SCALE <= ENERGY_FIX_MAX * SCALE) by (nonlinear_arith)
                requires
                    0 <= diff <= ENERGY_FIX_MAX,
                    0 <= dt <= SCALE,
            ;
            vstd::arithmetic::div_mod::lemma_div_pos_is_pos((diff * dt) as int, SCALE as int);
            vstd::arithmetic::div_mod::lemma_div_is_ordered((diff * dt) as int, (SCALE * diff) as int, SCALE as int);
            vstd::arithmetic::div_mod::lemma_div_multiples_vanish(diff as int, SCALE as int);
        }
        let num = (diff as u64) * (dt as u64);
        let d = (num / (SCALE as u64)) as i64;
        assert(0 <= d <= diff);
        cur - d
    }
}

/// Sum of a sequence of fixed-point values.
pub open spec fn sum_seq(s: Seq<i64>) -> int
    decreases s.len(),
{
    if s.len() == 0 {
        0
    } else {
        sum_seq(s.drop_last()) + s.last()
    }
}

pub proof fn lemma_sum_seq_take_step(s: Seq<i64>, i: int)
    requires
        0 <= i < s.len(),
    ensures
        sum_seq(s.take(i + 1)) == sum_seq(s.take(i)) + s[i],
{
    assert(s.take(i + 1).drop_last() =~= s.take(i));
    assert(s.take(i + 1).last() == s[i]);
}

/// If every conductivity is zero, every cell is isolated and a tick leaves
/// its energy unchanged.
pub proof fn lemma_zero_coupling(e: Seq<i64>, c: Seq<i64>, w: int, h: int, x: int, y: int, dt: int)
    requires
        forall|i: int| 0 <= i < c.len() ==> c[i] == 0,
        c.len() == w * h,
        0 <= x < w,
        0 <= y < h,
    ensures
        step_cell_spec(e, c, w, h, x, y, dt) == e[idx(w, x, y)],
{
    assert forall|dx: int, dy: int|
        0 <= dx < 3 && 0 <= dy < 3 implies #[trigger] weight_term(c, w, h, x, y, dx, dy) == 0 by {
        let nx = x + dx - 1;
        let ny = y + dy - 1;
        if 0 <= nx < w && 0 <= ny < h {
            assert(0 <= idx(w, nx, ny) < w * h) by (nonlinear_arith)
                requires
                    0 <= nx < w,
                    0 <= ny < h,
            ;
            assert(c[idx(w, nx, ny)] == 0);
        }
    }
    assert(weight_sum(c, w, h, x, y) == 0);
}

impl Board {
    /// The energy cell `i` will hold after a tick of length `dt`, computed
    /// from the read halves of the energy and conductivity buffers.
    pub open spec fn next_energy(self, i: int, dt: int) -> int {
        step_cell_spec(
            self.energy.r@,
            self.conductivity.r@,
            self.width as int,
            self.height as int,
            i % (self.width as int),
            i / (self.width as int),
            dt,
        )
    }

    /// Advances the grid one tick of length `dt` (fixed-point seconds, at
    /// most one second): every cell's new energy is the relaxation step of
    /// its neighborhood, written to the write half; then the energy buffer
    /// swaps, and the aggregate of the new energies is recorded.  Every
    /// other attribute is untouched.
    pub fn update(&mut self, dt: i64)
        requires
            old(self).wf(),
            0 <= dt <= SCALE,
        ensures
            final (self).wf(),
            final (self).width == old(self).width,
            final (self).height == old(self).height,
            final (self).pos == old(self).pos,
            final (self).connex_numbers == old(self).connex_numbers,
            final (self).conductivity == old(self).conductivity,
            final (self).stability == old(self).stability,
            final (self).reactivity == old(self).reactivity,
            final (self).alpha == old(self).alpha,
            final (self).beta == old(self).beta,
            final (self).gamma == old(self).gamma,
            final (self).delta == old(self).delta,
            final (self).omega == old(self).omega,
            final (self).energy.r@.len() == old(self).cells(),
            forall|i: int|
                0 <= i < old(self).cells() ==> final (self).energy.r@[i] == old(self).next_energy(
                    i,
                    dt as int,
                ),
            final (self).energy.w@ == old(self).energy.r@,
            final (self).total_energy == sum_seq(final (self).energy.r@),
    {
        let ghost orig = *old(self);
        let ghost e0 = old(self).energy.r@;
        let ghost c0 = old(self).conductivity.r@;
        let width = self.width;
        let height = self.height;
        let len = self.energy.w.len();
        let mut total: i128 = 0;
        let mut i: usize = 0;
        proof {
            assert(self.energy.w@.take(0) =~= Seq::<i64>::empty());
        }
        while i < len
            invariant
                orig.wf(),
                0 <= dt <= SCALE,
                width == orig.width,
                height == orig.height,
                len == orig.cells(),
                i <= len,
                self.width == orig.width,
                self.height == orig.height,
                self.pos == orig.pos,
                self.connex_numbers == orig.connex_numbers,
                self.conductivity == orig.conductivity,
                self.stability == orig.stability,
                self.reactivity == orig.reactivity,
                self.alpha == orig.alpha,
                self.beta == orig.beta,
                self.gamma == orig.gamma,
                self.delta == orig.delta,
                self.omega == orig.omega,
                self.total_energy == orig.total_energy,
                self.energy.r == orig.energy.r,
                self.energy.width == orig.energy.width,
                self.energy.w@.len() == orig.cells(),
                forall|k: int|
                    0 <= k < i ==> #[trigger] self.energy.w@[k] == orig.next_energy(k, dt as int),
                forall|k: int| 0 <= k < i ==> 0 <= #[trigger] self.energy.w@[k] <= ENERGY_FIX_MAX,
                total == sum_seq(self.energy.w@.take(i as int)),
                0 <= total <= i * ENERGY_FIX_MAX,
            decreases len - i,
        {
            proof {
                if width == 0 {
                    assert(orig.cells() == 0) by (nonlinear_arith)
                        requires
                            orig.cells() == orig.width * orig.height,
                            orig.width == 0,
                    ;
                }
                vstd::arithmetic::div_mod::lemma_mod_bound(i as int, width as int);
                vstd::arithmetic::div_mod::lemma_div_pos_is_pos(i as int, width as int);
                assert((width * height) as int == (width as int) * (height as int))
                    by (nonlinear_arith);
                vstd::arithmetic::div_mod::lemma_multiply_divide_lt(
                    i as int,
                    width as int,
                    height as int,
                );
            }
            let x = i % width;
            let y = i / width;
            let v = step_cell(&self.energy.r, &self.conductivity.r, width, height, x, y, dt);
            let ghost prev_w = self.energy.w@;
            self.energy.w[i] = v;
            proof {
                assert(self.energy.w@.take(i as int) =~= prev_w.take(i as int));
                lemma_sum_seq_take_step(self.energy.w@, i as int);
            }
            total = total + v as i128;
            i += 1;
        }
        self.energy.swap();
        self.total_energy = total;
        proof {
            assert(self.energy.r@.take(len as int) =~= self.energy.r@);
        }
    }
}

} // verus!
