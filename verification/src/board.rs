//! The attribute grid: one double buffer per cell attribute, all advanced in
//! lockstep, plus the aggregate energy of the last tick.

use crate::point::Point;
use crate::rng::{rng_below, rng_from_seed};
use crate::swap_buffer::{swapped, SwapBuffer};
use crate::update::{sum_seq, ENERGY_FIX_MAX};
use crate::SCALE;
use vstd::prelude::*;

verus! {

/// Largest connex number a cell may carry.
pub const CONNEX_FILL_MAX: u64 = 200;

/// Largest fixed-point energy the initial random fill may produce
/// (150 units).
pub const ENERGY_FILL_MAX: u64 = 153600;

/// One cell grid: `width * height` cells, each with ten double-buffered
/// attributes, anchored at a world-space position (fixed-point units).
pub struct Board {
    pub pos: Point<i64>,
    pub width: usize,
    pub height: usize,
    pub connex_numbers: SwapBuffer<u32>,
    pub conductivity: SwapBuffer<i64>,
    pub stability: SwapBuffer<i64>,
    pub reactivity: SwapBuffer<i64>,
    pub energy: SwapBuffer<i64>,
    pub alpha: SwapBuffer<u64>,
    pub beta: SwapBuffer<u64>,
    pub gamma: SwapBuffer<i64>,
    pub delta: SwapBuffer<u64>,
    pub omega: SwapBuffer<i64>,
    pub total_energy: i128,
}

/// One attribute buffer belongs to a `width * height` grid: both halves hold
/// one value per cell and the buffer knows the grid's width.
pub open spec fn buf_ok<T>(b: SwapBuffer<T>, width: int, cells: int) -> bool {
    &&& b.wf()
    &&& b.width == width
    &&& b.r.len() == cells
}

impl Board {
    /// Number of cells.
    pub open spec fn cells(self) -> int {
        self.width * self.height
    }

    /// Every attribute buffer has one value per cell in both halves, and the
    /// read halves of the simulation fields stay within their fixed-point
    /// ranges: connex numbers within `[0, 200]`, conductivities within
    /// `[0, SCALE]`, energies within `[0, ENERGY_FIX_MAX]`.
    pub open spec fn wf(self) -> bool {
        &&& self.width <= 0x7fff_ffff
        &&& self.height <= 0x7fff_ffff
        &&& buf_ok(self.connex_numbers, self.width as int, self.cells())
        &&& buf_ok(self.conductivity, self.width as int, self.cells())
        &&& buf_ok(self.stability, self.width as int, self.cells())
        &&& buf_ok(self.reactivity, self.width as int, self.cells())
        &&& buf_ok(self.energy, self.width as int, self.cells())
        &&& buf_ok(self.alpha, self.width as int, self.cells())
        &&& buf_ok(self.beta, self.width as int, self.cells())
        &&& buf_ok(self.gamma, self.width as int, self.cells())
        &&& buf_ok(self.delta, self.width as int, self.cells())
        &&& buf_ok(self.omega, self.width as int, self.cells())
        &&& forall|i: int|
            0 <= i < self.cells() ==> 0 <= #[trigger] self.connex_numbers.r@[i] <= CONNEX_FILL_MAX
        &&& forall|i: int|
            0 <= i < self.cells() ==> 0 <= #[trigger] self.conductivity.r@[i] <= SCALE
        &&& forall|i: int|
            0 <= i < self.cells() ==> 0 <= #[trigger] self.energy.r@[i] <= ENERGY_FIX_MAX
    }

    pub fn width(&self) -> (r: usize)
        ensures
            r == self.width,
    {
        self.width
    }

    pub fn height(&self) -> (r: usize)
        ensures
            r == self.height,
    {
        self.height
    }

    /// Aggregate of the energies written by the last tick (or summed at
    /// creation).
    pub fn total_energy(&self) -> (r: i128)
        ensures
            r == self.total_energy,
    {
        self.total_energy
    }

    /// Creates a board anchored at `pos` and fills it from the seeded
    /// generator: connex numbers, conductivities, reactivities and energies
    /// uniformly within their fill ranges, everything else zeroed.
    pub fn new(pos: Point<i64>, width: usize, height: usize, seed: u64) -> (b: Board)
        requires
            width <= 0x7fff_ffff,
            height <= 0x7fff_ffff,
            width * height <= usize::MAX,
        ensures
            b.wf(),
            b.width == width,
            b.height == height,
            b.pos == pos,
            b.total_energy == sum_seq(b.energy.r@),
            forall|i: int| 0 <= i < b.cells() ==> #[trigger] b.energy.r@[i] <= ENERGY_FILL_MAX,
            forall|i: int|
                0 <= i < b.cells() ==> -SCALE <= #[trigger] b.reactivity.r@[i] <= SCALE,
            forall|i: int| 0 <= i < b.cells() ==> #[trigger] b.stability.r@[i] == 0,
            forall|i: int| 0 <= i < b.cells() ==> #[trigger] b.alpha.r@[i] == 0,
            forall|i: int| 0 <= i < b.cells() ==> #[trigger] b.beta.r@[i] == 0,
            forall|i: int| 0 <= i < b.cells() ==> #[trigger] b.gamma.r@[i] == 0,
            forall|i: int| 0 <= i < b.cells() ==> #[trigger] b.delta.r@[i] == 0,
            forall|i: int| 0 <= i < b.cells() ==> #[trigger] b.omega.r@[i] == 0,
            b.connex_numbers.w@ == b.connex_numbers.r@,
            b.conductivity.w@ == b.conductivity.r@,
            b.stability.w@ == b.stability.r@,
            b.reactivity.w@ == b.reactivity.r@,
            b.energy.w@ == b.energy.r@,
            b.alpha.w@ == b.alpha.r@,
            b.beta.w@ == b.beta.r@,
            b.gamma.w@ == b.gamma.r@,
            b.delta.w@ == b.delta.r@,
            b.omega.w@ == b.omega.r@,
    {
        let cells = width * height;
        let mut rng = rng_from_seed(seed);
        let connex_base = fill_rand_u32(&mut rng, cells, CONNEX_FILL_MAX + 1);
        let conductivity_base = fill_rand_i64(&mut rng, cells, (SCALE as u64) + 1, 0);
        let reactivity_base = fill_rand_i64(&mut rng, cells, 2 * (SCALE as u64) + 1, -SCALE);
        let energy_base = fill_rand_i64(&mut rng, cells, ENERGY_FILL_MAX + 1, 0);
        let energy = SwapBuffer::from_arr(energy_base, width);
        let total_energy = sum_energy_vec(&energy.r);
        Board {
            pos,
            width,
            height,
            connex_numbers: SwapBuffer::from_arr(connex_base, width),
            conductivity: SwapBuffer::from_arr(conductivity_base, width),
            stability: SwapBuffer::from_arr(fill_zero_i64(cells), width),
            reactivity: SwapBuffer::from_arr(reactivity_base, width),
            energy,
            alpha: SwapBuffer::from_arr(fill_zero_u64(cells), width),
            beta: SwapBuffer::from_arr(fill_zero_u64(cells), width),
            gamma: SwapBuffer::from_arr(fill_zero_i64(cells), width),
            delta: SwapBuffer::from_arr(fill_zero_u64(cells), width),
            omega: SwapBuffer::from_arr(fill_zero_i64(cells), width),
            total_energy,
        }
    }

    /// Exchanges two cells across every attribute buffer at once; a partial
    /// exchange over only some attributes never happens.
    pub fn swap_cells(&mut self, pos1: usize, pos2: usize)
        requires
            old(self).wf(),
            pos1 < old(self).cells(),
            pos2 < old(self).cells(),
        ensures
            final (self).wf(),
            final (self).width == old(self).width,
            final (self).height == old(self).height,
            final (self).pos == old(self).pos,
            final (self).total_energy == old(self).total_energy,
            final (self).connex_numbers.r@ == swapped(old(self).connex_numbers.r@, pos1 as int, pos2 as int),
            final (self).conductivity.r@ == swapped(old(self).conductivity.r@, pos1 as int, pos2 as int),
            final (self).stability.r@ == swapped(old(self).stability.r@, pos1 as int, pos2 as int),
            final (self).reactivity.r@ == swapped(old(self).reactivity.r@, pos1 as int, pos2 as int),
            final (self).energy.r@ == swapped(old(self).energy.r@, pos1 as int, pos2 as int),
            final (self).alpha.r@ == swapped(old(self).alpha.r@, pos1 as int, pos2 as int),
            final (self).beta.r@ == swapped(old(self).beta.r@, pos1 as int, pos2 as int),
            final (self).gamma.r@ == swapped(old(self).gamma.r@, pos1 as int, pos2 as int),
            final (self).delta.r@ == swapped(old(self).delta.r@, pos1 as int, pos2 as int),
            final (self).omega.r@ == swapped(old(self).omega.r@, pos1 as int, pos2 as int),
            final (self).connex_numbers.w == old(self).connex_numbers.w,
            final (self).conductivity.w == old(self).conductivity.w,
            final (self).stability.w == old(self).stability.w,
            final (self).reactivity.w == old(self).reactivity.w,
            final (self).energy.w == old(self).energy.w,
            final (self).alpha.w == old(self).alpha.w,
            final (self).beta.w == old(self).beta.w,
            final (self).gamma.w == old(self).gamma.w,
            final (self).delta.w == old(self).delta.w,
            final (self).omega.w == old(self).omega.w,
    {
        self.connex_numbers.swap_cells(pos1, pos2);
        self.conductivity.swap_cells(pos1, pos2);
        self.stability.swap_cells(pos1, pos2);
        self.reactivity.swap_cells(pos1, pos2);
        self.energy.swap_cells(pos1, pos2);
        self.alpha.swap_cells(pos1, pos2);
        self.beta.swap_cells(pos1, pos2);
        self.gamma.swap_cells(pos1, pos2);
        self.delta.swap_cells(pos1, pos2);
        self.omega.swap_cells(pos1, pos2);
    }

    /// The cell under a world-space position, if any: the position is taken
    /// relative to the board anchor, shifted by half a cell so that each
    /// cell's center is its anchor, and truncated to a cell coordinate.
    pub open spec fn tile_of(self, pos: Point<i64>) -> Option<Point<usize>> {
        let rx = pos.x - self.pos.x + SCALE / 2;
        let ry = pos.y - self.pos.y + SCALE / 2;
        if rx < 0 || ry < 0 {
            None
        } else if rx / (SCALE as int) >= self.width || ry / (SCALE as int) >= self.height {
            None
        } else {
            Some(Point { x: (rx / (SCALE as int)) as usize, y: (ry / (SCALE as int)) as usize })
        }
    }

    pub fn tile_at(&self, pos: Point<i64>) -> (r: Option<Point<usize>>)
        requires
            self.wf(),
        ensures
            r == self.tile_of(pos),
    {
        let rx = pos.x as i128 - self.pos.x as i128 + (SCALE as i128) / 2;
        let ry = pos.y as i128 - self.pos.y as i128 + (SCALE as i128) / 2;
        if rx < 0 || ry < 0 {
            None
        } else {
            let cx = rx / (SCALE as i128);
            let cy = ry / (SCALE as i128);
            if cx >= self.width as i128 || cy >= self.height as i128 {
                None
            } else {
                Some(Point { x: cx as usize, y: cy as usize })
            }
        }
    }
}

/// A vector of `n` uniform draws below `limit`.
fn fill_rand_u32(rng: &mut rand_chacha::ChaCha8Rng, n: usize, limit: u64) -> (v: Vec<u32>)
    requires
        1 <= limit <= u32::MAX,
    ensures
        v@.len() == n,
        forall|i: int| 0 <= i < n ==> 0 <= #[trigger] v@[i] < limit,
{
    let mut v: Vec<u32> = Vec::new();
    let mut i: usize = 0;
    while i < n
        invariant
            i <= n,
            v@.len() == i,
            1 <= limit <= u32::MAX,
            forall|k: int| 0 <= k < i ==> 0 <= #[trigger] v@[k] < limit,
        decreases n - i,
    {
        let d = rng_below(rng, limit);
        v.push(d as u32);
        i += 1;
    }
    v
}

/// A vector of `n` uniform draws from `[offset, offset + span)`.
fn fill_rand_i64(rng: &mut rand_chacha::ChaCha8Rng, n: usize, span: u64, offset: i64) -> (v: Vec<
    i64,
>)
    requires
        1 <= span <= 0x10_0000,
        -0x10_0000 <= offset <= 0x10_0000,
    ensures
        v@.len() == n,
        forall|i: int| 0 <= i < n ==> offset <= #[trigger] v@[i] < offset + span,
{
    let mut v: Vec<i64> = Vec::new();
    let mut i: usize = 0;
    while i < n
        invariant
            i <= n,
            v@.len() == i,
            1 <= span <= 0x10_0000,
            -0x10_0000 <= offset <= 0x10_0000,
            forall|k: int| 0 <= k < i ==> offset <= #[trigger] v@[k] < offset + span,
        decreases n - i,
    {
        let d = rng_below(rng, span);
        v.push(offset + d as i64);
        i += 1;
    }
    v
}

/// A zero-filled vector of `n` fixed-point values.
fn fill_zero_i64(n: usize) -> (v: Vec<i64>)
    ensures
        v@.len() == n,
        forall|i: int| 0 <= i < n ==> #[trigger] v@[i] == 0,
{
    let mut v: Vec<i64> = Vec::new();
    let mut i: usize = 0;
    while i < n
        invariant
            i <= n,
            v@.len() == i,
            forall|k: int| 0 <= k < i ==> #[trigger] v@[k] == 0,
        decreases n - i,
    {
        v.push(0);
        i += 1;
    }
    v
}

/// A zero-filled vector of `n` packed words.
fn fill_zero_u64(n: usize) -> (v: Vec<u64>)
    ensures
        v@.len() == n,
        forall|i: int| 0 <= i < n ==> #[trigger] v@[i] == 0,
{
    let mut v: Vec<u64> = Vec::new();
    let mut i: usize = 0;
    while i < n
        invariant
            i <= n,
            v@.len() == i,
            forall|k: int| 0 <= k < i ==> #[trigger] v@[k] == 0,
        decreases n - i,
    {
        v.push(0);
        i += 1;
    }
    v
}

/// Sums a vector of in-range energies without overflow.
pub fn sum_energy_vec(v: &Vec<i64>) -> (t: i128)
    requires
        forall|i: int| 0 <= i < v@.len() ==> 0 <= #[trigger] v@[i] <= ENERGY_FIX_MAX,
    ensures
        t == sum_seq(v@),
        0 <= t <= v@.len() * ENERGY_FIX_MAX,
{
    let mut t: i128 = 0;
    let mut i: usize = 0;
    proof {
        assert(v@.take(0) =~= Seq::<i64>::empty());
    }
    while i < v.len()
        invariant
            i <= v@.len(),
            forall|k: int| 0 <= k < v@.len() ==> 0 <= #[trigger] v@[k] <= ENERGY_FIX_MAX,
            t == sum_seq(v@.take(i as int)),
            0 <= t <= i * ENERGY_FIX_MAX,
        decreases v@.len() - i,
    {
        proof {
            crate::update::lemma_sum_seq_take_step(v@, i as int);
        }
        t = t + v[i] as i128;
        i += 1;
    }
    proof {
        assert(v@.take(v@.len() as int) =~= v@);
    }
    t
}

} // verus!
