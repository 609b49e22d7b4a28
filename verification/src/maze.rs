//! One-shot procedural maze generation: fill a sub-rectangle with walls,
//! carve passages by randomized depth-first search, carve a central room
//! with a forge marker, and open doors chosen among candidates that a
//! breadth-first reachability test validates.
//!
//! Carving is expressed over the `stability` attribute: 0 is open, nonzero
//! is solid.  The central verified fact is connectivity: every cell the
//! depth-first carve opens stays reachable from the carve's start cell
//! through open cells.

use crate::bits::{set_bit, FLAG_FORGE, FLAG_FORGE_A, FLAG_FORGE_B, FLAG_ROOM_A, FLAG_ROOM_B,
    FLAG_SOLID};
use crate::alpha::encode_alpha;
use crate::board::Board;
use crate::rng::{rng_below, rng_from_seed};
use crate::SCALE;
use vstd::prelude::*;
use vstd::set_lib::{lemma_int_range, lemma_len_subset, set_int_range};

verus! {

/// Column of the cell with linear index `i` in a grid of width `w`.
pub open spec fn col_of(w: int, i: int) -> int {
    i % w
}

/// Row of the cell with linear index `i` in a grid of width `w`.
pub open spec fn row_of(w: int, i: int) -> int {
    i / w
}

/// The cells at `i` and `j` share an edge.
pub open spec fn adjacent(w: int, i: int, j: int) -> bool {
    let xi = col_of(w, i);
    let yi = row_of(w, i);
    let xj = col_of(w, j);
    let yj = row_of(w, j);
    ||| (xi == xj && (yi - yj == 1 || yj - yi == 1))
    ||| (yi == yj && (xi - xj == 1 || xj - xi == 1))
}

/// `p` is a walk over open cells of the stability sequence `s`: nonempty,
/// every step within bounds and open, consecutive cells adjacent.
pub open spec fn is_path(s: Seq<i64>, w: int, p: Seq<int>) -> bool {
    &&& p.len() > 0
    &&& forall|k: int| 0 <= k < p.len() ==> 0 <= #[trigger] p[k] < s.len() && s[p[k]] == 0
    &&& forall|k: int| 0 <= k < p.len() - 1 ==> adjacent(w, #[trigger] p[k], p[k + 1])
}

/// Some walk over open cells leads from `a` to `b`.
pub open spec fn reachable(s: Seq<i64>, w: int, a: int, b: int) -> bool {
    exists|p: Seq<int>| is_path(s, w, p) && p.first() == a && p.last() == b
}

/// An open cell reaches itself.
pub proof fn lemma_reach_self(s: Seq<i64>, w: int, a: int)
    requires
        0 <= a < s.len(),
        s[a] == 0,
    ensures
        reachable(s, w, a, a),
{
    let p: Seq<int> = seq![a];
    assert(is_path(s, w, p) && p.first() == a && p.last() == a);
}

/// A reachable cell's open neighbor is reachable too.
pub proof fn lemma_reach_extend(s: Seq<i64>, w: int, a: int, b: int, c: int)
    requires
        reachable(s, w, a, b),
        adjacent(w, b, c),
        0 <= c < s.len(),
        s[c] == 0,
    ensures
        reachable(s, w, a, c),
{
    let p = choose|p: Seq<int>| is_path(s, w, p) && p.first() == a && p.last() == b;
    let q = p.push(c);
    assert(q.last() == c);
    assert(forall|k: int| 0 <= k < p.len() ==> q[k] == p[k]);
    assert(is_path(s, w, q) && q.first() == a && q.last() == c);
}

/// Opening more cells never breaks reachability.
pub proof fn lemma_reach_mono(s1: Seq<i64>, s2: Seq<i64>, w: int, a: int, b: int)
    requires
        s1.len() == s2.len(),
        forall|i: int| 0 <= i < s1.len() && s1[i] == 0 ==> s2[i] == 0,
        reachable(s1, w, a, b),
    ensures
        reachable(s2, w, a, b),
{
    let p = choose|p: Seq<int>| is_path(s1, w, p) && p.first() == a && p.last() == b;
    assert(forall|k: int| 0 <= k < p.len() ==> 0 <= #[trigger] p[k] < s2.len() && s2[p[k]] == 0);
    assert(is_path(s2, w, p) && p.first() == a && p.last() == b);
}

/// A set of cell indices drawn from a grid of `n` cells has at most `n`
/// elements.
pub proof fn lemma_cell_set_bound(vset: Set<int>, n: int)
    requires
        0 <= n,
        forall|i: int| vset.contains(i) ==> 0 <= i < n,
    ensures
        vset.finite(),
        vset.len() <= n,
{
    lemma_int_range(0, n);
    assert(vset.subset_of(set_int_range(0, n)));
    lemma_len_subset(vset, set_int_range(0, n));
}

/// Linear index and coordinates agree: the cell written at `y * w + x` has
/// column `x` and row `y`.
pub proof fn lemma_coords(w: int, x: int, y: int)
    requires
        0 < w,
        0 <= x < w,
        0 <= y,
    ensures
        col_of(w, y * w + x) == x,
        row_of(w, y * w + x) == y,
{
    vstd::arithmetic::div_mod::lemma_mod_multiples_vanish(y, x, w);
    vstd::arithmetic::div_mod::lemma_small_mod(x as nat, w as nat);
    vstd::arithmetic::div_mod::lemma_div_multiples_vanish_fancy(y, x, w);
    assert(w * y == y * w) by (nonlinear_arith);
}

/// Cell `i` lies in the rectangle of size `mw * mh` whose corner is at
/// `(xo, yo)`.
pub open spec fn in_rect(w: int, i: int, xo: int, yo: int, mw: int, mh: int) -> bool {
    &&& xo <= col_of(w, i) < xo + mw
    &&& yo <= row_of(w, i) < yo + mh
}

/// Nothing changed at cell `i`: every attribute buffer holds at `i` what it
/// held in `b0`.
pub open spec fn unchanged_at(b1: Board, b0: Board, i: int) -> bool {
    &&& b1.connex_numbers.r@[i] == b0.connex_numbers.r@[i]
    &&& b1.conductivity.r@[i] == b0.conductivity.r@[i]
    &&& b1.stability.r@[i] == b0.stability.r@[i]
    &&& b1.reactivity.r@[i] == b0.reactivity.r@[i]
    &&& b1.energy.r@[i] == b0.energy.r@[i]
    &&& b1.alpha.r@[i] == b0.alpha.r@[i]
    &&& b1.beta.r@[i] == b0.beta.r@[i]
    &&& b1.gamma.r@[i] == b0.gamma.r@[i]
    &&& b1.delta.r@[i] == b0.delta.r@[i]
    &&& b1.omega.r@[i] == b0.omega.r@[i]
}

/// The boards agree on their frame: dimensions, anchor, aggregate energy,
/// and the write halves of every buffer.
pub open spec fn same_frame(b1: Board, b0: Board) -> bool {
    &&& b1.width == b0.width
    &&& b1.height == b0.height
    &&& b1.pos == b0.pos
    &&& b1.total_energy == b0.total_energy
    &&& b1.connex_numbers.r@.len() == b0.connex_numbers.r@.len()
    &&& b1.conductivity.r@.len() == b0.conductivity.r@.len()
    &&& b1.stability.r@.len() == b0.stability.r@.len()
    &&& b1.reactivity.r@.len() == b0.reactivity.r@.len()
    &&& b1.energy.r@.len() == b0.energy.r@.len()
    &&& b1.alpha.r@.len() == b0.alpha.r@.len()
    &&& b1.beta.r@.len() == b0.beta.r@.len()
    &&& b1.gamma.r@.len() == b0.gamma.r@.len()
    &&& b1.delta.r@.len() == b0.delta.r@.len()
    &&& b1.omega.r@.len() == b0.omega.r@.len()
    &&& b1.connex_numbers.w == b0.connex_numbers.w
    &&& b1.conductivity.w == b0.conductivity.w
    &&& b1.stability.w == b0.stability.w
    &&& b1.reactivity.w == b0.reactivity.w
    &&& b1.energy.w == b0.energy.w
    &&& b1.alpha.w == b0.alpha.w
    &&& b1.beta.w == b0.beta.w
    &&& b1.gamma.w == b0.gamma.w
    &&& b1.delta.w == b0.delta.w
    &&& b1.omega.w == b0.omega.w
    &&& b1.connex_numbers.width == b0.connex_numbers.width
    &&& b1.conductivity.width == b0.conductivity.width
    &&& b1.stability.width == b0.stability.width
    &&& b1.reactivity.width == b0.reactivity.width
    &&& b1.energy.width == b0.energy.width
    &&& b1.alpha.width == b0.alpha.width
    &&& b1.beta.width == b0.beta.width
    &&& b1.gamma.width == b0.gamma.width
    &&& b1.delta.width == b0.delta.width
    &&& b1.omega.width == b0.omega.width
}

/// The `delta` word the fill gives a wall cell: solid plus the two
/// room-boundary markers.
pub open spec fn wall_delta() -> u64 {
    (1u64 << FLAG_SOLID) | (1u64 << FLAG_ROOM_A) | (1u64 << FLAG_ROOM_B)
}

/// The four flags the forge marker sets.
pub open spec fn forge_delta() -> u64 {
    (1u64 << FLAG_FORGE) | (1u64 << FLAG_ROOM_A) | (1u64 << FLAG_FORGE_B) | (1u64 << FLAG_FORGE_A)
}

/// What the region fill writes at cell `i` of the rectangle anchored at
/// `(xo, yo)`: a wall of small random reactivity and connex number 100,
/// either sparsely energized (alpha kept) or inert with an encoded
/// placeholder carrying the cell's diagonal offset.
pub open spec fn filled_at(b: Board, b0: Board, w: int, i: int, xo: int, yo: int) -> bool {
    &&& b.stability.r@[i] == SCALE
    &&& b.connex_numbers.r@[i] == 100
    &&& -102 <= b.reactivity.r@[i] <= 102
    &&& b.delta.r@[i] == wall_delta()
    &&& ((b.energy.r@[i] == 0 && b.alpha.r@[i] == crate::alpha::encode_alpha_spec(
        ((col_of(w, i) - xo) + (row_of(w, i) - yo)) as u64 & 0xFFF,
        0,
        0,
        102400,
        0,
    )) || (102400 <= b.energy.r@[i] < 256000 && b.alpha.r@[i] == b0.alpha.r@[i]))
    &&& b.conductivity.r@[i] == b0.conductivity.r@[i]
    &&& b.beta.r@[i] == b0.beta.r@[i]
    &&& b.gamma.r@[i] == b0.gamma.r@[i]
    &&& b.omega.r@[i] == b0.omega.r@[i]
}

impl Board {
    /// Opens cell `i`: clears its stability, solidity flag, energy and
    /// packed record, touching nothing else.
    pub(crate) fn carve_open(&mut self, i: usize)
        requires
            old(self).wf(),
            i < old(self).cells(),
        ensures
            final (self).wf(),
            same_frame(*final (self), *old(self)),
            final (self).stability.r@ == old(self).stability.r@.update(i as int, 0i64),
            final (self).energy.r@ == old(self).energy.r@.update(i as int, 0i64),
            final (self).alpha.r@ == old(self).alpha.r@.update(
                i as int,
                crate::alpha::encode_alpha_spec(0, 0, 0, 0, 0),
            ),
            final (self).connex_numbers == old(self).connex_numbers,
            final (self).conductivity == old(self).conductivity,
            final (self).reactivity == old(self).reactivity,
            final (self).beta == old(self).beta,
            final (self).gamma == old(self).gamma,
            final (self).omega == old(self).omega,
            final (self).delta.r@.len() == old(self).delta.r@.len(),
            forall|j: int| 0 <= j < old(self).cells() && j != i ==> final (self).delta.r@[j] == old(
                self,
            ).delta.r@[j],
            !crate::bits::spec_bit(final (self).delta.r@[i as int], FLAG_SOLID),
            forall|m: u64|
                m < 64 && m != FLAG_SOLID ==> crate::bits::spec_bit(
                    final (self).delta.r@[i as int],
                    m,
                ) == crate::bits::spec_bit(old(self).delta.r@[i as int], m),
    {
        self.stability.r[i] = 0;
        let mut d = self.delta.r[i];
        set_bit(&mut d, false, FLAG_SOLID);
        self.delta.r[i] = d;
        self.energy.r[i] = 0;
        self.alpha.r[i] = encode_alpha(0, 0, 0, 0, 0);
    }

    /// Fills the rectangle of size `mw * mh` anchored at `(xo, yo)` with
    /// walls: solid stability, small random reactivity, marker flags, a
    /// sparse random energy injection, an encoded placeholder in `alpha`
    /// where no energy was injected, and a fixed connex number.
    pub fn fill_region(
        &mut self,
        rng: &mut rand_chacha::ChaCha8Rng,
        xo: usize,
        yo: usize,
        mw: usize,
        mh: usize,
    )
        requires
            old(self).wf(),
            1 <= mw,
            1 <= mh,
            xo + mw <= old(self).width,
            yo + mh <= old(self).height,
        ensures
            final (self).wf(),
            same_frame(*final (self), *old(self)),
            final (self).conductivity == old(self).conductivity,
            forall|i: int|
                0 <= i < old(self).cells() && in_rect(
                    old(self).width as int,
                    i,
                    xo as int,
                    yo as int,
                    mw as int,
                    mh as int,
                ) ==> filled_at(*final (self), *old(self), old(self).width as int, i, xo as int, yo as int),
            forall|i: int|
                0 <= i < old(self).cells() && !in_rect(
                    old(self).width as int,
                    i,
                    xo as int,
                    yo as int,
                    mw as int,
                    mh as int,
                ) ==> unchanged_at(*final (self), *old(self), i),
    {
        let ghost orig = *old(self);
        let ghost wi = old(self).width as int;
        let width = self.width;
        let mut x = xo;
        while x < xo + mw
            invariant
                orig.wf(),
                width == orig.width,
                wi == orig.width,
                1 <= mw,
                1 <= mh,
                xo <= x <= xo + mw,
                xo + mw <= orig.width,
                yo + mh <= orig.height,
                same_frame(*self, orig),
                self.wf(),
                self.conductivity == orig.conductivity,
                forall|i: int|
                    0 <= i < orig.cells() && in_rect(wi, i, xo as int, yo as int, mw as int, mh as int)
                        && col_of(wi, i) < x ==> filled_at(*self, orig, wi, i, xo as int, yo as int),
                forall|i: int|
                    0 <= i < orig.cells() && (!in_rect(wi, i, xo as int, yo as int, mw as int, mh as int)
                        || col_of(wi, i) >= x) ==> unchanged_at(*self, orig, i),
            decreases xo + mw - x,
        {
            let mut y = yo;
            while y < yo + mh
                invariant
                    orig.wf(),
                    width == orig.width,
                    wi == orig.width,
                    1 <= mw,
                    1 <= mh,
                    xo <= x < xo + mw,
                    yo <= y <= yo + mh,
                    xo + mw <= orig.width,
                    yo + mh <= orig.height,
                    same_frame(*self, orig),
                    self.wf(),
                    self.conductivity == orig.conductivity,
                    forall|i: int|
                        0 <= i < orig.cells() && in_rect(wi, i, xo as int, yo as int, mw as int, mh as int)
                            && (col_of(wi, i) < x || (col_of(wi, i) == x && row_of(wi, i) < y))
                            ==> filled_at(*self, orig, wi, i, xo as int, yo as int),
                    forall|i: int|
                        0 <= i < orig.cells() && (!in_rect(wi, i, xo as int, yo as int, mw as int, mh as int)
                            || col_of(wi, i) > x || (col_of(wi, i) == x && row_of(wi, i) >= y))
                            ==> unchanged_at(*self, orig, i),
                decreases yo + mh - y,
            {
                proof {
                    assert(y * width + x < width * orig.height) by (nonlinear_arith)
                        requires
                            0 <= x < width,
                            0 <= y < orig.height,
                    ;
                    lemma_coords(wi, x as int, y as int);
                }
                let i0 = x + y * width;
                let ghost prev = *self;
                self.stability.r[i0] = SCALE;
                let re = rng_below(rng, 205);
                self.reactivity.r[i0] = re as i64 - 102;
                self.delta.r[i0] = (1u64 << FLAG_SOLID) | (1u64 << FLAG_ROOM_A) | (1u64
                    << FLAG_ROOM_B);
                let roll = rng_below(rng, 100);
                if roll < 5 {
                    let en = rng_below(rng, 153600);
                    self.energy.r[i0] = 102400 + en as i64;
                } else {
                    self.energy.r[i0] = 0;
                    let ex = (x - xo) as u64;
                    let ey = (y - yo) as u64;
                    let id = (ex + ey) & 0xFFF;
                    proof {
                        let s = (ex + ey) as u64;
                        assert(s & 0xFFF < 4096) by (bit_vector);
                    }
                    self.alpha.r[i0] = encode_alpha(id, 0, 0, 102400, 0);
                }
                self.connex_numbers.r[i0] = 100;
                proof {
                    assert forall|i: int|
                        0 <= i < orig.cells() && i != i0 implies unchanged_at(*self, prev, i) by {}
                    assert forall|i: int|
                        0 <= i < orig.cells() && col_of(wi, i) == x && row_of(wi, i) == y
                        implies i == i0 by {
                        vstd::arithmetic::div_mod::lemma_fundamental_div_mod(i, wi);
                        assert(wi * (y as int) == (y as int) * wi) by (nonlinear_arith);
                    }
                    assert(filled_at(*self, orig, wi, i0 as int, xo as int, yo as int));
                    assert forall|i: int|
                        0 <= i < orig.cells() && in_rect(wi, i, xo as int, yo as int, mw as int, mh as int)
                            && (col_of(wi, i) < x || (col_of(wi, i) == x && row_of(wi, i) < y + 1))
                        implies filled_at(*self, orig, wi, i, xo as int, yo as int) by {
                        if i != i0 {
                            assert(filled_at(prev, orig, wi, i, xo as int, yo as int));
                            assert(unchanged_at(*self, prev, i));
                        }
                    }
                    assert forall|i: int|
                        0 <= i < orig.cells() && (!in_rect(wi, i, xo as int, yo as int, mw as int, mh as int)
                            || col_of(wi, i) > x || (col_of(wi, i) == x && row_of(wi, i) >= y + 1))
                        implies unchanged_at(*self, orig, i) by {
                        assert(i != i0);
                        assert(unchanged_at(prev, orig, i));
                        assert(unchanged_at(*self, prev, i));
                    }
                }
                y += 1;
            }
            x += 1;
        }
    }
}

/// Computes the linear index of `(x, y)` and relates it to its coordinates.
pub(crate) fn cell_index(width: usize, height: usize, x: usize, y: usize) -> (i: usize)
    requires
        x < width,
        y < height,
        width * height <= usize::MAX,
    ensures
        i == y * width + x,
        i < width * height,
        col_of(width as int, i as int) == x,
        row_of(width as int, i as int) == y,
{
    proof {
        assert(y * width + x < width * height) by (nonlinear_arith)
            requires
                0 <= x < width,
                0 <= y < height,
        ;
        lemma_coords(width as int, x as int, y as int);
    }
    x + y * width
}

/// A vector of `n` cleared marks.
fn fill_false(n: usize) -> (v: Vec<bool>)
    ensures
        v@.len() == n,
        forall|i: int| 0 <= i < n ==> !(#[trigger] v@[i]),
{
    let mut v: Vec<bool> = Vec::new();
    let mut i: usize = 0;
    while i < n
        invariant
            i <= n,
            v@.len() == i,
            forall|k: int| 0 <= k < i ==> !(#[trigger] v@[k]),
        decreases n - i,
    {
        v.push(false);
        i += 1;
    }
    v
}

/// The state the depth-first carve maintains over the rectangle anchored at
/// `(xo, yo)`: marks and board agree, every mark names an open in-rectangle
/// cell, every open in-rectangle cell is reachable from the start cell,
/// stack entries are marked lattice cells, and nothing outside the
/// rectangle has changed.
pub open spec fn dfs_inv(
    b: Board,
    orig: Board,
    visited: Seq<bool>,
    vset: Set<int>,
    stack: Seq<(usize, usize)>,
    start: int,
    xo: int,
    yo: int,
    mw: int,
    mh: int,
) -> bool {
    let w = orig.width as int;
    &&& orig.wf()
    &&& b.wf()
    &&& same_frame(b, orig)
    &&& 2 <= mw
    &&& 2 <= mh
    &&& xo + mw <= orig.width
    &&& yo + mh <= orig.height
    &&& 0 <= start < orig.cells()
    &&& in_rect(w, start, xo, yo, mw, mh)
    &&& b.stability.r@[start] == 0
    &&& visited.len() == orig.cells()
    &&& forall|i: int| 0 <= i < orig.cells() ==> ((#[trigger] visited[i]) <==> vset.contains(i))
    &&& forall|i: int|
        #[trigger] vset.contains(i) ==> 0 <= i < orig.cells() && in_rect(w, i, xo, yo, mw, mh)
            && b.stability.r@[i] == 0
    &&& vset.finite()
    &&& vset.len() <= orig.cells()
    &&& vset.contains(start)
    &&& forall|i: int|
        0 <= i < orig.cells() && in_rect(w, i, xo, yo, mw, mh) && b.stability.r@[i] == 0
            ==> reachable(b.stability.r@, w, start, i)
    &&& forall|k: int|
        0 <= k < stack.len() ==> xo <= (#[trigger] stack[k]).0 < xo + mw && yo <= stack[k].1 < yo
            + mh && vset.contains(stack[k].1 * w + stack[k].0)
    &&& forall|i: int|
        0 <= i < orig.cells() && !in_rect(w, i, xo, yo, mw, mh) ==> unchanged_at(b, orig, i)
    &&& forall|i: int|
        0 <= i < orig.cells() && in_rect(w, i, xo, yo, mw, mh) ==> b.stability.r@[i] == 0
            || unchanged_at(b, orig, i)
    &&& b.connex_numbers == orig.connex_numbers
    &&& b.conductivity == orig.conductivity
    &&& b.reactivity == orig.reactivity
    &&& b.beta == orig.beta
    &&& b.gamma == orig.gamma
    &&& b.omega == orig.omega
}

/// The lattice neighbors of `(cx, cy)` two cells away in the four cardinal
/// directions that stay inside the rectangle and are not yet visited.
fn lattice_neighbors(
    visited: &Vec<bool>,
    width: usize,
    height: usize,
    cx: usize,
    cy: usize,
    xo: usize,
    yo: usize,
    mw: usize,
    mh: usize,
) -> (cands: Vec<(usize, usize)>)
    requires
        visited@.len() == width * height,
        width <= 0x7fff_ffff,
        height <= 0x7fff_ffff,
        xo + mw <= width,
        yo + mh <= height,
        xo <= cx < xo + mw,
        yo <= cy < yo + mh,
    ensures
        forall|k: int|
            0 <= k < cands@.len() ==> {
                let (nx, ny) = #[trigger] cands@[k];
                &&& xo <= nx < xo + mw
                &&& yo <= ny < yo + mh
                &&& !visited@[ny * (width as int) + nx]
                &&& ((nx == cx && (ny == cy + 2 || ny + 2 == cy)) || (ny == cy && (nx == cx + 2
                    || nx + 2 == cx)))
            },
{
    proof {
        assert(visited.len() == visited@.len());
    }
    let mut cands: Vec<(usize, usize)> = Vec::new();
    if cx + 2 < xo + mw {
        let ni = cell_index(width, height, cx + 2, cy);
        if !visited[ni] {
            cands.push((cx + 2, cy));
        }
    }
    if cx >= xo + 2 {
        let ni = cell_index(width, height, cx - 2, cy);
        if !visited[ni] {
            cands.push((cx - 2, cy));
        }
    }
    if cy + 2 < yo + mh {
        let ni = cell_index(width, height, cx, cy + 2);
        if !visited[ni] {
            cands.push((cx, cy + 2));
        }
    }
    if cy >= yo + 2 {
        let ni = cell_index(width, height, cx, cy - 2);
        if !visited[ni] {
            cands.push((cx, cy - 2));
        }
    }
    cands
}

impl Board {
    /// One step of the depth-first carve: pops a lattice cell, and if it
    /// has an unvisited lattice neighbor two cells away, picks one at
    /// random, marks it, pushes both cells back, and opens the neighbor and
    /// the wall cell between them.
    #[verifier::rlimit(100)]
    fn dfs_step(
        &mut self,
        rng: &mut rand_chacha::ChaCha8Rng,
        visited: &mut Vec<bool>,
        stack: &mut Vec<(usize, usize)>,
        start: usize,
        xo: usize,
        yo: usize,
        mw: usize,
        mh: usize,
        Ghost(orig): Ghost<Board>,
        Ghost(vset): Ghost<Set<int>>,
    ) -> (newset: Ghost<Set<int>>)
        requires
            dfs_inv(
                *old(self),
                orig,
                old(visited)@,
                vset,
                old(stack)@,
                start as int,
                xo as int,
                yo as int,
                mw as int,
                mh as int,
            ),
            old(stack)@.len() > 0,
        ensures
            dfs_inv(
                *final (self),
                orig,
                final (visited)@,
                newset@,
                final (stack)@,
                start as int,
                xo as int,
                yo as int,
                mw as int,
                mh as int,
            ),
            vset.len() <= newset@.len(),
            newset@.len() > vset.len() || (newset@ == vset && final (stack)@.len() < old(
                stack,
            )@.len()),
    {
        let ghost wi = orig.width as int;
        let width = self.width;
        let height = self.height;
        let ghost mut cur_set = vset;
        proof {
            assert(self.stability.r.len() == self.stability.r@.len());
            assert((width * height) as int == orig.cells());
        }
        let popped = stack.pop();
        let (cx, cy) = match popped {
            Some(p) => p,
            None => {
                proof {
                    assert(false);
                }
                (0, 0)
            },
        };
        let cands = lattice_neighbors(visited, width, height, cx, cy, xo, yo, mw, mh);
        if cands.len() > 0 {
            let k = rng_below(rng, cands.len() as u64) as usize;
            let (nx, ny) = cands[k];
            let g = self.dfs_carve_one(
                visited,
                stack,
                start,
                cx,
                cy,
                nx,
                ny,
                xo,
                yo,
                mw,
                mh,
                Ghost(orig),
                Ghost(cur_set),
            );
            proof {
                cur_set = g@;
            }
        }
        Ghost(cur_set)
    }

    /// Marks the unvisited lattice neighbor `(nx, ny)` of `(cx, cy)`,
    /// pushes both onto the stack, and opens the neighbor together with the
    /// wall cell between the two.
    #[verifier::rlimit(100)]
    fn dfs_carve_one(
        &mut self,
        visited: &mut Vec<bool>,
        stack: &mut Vec<(usize, usize)>,
        start: usize,
        cx: usize,
        cy: usize,
        nx: usize,
        ny: usize,
        xo: usize,
        yo: usize,
        mw: usize,
        mh: usize,
        Ghost(orig): Ghost<Board>,
        Ghost(vset): Ghost<Set<int>>,
    ) -> (newset: Ghost<Set<int>>)
        requires
            dfs_inv(
                *old(self),
                orig,
                old(visited)@,
                vset,
                old(stack)@,
                start as int,
                xo as int,
                yo as int,
                mw as int,
                mh as int,
            ),
            xo <= cx < xo + mw,
            yo <= cy < yo + mh,
            xo <= nx < xo + mw,
            yo <= ny < yo + mh,
            vset.contains(cy * (orig.width as int) + cx),
            !old(visited)@[ny * (orig.width as int) + nx],
            (nx == cx && (ny == cy + 2 || ny + 2 == cy)) || (ny == cy && (nx == cx + 2 || nx + 2
                == cx)),
        ensures
            dfs_inv(
                *final (self),
                orig,
                final (visited)@,
                newset@,
                final (stack)@,
                start as int,
                xo as int,
                yo as int,
                mw as int,
                mh as int,
            ),
            newset@.len() == vset.len() + 1,
    {
        let ghost wi = orig.width as int;
        let width = self.width;
        let height = self.height;
        let ghost mut cur_set = vset;
        proof {
            assert(self.stability.r.len() == self.stability.r@.len());
            assert((width * height) as int == orig.cells());
        }
        let ni = cell_index(width, height, nx, ny);
        let wx = if nx > cx {
            cx + 1
        } else if nx < cx {
            cx - 1
        } else {
            cx
        };
        let wy = if ny > cy {
            cy + 1
        } else if ny < cy {
            cy - 1
        } else {
            cy
        };
        let mi = cell_index(width, height, wx, wy);
        let ci = cell_index(width, height, cx, cy);
        visited[ni] = true;
        proof {
            cur_set = cur_set.insert(ni as int);
            lemma_cell_set_bound(cur_set, orig.cells());
        }
        stack.push((cx, cy));
        stack.push((nx, ny));
        let ghost prev = *self;
        let ghost s_before = self.stability.r@;
        self.carve_open(mi);
        self.carve_open(ni);
        proof {
            let s_after = self.stability.r@;
            assert(forall|j: int|
                0 <= j < s_before.len() && s_before[j] == 0 ==> s_after[j] == 0);
            assert(adjacent(wi, ci as int, mi as int));
            assert(adjacent(wi, mi as int, ni as int));
            assert(reachable(s_before, wi, start as int, ci as int));
            lemma_reach_mono(s_before, s_after, wi, start as int, ci as int);
            lemma_reach_extend(s_after, wi, start as int, ci as int, mi as int);
            lemma_reach_extend(s_after, wi, start as int, mi as int, ni as int);
            assert forall|i: int|
                0 <= i < orig.cells() && in_rect(wi, i, xo as int, yo as int, mw as int, mh as int)
                    && s_after[i] == 0 implies reachable(s_after, wi, start as int, i) by {
                if i == mi || i == ni {
                } else {
                    assert(s_before[i] == 0);
                    lemma_reach_mono(s_before, s_after, wi, start as int, i);
                }
            }
            assert forall|i: int|
                0 <= i < orig.cells() && i != mi && i != ni implies unchanged_at(
                *self,
                prev,
                i,
            ) by {}
            assert forall|i: int|
                0 <= i < orig.cells() && !in_rect(wi, i, xo as int, yo as int, mw as int, mh as int)
                implies unchanged_at(*self, orig, i) by {
                assert(unchanged_at(prev, orig, i));
            }
            assert forall|i: int|
                0 <= i < orig.cells() && in_rect(wi, i, xo as int, yo as int, mw as int, mh as int)
                implies self.stability.r@[i] == 0 || unchanged_at(*self, orig, i) by {
                if i != mi && i != ni && s_after[i] != 0 {
                    assert(s_before[i] != 0);
                    assert(unchanged_at(prev, orig, i));
                    assert(unchanged_at(*self, prev, i));
                }
            }
        }
        Ghost(cur_set)
    }

    /// Carves passages through the all-wall rectangle anchored at
    /// `(xo, yo)` by randomized depth-first search over the coarse lattice
    /// of step 2, opening each visited lattice node and the wall cell
    /// between it and its predecessor.  Returns the start cell of the
    /// carve.
    ///
    /// The carve is a spanning walk: afterwards every open cell of the
    /// rectangle — in particular every cell the carve visited — is
    /// reachable from the start cell through open cells, so no carved cell
    /// is isolated.
    pub fn carve_passages(
        &mut self,
        rng: &mut rand_chacha::ChaCha8Rng,
        xo: usize,
        yo: usize,
        mw: usize,
        mh: usize,
    ) -> (start: usize)
        requires
            old(self).wf(),
            2 <= mw,
            2 <= mh,
            xo + mw <= old(self).width,
            yo + mh <= old(self).height,
            forall|i: int|
                0 <= i < old(self).cells() && in_rect(
                    old(self).width as int,
                    i,
                    xo as int,
                    yo as int,
                    mw as int,
                    mh as int,
                ) ==> old(self).stability.r@[i] != 0,
        ensures
            final (self).wf(),
            same_frame(*final (self), *old(self)),
            start < old(self).cells(),
            in_rect(old(self).width as int, start as int, xo as int, yo as int, mw as int, mh as int),
            final (self).stability.r@[start as int] == 0,
            forall|i: int|
                0 <= i < old(self).cells() && !in_rect(
                    old(self).width as int,
                    i,
                    xo as int,
                    yo as int,
                    mw as int,
                    mh as int,
                ) ==> unchanged_at(*final (self), *old(self), i),
            forall|i: int|
                0 <= i < old(self).cells() && in_rect(
                    old(self).width as int,
                    i,
                    xo as int,
                    yo as int,
                    mw as int,
                    mh as int,
                ) ==> final (self).stability.r@[i] == 0 || unchanged_at(*final (self), *old(self), i),
            forall|i: int|
                0 <= i < old(self).cells() && in_rect(
                    old(self).width as int,
                    i,
                    xo as int,
                    yo as int,
                    mw as int,
                    mh as int,
                ) && final (self).stability.r@[i] == 0 ==> reachable(
                    final (self).stability.r@,
                    old(self).width as int,
                    start as int,
                    i,
                ),
            final (self).connex_numbers == old(self).connex_numbers,
            final (self).conductivity == old(self).conductivity,
            final (self).reactivity == old(self).reactivity,
            final (self).beta == old(self).beta,
            final (self).gamma == old(self).gamma,
            final (self).omega == old(self).omega,
    {
        let ghost orig = *old(self);
        let ghost wi = old(self).width as int;
        let width = self.width;
        let height = self.height;
        proof {
            assert(self.stability.r.len() == self.stability.r@.len());
        }
        let sx = xo + (rng_below(rng, (mw / 2) as u64) as usize) * 2;
        let sy = yo + (rng_below(rng, (mh / 2) as u64) as usize) * 2;
        proof {
            assert(sx < xo + mw && sy < yo + mh);
        }
        let start = cell_index(width, height, sx, sy);
        self.carve_open(start);
        let len = self.stability.r.len();
        let mut visited = fill_false(len);
        visited[start] = true;
        let ghost mut vset: Set<int> = Set::empty().insert(start as int);
        let mut stack: Vec<(usize, usize)> = Vec::new();
        stack.push((sx, sy));
        proof {
            lemma_reach_self(self.stability.r@, wi, start as int);
            lemma_cell_set_bound(vset, orig.cells());
            assert(dfs_inv(
                *self,
                orig,
                visited@,
                vset,
                stack@,
                start as int,
                xo as int,
                yo as int,
                mw as int,
                mh as int,
            ));
        }
        while stack.len() > 0
            invariant
                dfs_inv(
                    *self,
                    orig,
                    visited@,
                    vset,
                    stack@,
                    start as int,
                    xo as int,
                    yo as int,
                    mw as int,
                    mh as int,
                ),
            decreases orig.cells() - vset.len(), stack@.len(),
        {
            let g = self.dfs_step(
                rng,
                &mut visited,
                &mut stack,
                start,
                xo,
                yo,
                mw,
                mh,
                Ghost(orig),
                Ghost(vset),
            );
            proof {
                vset = g@;
            }
        }
        start
    }
}


/// Cell `i` lies in the 13 x 7 block (room plus its one-cell border) around
/// the room center `(cx, cy)`; the room proper is 11 x 5.
pub open spec fn in_room(w: int, i: int, cx: int, cy: int) -> bool {
    &&& cx - 6 <= col_of(w, i) <= cx + 6
    &&& cy - 3 <= row_of(w, i) <= cy + 3
}

/// Cell `i` is on the border ring of the room block around `(cx, cy)`.
pub open spec fn room_border(w: int, i: int, cx: int, cy: int) -> bool {
    &&& in_room(w, i, cx, cy)
    &&& (col_of(w, i) == cx - 6 || col_of(w, i) == cx + 6 || row_of(w, i) == cy - 3 || row_of(
        w,
        i,
    ) == cy + 3)
}

/// What the room carve leaves at cell `i`: border cells become solid walls
/// (their other flags and attributes kept); interior cells are fully
/// cleared.
pub open spec fn room_cell_done(b: Board, b0: Board, w: int, i: int, cx: int, cy: int) -> bool {
    &&& b.conductivity.r@[i] == b0.conductivity.r@[i]
    &&& b.reactivity.r@[i] == b0.reactivity.r@[i]
    &&& b.beta.r@[i] == b0.beta.r@[i]
    &&& b.gamma.r@[i] == b0.gamma.r@[i]
    &&& b.omega.r@[i] == b0.omega.r@[i]
    &&& if room_border(w, i, cx, cy) {
        &&& b.stability.r@[i] == SCALE
        &&& crate::bits::spec_bit(b.delta.r@[i], FLAG_SOLID)
        &&& forall|m: u64|
            m < 64 && m != FLAG_SOLID ==> crate::bits::spec_bit(b.delta.r@[i], m)
                == crate::bits::spec_bit(b0.delta.r@[i], m)
        &&& b.connex_numbers.r@[i] == b0.connex_numbers.r@[i]
        &&& b.energy.r@[i] == b0.energy.r@[i]
        &&& b.alpha.r@[i] == b0.alpha.r@[i]
    } else {
        &&& b.stability.r@[i] == 0
        &&& b.connex_numbers.r@[i] == 0
        &&& b.energy.r@[i] == 0
        &&& b.delta.r@[i] == 0
        &&& b.alpha.r@[i] == crate::alpha::encode_alpha_spec(0, 0, 0, 0, 0)
    }
}

impl Board {
    /// Carves the fixed-size room centered at `(cx, cy)`: the border ring
    /// becomes solid walls, the interior is cleared entirely.
    pub fn carve_room(&mut self, cx: usize, cy: usize)
        requires
            old(self).wf(),
            6 <= cx,
            cx + 6 < old(self).width,
            3 <= cy,
            cy + 3 < old(self).height,
        ensures
            final (self).wf(),
            same_frame(*final (self), *old(self)),
            final (self).conductivity == old(self).conductivity,
            forall|i: int|
                0 <= i < old(self).cells() && in_room(old(self).width as int, i, cx as int, cy as int)
                    ==> room_cell_done(*final (self), *old(self), old(self).width as int, i, cx as int, cy as int),
            forall|i: int|
                0 <= i < old(self).cells() && !in_room(old(self).width as int, i, cx as int, cy as int)
                    ==> unchanged_at(*final (self), *old(self), i),
    {
        let ghost orig = *old(self);
        let ghost wi = old(self).width as int;
        let width = self.width;
        let height = self.height;
        proof {
            assert(self.stability.r.len() == self.stability.r@.len());
        }
        let mut x = cx - 6;
        while x < cx + 7
            invariant
                orig.wf(),
                self.wf(),
                same_frame(*self, orig),
                self.conductivity == orig.conductivity,
                width == orig.width,
                height == orig.height,
                wi == orig.width,
                6 <= cx,
                cx + 6 < width,
                3 <= cy,
                cy + 3 < height,
                cx - 6 <= x <= cx + 7,
                forall|i: int|
                    0 <= i < orig.cells() && in_room(wi, i, cx as int, cy as int) && col_of(wi, i)
                        < x ==> room_cell_done(*self, orig, wi, i, cx as int, cy as int),
                forall|i: int|
                    0 <= i < orig.cells() && (!in_room(wi, i, cx as int, cy as int) || col_of(wi, i)
                        >= x) ==> unchanged_at(*self, orig, i),
            decreases cx + 7 - x,
        {
            let mut y = cy - 3;
            while y < cy + 4
                invariant
                    orig.wf(),
                    self.wf(),
                    same_frame(*self, orig),
                    self.conductivity == orig.conductivity,
                    width == orig.width,
                    height == orig.height,
                    wi == orig.width,
                    6 <= cx,
                    cx + 6 < width,
                    3 <= cy,
                    cy + 3 < height,
                    cx - 6 <= x < cx + 7,
                    cy - 3 <= y <= cy + 4,
                    forall|i: int|
                        0 <= i < orig.cells() && in_room(wi, i, cx as int, cy as int) && (col_of(wi, i)
                            < x || (col_of(wi, i) == x && row_of(wi, i) < y)) ==> room_cell_done(
                            *self,
                            orig,
                            wi,
                            i,
                            cx as int,
                            cy as int,
                        ),
                    forall|i: int|
                        0 <= i < orig.cells() && (!in_room(wi, i, cx as int, cy as int) || col_of(wi, i)
                            > x || (col_of(wi, i) == x && row_of(wi, i) >= y)) ==> unchanged_at(
                            *self,
                            orig,
                            i,
                        ),
                decreases cy + 4 - y,
            {
                let i0 = cell_index(width, height, x, y);
                let ghost prev = *self;
                if x == cx - 6 || x == cx + 6 || y == cy - 3 || y == cy + 3 {
                    self.stability.r[i0] = SCALE;
                    let mut d = self.delta.r[i0];
                    set_bit(&mut d, true, FLAG_SOLID);
                    self.delta.r[i0] = d;
                } else {
                    self.stability.r[i0] = 0;
                    self.connex_numbers.r[i0] = 0;
                    self.energy.r[i0] = 0;
                    self.delta.r[i0] = 0;
                    self.alpha.r[i0] = encode_alpha(0, 0, 0, 0, 0);
                }
                proof {
                    assert forall|i: int|
                        0 <= i < orig.cells() && i != i0 implies unchanged_at(*self, prev, i) by {}
                    assert forall|i: int|
                        0 <= i < orig.cells() && col_of(wi, i) == x && row_of(wi, i) == y
                        implies i == i0 by {
                        vstd::arithmetic::div_mod::lemma_fundamental_div_mod(i, wi);
                        assert(wi * (y as int) == (y as int) * wi) by (nonlinear_arith);
                    }
                    assert(room_cell_done(*self, orig, wi, i0 as int, cx as int, cy as int));
                    assert forall|i: int|
                        0 <= i < orig.cells() && in_room(wi, i, cx as int, cy as int) && (col_of(wi, i)
                            < x || (col_of(wi, i) == x && row_of(wi, i) < y + 1))
                        implies room_cell_done(*self, orig, wi, i, cx as int, cy as int) by {
                        if i != i0 {
                            assert(room_cell_done(prev, orig, wi, i, cx as int, cy as int));
                            assert(unchanged_at(*self, prev, i));
                        }
                    }
                    assert forall|i: int|
                        0 <= i < orig.cells() && (!in_room(wi, i, cx as int, cy as int) || col_of(wi, i)
                            > x || (col_of(wi, i) == x && row_of(wi, i) >= y + 1))
                        implies unchanged_at(*self, orig, i) by {
                        assert(i != i0);
                        assert(unchanged_at(prev, orig, i));
                        assert(unchanged_at(*self, prev, i));
                    }
                }
                y += 1;
            }
            x += 1;
        }
    }

    /// Marks the cell at `(cx, cy)` as the forge: open, full reactivity, the
    /// highest connex number, and the four forge flags set.
    pub fn place_forge(&mut self, cx: usize, cy: usize)
        requires
            old(self).wf(),
            cx < old(self).width,
            cy < old(self).height,
        ensures
            final (self).wf(),
            same_frame(*final (self), *old(self)),
            final (self).conductivity == old(self).conductivity,
            final (self).beta == old(self).beta,
            final (self).gamma == old(self).gamma,
            final (self).omega == old(self).omega,
            forall|i: int|
                0 <= i < old(self).cells() && i != (cy * old(self).width + cx) ==> unchanged_at(
                    *final (self),
                    *old(self),
                    i,
                ),
            ({
                let i = (cy * old(self).width + cx) as int;
                &&& final (self).stability.r@[i] == 0
                &&& final (self).reactivity.r@[i] == SCALE
                &&& final (self).connex_numbers.r@[i] == 200
                &&& final (self).delta.r@[i] == old(self).delta.r@[i] | forge_delta()
                &&& crate::bits::spec_bit(final (self).delta.r@[i], FLAG_FORGE)
                &&& crate::bits::spec_bit(final (self).delta.r@[i], FLAG_ROOM_A)
                &&& crate::bits::spec_bit(final (self).delta.r@[i], FLAG_FORGE_B)
                &&& crate::bits::spec_bit(final (self).delta.r@[i], FLAG_FORGE_A)
                &&& forall|m: u64|
                    m < 64 && m != FLAG_FORGE && m != FLAG_ROOM_A && m != FLAG_FORGE_B && m
                        != FLAG_FORGE_A ==> crate::bits::spec_bit(final (self).delta.r@[i], m)
                        == crate::bits::spec_bit(old(self).delta.r@[i], m)
                &&& final (self).energy.r@[i] == old(self).energy.r@[i]
                &&& final (self).alpha.r@[i] == old(self).alpha.r@[i]
            }),
    {
        proof {
            assert(self.stability.r.len() == self.stability.r@.len());
        }
        let i0 = cell_index(self.width, self.height, cx, cy);
        self.stability.r[i0] = 0;
        self.reactivity.r[i0] = SCALE;
        self.connex_numbers.r[i0] = 200;
        let d = self.delta.r[i0];
        let marked = d | ((1u64 << FLAG_FORGE) | (1u64 << FLAG_ROOM_A) | (1u64 << FLAG_FORGE_B) | (
        1u64 << FLAG_FORGE_A));
        proof {
            let mask = (1u64 << FLAG_FORGE) | (1u64 << FLAG_ROOM_A) | (1u64 << FLAG_FORGE_B) | (
            1u64 << FLAG_FORGE_A);
            assert(crate::bits::spec_bit(d | mask, FLAG_FORGE) && crate::bits::spec_bit(
                d | mask,
                FLAG_ROOM_A,
            ) && crate::bits::spec_bit(d | mask, FLAG_FORGE_B) && crate::bits::spec_bit(
                d | mask,
                FLAG_FORGE_A,
            ) && forall|m: u64|
                m < 64 && m != FLAG_FORGE && m != FLAG_ROOM_A && m != FLAG_FORGE_B && m
                    != FLAG_FORGE_A ==> (#[trigger] crate::bits::spec_bit(d | mask, m))
                    == crate::bits::spec_bit(d, m)) by (bit_vector)
                requires
                    mask == (1u64 << FLAG_FORGE) | (1u64 << FLAG_ROOM_A) | (1u64 << FLAG_FORGE_B)
                        | (1u64 << FLAG_FORGE_A),
            ;
        }
        self.delta.r[i0] = marked;
    }
}


/// What opening a door at cell `d` does: stability cleared and the solidity
/// flag dropped there, everything else untouched.
pub open spec fn door_opened(b1: Board, b0: Board, d: int) -> bool {
    &&& b1.stability.r@ == b0.stability.r@.update(d, 0i64)
    &&& b1.delta.r@.len() == b0.delta.r@.len()
    &&& forall|j: int| 0 <= j < b0.delta.r@.len() && j != d ==> b1.delta.r@[j] == b0.delta.r@[j]
    &&& !crate::bits::spec_bit(b1.delta.r@[d], FLAG_SOLID)
    &&& forall|m: u64|
        m < 64 && m != FLAG_SOLID ==> crate::bits::spec_bit(b1.delta.r@[d], m)
            == crate::bits::spec_bit(b0.delta.r@[d], m)
    &&& b1.connex_numbers == b0.connex_numbers
    &&& b1.conductivity == b0.conductivity
    &&& b1.reactivity == b0.reactivity
    &&& b1.energy == b0.energy
    &&& b1.alpha == b0.alpha
    &&& b1.beta == b0.beta
    &&& b1.gamma == b0.gamma
    &&& b1.omega == b0.omega
}

/// What one door-selection step did: with no candidates, nothing; otherwise
/// some candidate was recorded as an outside door and opened.
pub open spec fn select_step(
    b1: Board,
    b0: Board,
    cands: Seq<usize>,
    od1: Seq<usize>,
    od0: Seq<usize>,
) -> bool {
    &&& (cands.len() == 0 ==> b1 == b0 && od1 == od0)
    &&& (cands.len() > 0 ==> exists|k: int|
        #![trigger cands[k]]
        0 <= k < cands.len() && od1 == od0.push(cands[k]) && door_opened(b1, b0, cands[k] as int))
}

/// A door-selection step never walls an open cell, and every cell it
/// changes it opens.
pub proof fn lemma_select_step_monotone(
    b1: Board,
    b0: Board,
    cands: Seq<usize>,
    od1: Seq<usize>,
    od0: Seq<usize>,
)
    requires
        b0.wf(),
        select_step(b1, b0, cands, od1, od0),
        forall|k: int| 0 <= k < cands.len() ==> #[trigger] cands[k] < b0.cells(),
    ensures
        forall|i: int|
            0 <= i < b0.cells() && b0.stability.r@[i] == 0 ==> b1.stability.r@[i] == 0,
        forall|i: int|
            0 <= i < b0.cells() && b1.stability.r@[i] != 0 ==> #[trigger] unchanged_at(b1, b0, i),
{
    if cands.len() > 0 {
        let k = choose|k: int|
            #![trigger cands[k]]
            0 <= k < cands.len() && od1 == od0.push(cands[k]) && door_opened(b1, b0, cands[k] as int);
        let d = cands[k] as int;
        assert(b1.stability.r@ == b0.stability.r@.update(d, 0i64));
        assert forall|i: int|
            0 <= i < b0.cells() && b0.stability.r@[i] == 0 implies b1.stability.r@[i] == 0 by {
            assert(b1.stability.r@[i] == b0.stability.r@.update(d, 0i64)[i]);
        }
        assert forall|i: int|
            0 <= i < b0.cells() && b1.stability.r@[i] != 0 implies #[trigger] unchanged_at(
            b1,
            b0,
            i,
        ) by {
            assert(b1.stability.r@[i] == b0.stability.r@.update(d, 0i64)[i]);
            assert(i != d);
            assert(b1.delta.r@[i] == b0.delta.r@[i]);
        }
    }
}

/// A cell that is none of the step's candidates is untouched by it.
pub proof fn lemma_select_step_preserves_cell(
    b1: Board,
    b0: Board,
    cands: Seq<usize>,
    od1: Seq<usize>,
    od0: Seq<usize>,
    i: int,
)
    requires
        b0.wf(),
        select_step(b1, b0, cands, od1, od0),
        0 <= i < b0.cells(),
        forall|k: int| 0 <= k < cands.len() ==> #[trigger] cands[k] < b0.cells(),
        forall|k: int| 0 <= k < cands.len() ==> cands[k] as int != i,
    ensures
        unchanged_at(b1, b0, i),
{
    if cands.len() > 0 {
        let k = choose|k: int|
            #![trigger cands[k]]
            0 <= k < cands.len() && od1 == od0.push(cands[k]) && door_opened(b1, b0, cands[k] as int);
        let d = cands[k] as int;
        assert(d != i);
        assert(b1.stability.r@[i] == b0.stability.r@.update(d, 0i64)[i]);
        assert(b1.delta.r@[i] == b0.delta.r@[i]);
    }
}

impl Board {
    /// Door candidates along a horizontal run: the cells `(x, y)` for `x`
    /// in `[x_from, x_to)` whose neighbor cell `(x, ny)` is open.
    pub fn collect_h_edge(&self, y: usize, x_from: usize, x_to: usize, ny: usize) -> (cands: Vec<
        usize,
    >)
        requires
            self.wf(),
            y < self.height,
            ny < self.height,
            x_from <= x_to,
            x_to <= self.width,
        ensures
            forall|k: int|
                0 <= k < cands@.len() ==> {
                    let d = #[trigger] cands@[k];
                    &&& 0 <= d < self.cells()
                    &&& row_of(self.width as int, d as int) == y
                    &&& x_from <= col_of(self.width as int, d as int) < x_to
                    &&& self.stability.r@[col_of(self.width as int, d as int) + (ny as int) * self.width]
                        == 0
                },
    {
        let ghost wi = self.width as int;
        proof {
            assert(self.stability.r.len() == self.stability.r@.len());
        }
        let mut cands: Vec<usize> = Vec::new();
        let mut x = x_from;
        while x < x_to
            invariant
                self.wf(),
                wi == self.width,
                y < self.height,
                ny < self.height,
                x_from <= x <= x_to,
                x_to <= self.width,
                forall|k: int|
                    0 <= k < cands@.len() ==> {
                        let d = #[trigger] cands@[k];
                        &&& 0 <= d < self.cells()
                        &&& row_of(wi, d as int) == y
                        &&& x_from <= col_of(wi, d as int) < x
                        &&& self.stability.r@[col_of(wi, d as int) + (ny as int) * wi] == 0
                    },
            decreases x_to - x,
        {
            let nb = cell_index(self.width, self.height, x, ny);
            if self.stability.r[nb] == 0 {
                let d = cell_index(self.width, self.height, x, y);
                cands.push(d);
            }
            x += 1;
        }
        cands
    }

    /// Door candidates along a vertical run: the cells `(x, y)` for `y` in
    /// `[y_from, y_to)` whose neighbor cell `(nx, y)` is open.
    pub fn collect_v_edge(&self, x: usize, y_from: usize, y_to: usize, nx: usize) -> (cands: Vec<
        usize,
    >)
        requires
            self.wf(),
            x < self.width,
            nx < self.width,
            y_from <= y_to,
            y_to <= self.height,
        ensures
            forall|k: int|
                0 <= k < cands@.len() ==> {
                    let d = #[trigger] cands@[k];
                    &&& 0 <= d < self.cells()
                    &&& col_of(self.width as int, d as int) == x
                    &&& y_from <= row_of(self.width as int, d as int) < y_to
                    &&& self.stability.r@[(nx as int) + row_of(self.width as int, d as int)
                        * self.width] == 0
                },
    {
        let ghost wi = self.width as int;
        proof {
            assert(self.stability.r.len() == self.stability.r@.len());
        }
        let mut cands: Vec<usize> = Vec::new();
        let mut y = y_from;
        while y < y_to
            invariant
                self.wf(),
                wi == self.width,
                x < self.width,
                nx < self.width,
                y_from <= y <= y_to,
                y_to <= self.height,
                forall|k: int|
                    0 <= k < cands@.len() ==> {
                        let d = #[trigger] cands@[k];
                        &&& 0 <= d < self.cells()
                        &&& col_of(wi, d as int) == x
                        &&& y_from <= row_of(wi, d as int) < y
                        &&& self.stability.r@[(nx as int) + row_of(wi, d as int) * wi] == 0
                    },
            decreases y_to - y,
        {
            let nb = cell_index(self.width, self.height, nx, y);
            if self.stability.r[nb] == 0 {
                let d = cell_index(self.width, self.height, x, y);
                cands.push(d);
            }
            y += 1;
        }
        cands
    }

    /// Picks one candidate at random, opens it, and records it as an
    /// outside door.  With no candidates nothing happens: the edge simply
    /// gets no door.
    pub fn select_door(
        &mut self,
        rng: &mut rand_chacha::ChaCha8Rng,
        potential_doors: &Vec<usize>,
        outside_doors: &mut Vec<usize>,
    )
        requires
            old(self).wf(),
            forall|k: int|
                0 <= k < potential_doors@.len() ==> 0 <= #[trigger] potential_doors@[k] < old(
                    self,
                ).cells(),
        ensures
            final (self).wf(),
            same_frame(*final (self), *old(self)),
            final (self).conductivity == old(self).conductivity,
            potential_doors@.len() == 0 ==> *final (self) == *old(self) && final (outside_doors)@
                == old(outside_doors)@,
            potential_doors@.len() > 0 ==> exists|k: int|
                0 <= k < potential_doors@.len() && final (outside_doors)@ == old(
                    outside_doors,
                )@.push(#[trigger] potential_doors@[k]) && door_opened(
                    *final (self),
                    *old(self),
                    potential_doors@[k] as int,
                ),
    {
        if potential_doors.len() > 0 {
            let k = rng_below(rng, potential_doors.len() as u64) as usize;
            let d = potential_doors[k];
            outside_doors.push(d);
            self.stability.r[d] = 0;
            let mut w = self.delta.r[d];
            set_bit(&mut w, false, FLAG_SOLID);
            self.delta.r[d] = w;
            proof {
                assert(door_opened(*self, *old(self), potential_doors@[k as int] as int));
            }
        }
    }
}


/// The door cell `d` is connected to `from`: either it is `from` itself, or
/// an open neighbor of `from` reaches `d` through open cells.  (`from`
/// itself may still be solid: a candidate door is tested before it is
/// opened.)
pub open spec fn door_connected(s: Seq<i64>, w: int, from: int, d: int) -> bool {
    ||| d == from
    ||| exists|n: int|
        0 <= n < s.len() && #[trigger] adjacent(w, from, n) && s[n] == 0 && reachable(s, w, n, d)
}

/// A cell adjacent to `a` is one of its four cardinal neighbors, with the
/// coordinates to match.
pub proof fn lemma_adjacent_cases(w: int, h: int, a: int, q: int)
    requires
        0 < w,
        0 <= a < w * h,
        0 <= q < w * h,
        adjacent(w, a, q),
    ensures
        a == row_of(w, a) * w + col_of(w, a),
        q == row_of(w, q) * w + col_of(w, q),
        (col_of(w, q) == col_of(w, a) + 1 && row_of(w, q) == row_of(w, a)) || (col_of(w, q) + 1
            == col_of(w, a) && row_of(w, q) == row_of(w, a)) || (col_of(w, q) == col_of(w, a)
            && row_of(w, q) == row_of(w, a) + 1) || (col_of(w, q) == col_of(w, a) && row_of(w, q)
            + 1 == row_of(w, a)),
{
    vstd::arithmetic::div_mod::lemma_fundamental_div_mod(a, w);
    vstd::arithmetic::div_mod::lemma_fundamental_div_mod(q, w);
    assert(w * (a / w) == (a / w) * w) by (nonlinear_arith);
    assert(w * (q / w) == (q / w) * w) by (nonlinear_arith);
}

/// A walk over open cells that starts inside a set closed under stepping to
/// open neighbors ends inside it too.
pub proof fn lemma_path_stays_in_closed(s: Seq<i64>, w: int, vs: Set<int>, p: Seq<int>)
    requires
        is_path(s, w, p),
        vs.contains(p.first()),
        forall|a: int, q: int|
            vs.contains(a) && 0 <= q < s.len() && #[trigger] adjacent(w, a, q) && s[q] == 0
                ==> vs.contains(q),
    ensures
        vs.contains(p.last()),
    decreases p.len(),
{
    if p.len() > 1 {
        assert(adjacent(w, p[0], p[1]));
        assert(vs.contains(p[1]));
        let p2 = p.subrange(1, p.len() as int);
        assert(p2.first() == p[1]);
        assert forall|k: int| 0 <= k < p2.len() - 1 implies adjacent(w, #[trigger] p2[k], p2[k + 1]) by {
            assert(p2[k] == p[k + 1] && p2[k + 1] == p[k + 2]);
        }
        assert(is_path(s, w, p2));
        lemma_path_stays_in_closed(s, w, vs, p2);
        assert(p2.last() == p.last());
    }
}

/// `v` holds `x`.
fn vec_contains(v: &Vec<usize>, x: usize) -> (r: bool)
    ensures
        r <==> exists|k: int| 0 <= k < v@.len() && v@[k] == x,
{
    let mut i: usize = 0;
    while i < v.len()
        invariant
            i <= v@.len(),
            forall|k: int| 0 <= k < i ==> v@[k] != x,
        decreases v@.len() - i,
    {
        if v[i] == x {
            return true;
        }
        i += 1;
    }
    false
}

/// The state of the breadth-first search from `start`: every marked cell is
/// door-connected to `start`, the queue holds marked cells, and processed
/// queue entries come before `head`.
pub open spec fn bfs_inv(
    b: Board,
    visited: Seq<bool>,
    vset: Set<int>,
    queue: Seq<usize>,
    head: int,
    start: int,
) -> bool {
    let w = b.width as int;
    &&& b.wf()
    &&& 0 <= start < b.cells()
    &&& visited.len() == b.cells()
    &&& forall|i: int| 0 <= i < b.cells() ==> ((#[trigger] visited[i]) <==> vset.contains(i))
    &&& forall|i: int|
        #[trigger] vset.contains(i) ==> 0 <= i < b.cells() && door_connected(
            b.stability.r@,
            w,
            start,
            i,
        ) && (i == start || b.stability.r@[i] == 0)
    &&& vset.finite()
    &&& vset.len() <= b.cells()
    &&& vset.contains(start)
    &&& 0 <= head <= queue.len()
    &&& forall|k: int| 0 <= k < queue.len() ==> vset.contains(#[trigger] queue[k] as int)
}

impl Board {
    /// One expansion step of the breadth-first search: marks and enqueues
    /// the open unvisited neighbor `(nx, ny)` of the processed cell `cur`.
    #[verifier::rlimit(60)]
    fn bfs_visit(
        &self,
        visited: &mut Vec<bool>,
        queue: &mut Vec<usize>,
        start: usize,
        cur: usize,
        nx: usize,
        ny: usize,
        Ghost(vset): Ghost<Set<int>>,
        Ghost(head): Ghost<int>,
    ) -> (newset: Ghost<Set<int>>)
        requires
            bfs_inv(*self, old(visited)@, vset, old(queue)@, head, start as int),
            vset.contains(cur as int),
            nx < self.width,
            ny < self.height,
            adjacent(self.width as int, cur as int, (ny * self.width + nx) as int),
        ensures
            bfs_inv(*self, final (visited)@, newset@, final (queue)@, head, start as int),
            vset.subset_of(newset@),
            final (queue)@.len() >= old(queue)@.len(),
            newset@.len() - vset.len() >= final (queue)@.len() - old(queue)@.len(),
            (newset@ == vset && final (queue)@ == old(queue)@) || (final (queue)@ == old(
                queue,
            )@.push(((ny * self.width + nx)) as usize) && newset@ == vset.insert(
                (ny * self.width + nx) as int,
            ) && !vset.contains((ny * self.width + nx) as int)),
            self.stability.r@[(ny * self.width + nx) as int] == 0 ==> newset@.contains(
                (ny * self.width + nx) as int,
            ),
    {
        let ghost wi = self.width as int;
        proof {
            assert(self.stability.r.len() == self.stability.r@.len());
        }
        let nb = cell_index(self.width, self.height, nx, ny);
        let ghost mut cur_set = vset;
        if self.stability.r[nb] == 0 && !visited[nb] {
            visited[nb] = true;
            queue.push(nb);
            proof {
                cur_set = cur_set.insert(nb as int);
                lemma_cell_set_bound(cur_set, self.cells());
                let s = self.stability.r@;
                if cur == start {
                    lemma_reach_self(s, wi, nb as int);
                    assert(adjacent(wi, start as int, nb as int) && s[nb as int] == 0 && reachable(
                        s,
                        wi,
                        nb as int,
                        nb as int,
                    ));
                    assert(door_connected(s, wi, start as int, nb as int));
                } else {
                    assert(door_connected(s, wi, start as int, cur as int));
                    assert(s[cur as int] == 0);
                    let n = choose|n: int|
                        0 <= n < s.len() && #[trigger] adjacent(wi, start as int, n) && s[n] == 0
                            && reachable(s, wi, n, cur as int);
                    lemma_reach_extend(s, wi, n, cur as int, nb as int);
                    assert(door_connected(s, wi, start as int, nb as int));
                }
            }
        }
        Ghost(cur_set)
    }

    /// Breadth-first reachability test: whether some recorded outside door
    /// can be reached from the candidate cell `start` through open cells.
    /// Failure is a routine outcome, not an error: the caller simply skips
    /// the candidate.
    /// Expands one processed cell: every open in-grid neighbor of
    /// `cur == y * width + x` that is not yet marked gets marked and
    /// enqueued; afterwards every open neighbor of `cur` is marked.
    #[verifier::rlimit(100)]
    fn bfs_expand(
        &self,
        visited: &mut Vec<bool>,
        queue: &mut Vec<usize>,
        start: usize,
        cur: usize,
        x: usize,
        y: usize,
        Ghost(vset): Ghost<Set<int>>,
        Ghost(head): Ghost<int>,
    ) -> (newset: Ghost<Set<int>>)
        requires
            bfs_inv(*self, old(visited)@, vset, old(queue)@, head, start as int),
            vset.contains(cur as int),
            x < self.width,
            y < self.height,
            cur == y * self.width + x,
            col_of(self.width as int, cur as int) == x,
            row_of(self.width as int, cur as int) == y,
        ensures
            bfs_inv(*self, final (visited)@, newset@, final (queue)@, head, start as int),
            vset.subset_of(newset@),
            final (queue)@.len() >= old(queue)@.len(),
            newset@.len() - vset.len() >= final (queue)@.len() - old(queue)@.len(),
            forall|k: int| 0 <= k < old(queue)@.len() ==> final (queue)@[k] == old(queue)@[k],
            forall|i: int|
                newset@.contains(i) && !vset.contains(i) ==> exists|k: int|
                    0 <= k < final (queue)@.len() && final (queue)@[k] == i,
            forall|q: int|
                0 <= q < self.cells() && adjacent(self.width as int, cur as int, q)
                    && self.stability.r@[q] == 0 ==> newset@.contains(q),
    {
        let ghost wi = self.width as int;
        let width = self.width;
        let height = self.height;
        let ghost v0 = vset;
        let ghost mut cur_set = vset;
        if x + 1 < width {
            proof {
                lemma_coords(wi, x as int + 1, y as int);
            }
            let g = self.bfs_visit(visited, queue, start, cur, x + 1, y, Ghost(cur_set), Ghost(head));
            proof {
                cur_set = g@;
            }
        }
        let ghost v1 = cur_set;
        let ghost q1 = queue@;
        if x >= 1 {
            proof {
                lemma_coords(wi, x as int - 1, y as int);
            }
            let g = self.bfs_visit(visited, queue, start, cur, x - 1, y, Ghost(cur_set), Ghost(head));
            proof {
                cur_set = g@;
            }
        }
        let ghost v2 = cur_set;
        let ghost q2 = queue@;
        if y + 1 < height {
            proof {
                lemma_coords(wi, x as int, y as int + 1);
            }
            let g = self.bfs_visit(visited, queue, start, cur, x, y + 1, Ghost(cur_set), Ghost(head));
            proof {
                cur_set = g@;
            }
        }
        let ghost v3 = cur_set;
        let ghost q3 = queue@;
        if y >= 1 {
            proof {
                lemma_coords(wi, x as int, y as int - 1);
            }
            let g = self.bfs_visit(visited, queue, start, cur, x, y - 1, Ghost(cur_set), Ghost(head));
            proof {
                cur_set = g@;
            }
        }
        proof {
            assert(v1.subset_of(cur_set) && v2.subset_of(cur_set) && v3.subset_of(cur_set));
            assert forall|q: int|
                0 <= q < self.cells() && adjacent(wi, cur as int, q) && self.stability.r@[q] == 0
                implies cur_set.contains(q) by {
                lemma_adjacent_cases(wi, height as int, cur as int, q);
                vstd::arithmetic::div_mod::lemma_mod_bound(q, wi);
                vstd::arithmetic::div_mod::lemma_div_pos_is_pos(q, wi);
                assert((width * height) as int == self.cells());
                vstd::arithmetic::div_mod::lemma_multiply_divide_lt(q, wi, height as int);
            }
            assert forall|i: int|
                cur_set.contains(i) && !v0.contains(i) implies exists|k: int|
                    0 <= k < queue@.len() && queue@[k] == i by {
                if v1.contains(i) {
                    assert(queue@[q1.len() - 1] == i);
                } else if v2.contains(i) {
                    assert(queue@[q2.len() - 1] == i);
                } else if v3.contains(i) {
                    assert(queue@[q3.len() - 1] == i);
                } else {
                    assert(queue@[queue@.len() - 1] == i);
                }
            }
        }
        Ghost(cur_set)
    }

    /// Breadth-first reachability test: whether some recorded outside door
    /// can be reached from the candidate cell `start` through open cells —
    /// the result is positive exactly when one can.  A negative result is a
    /// routine outcome, not an error: the caller simply skips the
    /// candidate.
    #[verifier::rlimit(100)]
    pub fn has_valid_path(&self, start: usize, outside_doors: &Vec<usize>) -> (r: bool)
        requires
            self.wf(),
            start < self.cells(),
        ensures
            r <==> exists|k: int|
                0 <= k < outside_doors@.len() && door_connected(
                    self.stability.r@,
                    self.width as int,
                    start as int,
                    #[trigger] outside_doors@[k] as int,
                ),
    {
        let ghost wi = self.width as int;
        let width = self.width;
        let height = self.height;
        proof {
            assert(self.stability.r.len() == self.stability.r@.len());
        }
        let len = self.stability.r.len();
        let mut visited = fill_false(len);
        visited[start] = true;
        let ghost mut vset: Set<int> = Set::empty().insert(start as int);
        let ghost mut pset: Set<int> = Set::empty();
        let mut queue: Vec<usize> = Vec::new();
        queue.push(start);
        let mut head: usize = 0;
        proof {
            lemma_cell_set_bound(vset, self.cells());
            assert(queue@[0] == start);
        }
        while head < queue.len()
            invariant
                bfs_inv(*self, visited@, vset, queue@, head as int, start as int),
                width == self.width,
                height == self.height,
                wi == self.width,
                pset.subset_of(vset),
                forall|a: int, q: int|
                    #![trigger pset.contains(a), adjacent(wi, a, q)]
                    pset.contains(a) && 0 <= q < self.cells() && adjacent(wi, a, q)
                        && self.stability.r@[q] == 0 ==> vset.contains(q),
                forall|a: int, k: int|
                    #![trigger pset.contains(a), outside_doors@[k]]
                    pset.contains(a) && 0 <= k < outside_doors@.len() ==> outside_doors@[k] != a,
                forall|k: int| 0 <= k < head ==> pset.contains(#[trigger] queue@[k] as int),
                forall|i: int|
                    #[trigger] vset.contains(i) ==> exists|k: int|
                        0 <= k < queue@.len() && queue@[k] == i,
            decreases (queue@.len() - head) + (self.cells() - vset.len()),
        {
            let cur = queue[head];
            head += 1;
            if vec_contains(outside_doors, cur) {
                proof {
                    let k = choose|k: int| 0 <= k < outside_doors@.len() && outside_doors@[k]
                        == cur;
                    assert(door_connected(
                        self.stability.r@,
                        wi,
                        start as int,
                        outside_doors@[k] as int,
                    ));
                }
                return true;
            }
            proof {
                if width == 0 {
                    assert(self.cells() == 0) by (nonlinear_arith)
                        requires
                            self.cells() == self.width * self.height,
                            self.width == 0,
                    ;
                }
                vstd::arithmetic::div_mod::lemma_mod_bound(cur as int, wi);
                vstd::arithmetic::div_mod::lemma_div_pos_is_pos(cur as int, wi);
                assert((width * height) as int == self.cells());
                vstd::arithmetic::div_mod::lemma_multiply_divide_lt(cur as int, wi, height as int);
                vstd::arithmetic::div_mod::lemma_fundamental_div_mod(cur as int, wi);
            }
            let x = cur % width;
            let y = cur / width;
            let ghost v0 = vset;
            let ghost q0 = queue@;
            proof {
                lemma_coords(wi, x as int, y as int);
                assert(wi * (y as int) == (y as int) * wi) by (nonlinear_arith);
                assert(cur == y * width + x);
            }
            let g = self.bfs_expand(&mut visited, &mut queue, start, cur, x, y, Ghost(vset), Ghost(head as int));
            proof {
                vset = g@;
                pset = pset.insert(cur as int);
                assert(queue@[head - 1] == cur);
                assert forall|i: int| vset.contains(i) implies exists|k: int|
                    0 <= k < queue@.len() && queue@[k] == i by {
                    if v0.contains(i) {
                        let k = choose|k: int| 0 <= k < q0.len() && q0[k] == i;
                        assert(queue@[k] == i);
                    }
                }
            }
        }
        proof {
            let s = self.stability.r@;
            assert(head == queue@.len());
            assert forall|k: int|
                0 <= k < outside_doors@.len()
                implies !door_connected(s, wi, start as int, outside_doors@[k] as int) by {
                if door_connected(s, wi, start as int, outside_doors@[k] as int) {
                    let d = outside_doors@[k] as int;
                    assert(vset.contains(start as int));
                    let k0 = choose|j: int| 0 <= j < queue@.len() && queue@[j] == start as int;
                    assert(pset.contains(queue@[k0] as int));
                    assert(pset.contains(start as int));
                    if d != start {
                        let n = choose|n: int|
                            0 <= n < s.len() && #[trigger] adjacent(wi, start as int, n) && s[n]
                                == 0 && reachable(s, wi, n, d);
                        assert(vset.contains(n));
                        let k1 = choose|j: int| 0 <= j < queue@.len() && queue@[j] == n;
                        assert(pset.contains(queue@[k1] as int));
                        assert(pset.contains(n));
                        let p = choose|p: Seq<int>|
                            is_path(s, wi, p) && p.first() == n && p.last() == d;
                        assert forall|a: int, q: int|
                            pset.contains(a) && 0 <= q < s.len() && #[trigger] adjacent(wi, a, q)
                                && s[q] == 0 implies pset.contains(q) by {
                            assert(vset.contains(q));
                        }
                        lemma_path_stays_in_closed(s, wi, pset, p);
                        assert(pset.contains(d));
                    }
                    assert(false);
                }
            }
        }
        false
    }
}


/// The maze generation confined its writes to the sub-rectangle of size
/// `width / 7` by `height / 7` anchored at `(xo, yo)`: every cell outside
/// it is untouched.
pub open spec fn maze_frame_kept(b1: Board, b0: Board, xo: int, yo: int) -> bool {
    &&& 0 <= xo
    &&& 0 <= yo
    &&& xo + b0.width as int / 7 <= b0.width
    &&& yo + b0.height as int / 7 <= b0.height
    &&& forall|i: int|
        0 <= i < b0.cells() && !in_rect(
            b0.width as int,
            i,
            xo,
            yo,
            b0.width as int / 7,
            b0.height as int / 7,
        ) ==> unchanged_at(b1, b0, i)
}

/// Every open cell of the room's border ring is one of (at most) two door
/// cells.
pub open spec fn border_doors_bounded(b: Board, w: int, cx: int, cy: int, d1: int, d2: int) -> bool {
    forall|i: int|
        0 <= i < b.cells() && room_border(w, i, cx, cy) && b.stability.r@[i] == 0 ==> i == d1 || i
            == d2
}

/// The outcome of maze generation over the sub-rectangle anchored at
/// `(xo, yo)` (of size `width / 7` by `height / 7`, room center at its
/// middle, forge cell `f` at the room center):
/// everything outside the rectangle untouched; the forge open with full
/// reactivity, the highest connex number, no energy, a cleared record and
/// exactly the four forge flags; the room interior otherwise fully cleared;
/// every room border cell either a solid wall or one of at most two opened
/// doors; and every other cell of the rectangle either carved open or still
/// the wall state the fill gave it.
pub open spec fn maze_outcome(b1: Board, b0: Board, xo: int, yo: int) -> bool {
    let w = b0.width as int;
    let mw = w / 7;
    let mh = b0.height as int / 7;
    let cx = xo + mw / 2;
    let cy = yo + mh / 2;
    let f = cy * w + cx;
    &&& maze_frame_kept(b1, b0, xo, yo)
    &&& 0 <= f < b0.cells()
    &&& b1.stability.r@[f] == 0
    &&& b1.reactivity.r@[f] == SCALE
    &&& b1.connex_numbers.r@[f] == 200
    &&& b1.energy.r@[f] == 0
    &&& b1.alpha.r@[f] == crate::alpha::encode_alpha_spec(0, 0, 0, 0, 0)
    &&& b1.delta.r@[f] == forge_delta()
    &&& forall|i: int|
        0 <= i < b0.cells() && in_room(w, i, cx, cy) && !room_border(w, i, cx, cy) && i != f
            ==> b1.stability.r@[i] == 0 && b1.connex_numbers.r@[i] == 0 && b1.energy.r@[i] == 0
            && b1.delta.r@[i] == 0 && b1.alpha.r@[i] == crate::alpha::encode_alpha_spec(
            0,
            0,
            0,
            0,
            0,
        )
    &&& forall|i: int|
        0 <= i < b0.cells() && room_border(w, i, cx, cy) ==> (b1.stability.r@[i] == SCALE
            && crate::bits::spec_bit(b1.delta.r@[i], FLAG_SOLID)) || (b1.stability.r@[i] == 0
            && !crate::bits::spec_bit(b1.delta.r@[i], FLAG_SOLID))
    &&& exists|d1: int, d2: int| border_doors_bounded(b1, w, cx, cy, d1, d2)
    &&& forall|i: int|
        0 <= i < b0.cells() && in_rect(w, i, xo, yo, mw, mh) && !in_room(w, i, cx, cy)
            ==> b1.stability.r@[i] == 0 || filled_at(b1, b0, w, i, xo, yo)
}

/// Appends every element of `src` to `dst`.
fn append_doors(dst: &mut Vec<usize>, src: &Vec<usize>)
    ensures
        final (dst)@ == old(dst)@ + src@,
{
    let mut i: usize = 0;
    while i < src.len()
        invariant
            i <= src@.len(),
            dst@ == old(dst)@ + src@.take(i as int),
        decreases src@.len() - i,
    {
        dst.push(src[i]);
        proof {
            assert(old(dst)@ + src@.take(i as int) + seq![src@[i as int]] =~= old(dst)@
                + src@.take(i + 1));
        }
        i += 1;
    }
    proof {
        assert(src@.take(src@.len() as int) =~= src@);
    }
}

impl Board {
    /// One-shot procedural population of a randomly placed sub-rectangle of
    /// about a seventh of the grid in each direction: fills it with walls,
    /// carves a maze of passages by randomized depth-first search, places a
    /// central room with a forge at its center, opens at most one door per
    /// outer edge, and opens two room doors among the candidates from which
    /// an outside door is reachable (fewer than two reachable candidates
    /// leave the room closed; that is a silent, accepted outcome).
    ///
    /// Everything outside the chosen sub-rectangle is untouched.
    #[verifier::rlimit(100)]
    pub fn generate_maze(&mut self, seed: u64)
        requires
            old(self).wf(),
            old(self).width >= 105,
            old(self).height >= 63,
        ensures
            final (self).wf(),
            same_frame(*final (self), *old(self)),
            final (self).conductivity == old(self).conductivity,
            exists|xo: int, yo: int| maze_outcome(*final (self), *old(self), xo, yo),
    {
        let ghost orig = *old(self);
        let ghost wi = old(self).width as int;
        let width = self.width;
        let height = self.height;
        let mw = width / 7;
        let mh = height / 7;
        proof {
            vstd::arithmetic::div_mod::lemma_fundamental_div_mod(width as int, 7);
            vstd::arithmetic::div_mod::lemma_mod_bound(width as int, 7);
            vstd::arithmetic::div_mod::lemma_fundamental_div_mod(height as int, 7);
            vstd::arithmetic::div_mod::lemma_mod_bound(height as int, 7);
            assert(15 <= mw <= width);
            assert(9 <= mh <= height);
        }
        let mut rng = rng_from_seed(seed);
        let xo = rng_below(&mut rng, (width - mw + 1) as u64) as usize;
        let yo = rng_below(&mut rng, (height - mh + 1) as u64) as usize;
        self.fill_region(&mut rng, xo, yo, mw, mh);
        let ghost b_filled = *self;
        let start = self.carve_passages(&mut rng, xo, yo, mw, mh);
        let ghost b_carved = *self;
        let cxr = xo + mw / 2;
        let cyr = yo + mh / 2;
        proof {
            vstd::arithmetic::div_mod::lemma_fundamental_div_mod(mw as int, 2);
            vstd::arithmetic::div_mod::lemma_mod_bound(mw as int, 2);
            vstd::arithmetic::div_mod::lemma_fundamental_div_mod(mh as int, 2);
            vstd::arithmetic::div_mod::lemma_mod_bound(mh as int, 2);
            assert(7 <= mw / 2 && mw / 2 + 7 <= mw - 1);
            assert(4 <= mh / 2 && mh / 2 + 4 <= mh - 1);
        }
        self.carve_room(cxr, cyr);
        let ghost b_room = *self;
        self.place_forge(cxr, cyr);
        let ghost b_forge = *self;
        proof {
            assert(forall|i: int|
                0 <= i < orig.cells() && in_room(wi, i, cxr as int, cyr as int) ==> in_rect(
                    wi,
                    i,
                    xo as int,
                    yo as int,
                    mw as int,
                    mh as int,
                ));
            lemma_coords(wi, cxr as int, cyr as int);
        }
        let top = self.collect_h_edge(yo, xo + 1, xo + mw - 1, yo + 1);
        let bottom = self.collect_h_edge(yo + mh - 1, xo + 1, xo + mw - 1, yo + mh - 2);
        let left = self.collect_v_edge(xo, yo + 1, yo + mh - 1, xo + 1);
        let right = self.collect_v_edge(xo + mw - 1, yo + 1, yo + mh - 1, xo + mw - 2);
        let mut outside_doors: Vec<usize> = Vec::new();
        let ghost od0 = outside_doors@;
        self.select_door(&mut rng, &top, &mut outside_doors);
        let ghost b_d1 = *self;
        let ghost od1 = outside_doors@;
        self.select_door(&mut rng, &bottom, &mut outside_doors);
        let ghost b_d2 = *self;
        let ghost od2 = outside_doors@;
        self.select_door(&mut rng, &left, &mut outside_doors);
        let ghost b_d3 = *self;
        let ghost od3 = outside_doors@;
        self.select_door(&mut rng, &right, &mut outside_doors);
        let ghost b_d4 = *self;
        let ghost od4 = outside_doors@;
        proof {
            assert(select_step(b_d1, b_forge, top@, od1, od0));
            assert(select_step(b_d2, b_d1, bottom@, od2, od1));
            assert(select_step(b_d3, b_d2, left@, od3, od2));
            assert(select_step(b_d4, b_d3, right@, od4, od3));
        }
        let room_top = self.collect_h_edge(cyr - 3, cxr - 5, cxr + 6, cyr - 4);
        let room_bottom = self.collect_h_edge(cyr + 3, cxr - 5, cxr + 6, cyr + 4);
        let room_left = self.collect_v_edge(cxr - 6, cyr - 2, cyr + 3, cxr - 7);
        let room_right = self.collect_v_edge(cxr + 6, cyr - 2, cyr + 3, cxr + 7);
        let mut potential: Vec<usize> = Vec::new();
        append_doors(&mut potential, &room_top);
        append_doors(&mut potential, &room_bottom);
        append_doors(&mut potential, &room_left);
        append_doors(&mut potential, &room_right);
        proof {
            assert(forall|k: int|
                0 <= k < potential@.len() ==> 0 <= #[trigger] potential@[k] < orig.cells()
                    && room_border(wi, potential@[k] as int, cxr as int, cyr as int));
            assert(forall|i: int|
                0 <= i < orig.cells() && in_room(wi, i, cxr as int, cyr as int) ==> in_rect(
                    wi,
                    i,
                    xo as int,
                    yo as int,
                    mw as int,
                    mh as int,
                ));
        }
        let mut valid: Vec<usize> = Vec::new();
        let mut pi: usize = 0;
        while pi < potential.len()
            invariant
                self.wf(),
                wi == orig.width,
                pi <= potential@.len(),
                orig.cells() == self.cells(),
                forall|k: int|
                    0 <= k < potential@.len() ==> 0 <= #[trigger] potential@[k] < self.cells()
                        && room_border(wi, potential@[k] as int, cxr as int, cyr as int),
                forall|k: int|
                    0 <= k < valid@.len() ==> 0 <= #[trigger] valid@[k] < self.cells()
                        && room_border(wi, valid@[k] as int, cxr as int, cyr as int),
            decreases potential@.len() - pi,
        {
            let d = potential[pi];
            if self.has_valid_path(d, &outside_doors) {
                valid.push(d);
            }
            pi += 1;
        }
        let ghost mut doors_carved: bool = false;
        let ghost mut door_a: int = 0;
        let ghost mut door_b: int = 0;
        if valid.len() >= 2 {
            let a = rng_below(&mut rng, valid.len() as u64) as usize;
            let b0 = rng_below(&mut rng, (valid.len() - 1) as u64) as usize;
            let b = if b0 >= a {
                b0 + 1
            } else {
                b0
            };
            let da = valid[a];
            let db = valid[b];
            self.carve_open(da);
            let ghost b_c1 = *self;
            self.carve_open(db);
            proof {
                doors_carved = true;
                door_a = da as int;
                door_b = db as int;
                assert(room_border(wi, door_a, cxr as int, cyr as int));
                assert(room_border(wi, door_b, cxr as int, cyr as int));
                assert forall|i: int|
                    0 <= i < orig.cells() && i != door_a && i != door_b implies unchanged_at(
                    *self,
                    b_d4,
                    i,
                ) by {
                    assert(unchanged_at(b_c1, b_d4, i));
                    assert(unchanged_at(*self, b_c1, i));
                }
                assert(self.stability.r@[door_a] == 0 && self.stability.r@[door_b] == 0);
                assert(!crate::bits::spec_bit(self.delta.r@[door_a], FLAG_SOLID)
                    && !crate::bits::spec_bit(self.delta.r@[door_b], FLAG_SOLID));
                assert forall|i: int|
                    0 <= i < orig.cells() && b_d4.stability.r@[i] == 0
                    implies self.stability.r@[i] == 0 by {
                    assert(b_c1.stability.r@[i] == b_d4.stability.r@.update(da as int, 0i64)[i]);
                    assert(self.stability.r@[i] == b_c1.stability.r@.update(db as int, 0i64)[i]);
                }
            }
        }
        proof {
            let cxi = cxr as int;
            let cyi = cyr as int;
            let f = cyi * wi + cxi;
            assert forall|i: int|
                0 <= i < orig.cells() && !in_rect(wi, i, xo as int, yo as int, mw as int, mh as int)
                implies unchanged_at(*self, orig, i) by {
                assert(unchanged_at(b_filled, orig, i));
                assert(unchanged_at(b_carved, b_filled, i));
                assert(!in_room(wi, i, cxi, cyi));
                assert(unchanged_at(b_room, b_carved, i));
                assert(i != cyr * width + cxr);
                assert(unchanged_at(b_forge, b_room, i));
                assert(unchanged_at(b_d1, b_forge, i));
                assert(unchanged_at(b_d2, b_d1, i));
                assert(unchanged_at(b_d3, b_d2, i));
                assert(unchanged_at(b_d4, b_d3, i));
                if doors_carved {
                    assert(i != door_a && i != door_b);
                    assert(unchanged_at(*self, b_d4, i));
                } else {
                    assert(*self == b_d4);
                }
            }
            assert(maze_frame_kept(*self, orig, xo as int, yo as int));
            // The room block sits strictly inside the rectangle's edge ring,
            // so no outside door (all on the edge) touches it.
            assert forall|i: int|
                0 <= i < orig.cells() && in_room(wi, i, cxi, cyi) implies xo + 1 <= col_of(wi, i)
                    <= xo + mw - 2 && yo + 1 <= row_of(wi, i) <= yo + mh - 2 by {}
            assert forall|i: int|
                0 <= i < orig.cells() && in_room(wi, i, cxi, cyi) implies unchanged_at(
                b_d4,
                b_forge,
                i,
            ) by {
                assert forall|k: int| 0 <= k < top@.len() implies #[trigger] top@[k] as int
                    != i by {
                    assert(row_of(wi, top@[k] as int) == yo);
                }
                assert forall|k: int| 0 <= k < bottom@.len() implies #[trigger] bottom@[k] as int
                    != i by {
                    assert(row_of(wi, bottom@[k] as int) == yo + mh - 1);
                }
                assert forall|k: int| 0 <= k < left@.len() implies #[trigger] left@[k] as int
                    != i by {
                    assert(col_of(wi, left@[k] as int) == xo);
                }
                assert forall|k: int| 0 <= k < right@.len() implies #[trigger] right@[k] as int
                    != i by {
                    assert(col_of(wi, right@[k] as int) == xo + mw - 1);
                }
                lemma_select_step_preserves_cell(b_d1, b_forge, top@, od1, od0, i);
                lemma_select_step_preserves_cell(b_d2, b_d1, bottom@, od2, od1, i);
                lemma_select_step_preserves_cell(b_d3, b_d2, left@, od3, od2, i);
                lemma_select_step_preserves_cell(b_d4, b_d3, right@, od4, od3, i);
            }
            // Forge cell: interior of the room, then marked, then untouched.
            assert(f == cyr * width + cxr);
            assert(0 <= f < orig.cells()) by (nonlinear_arith)
                requires
                    f == cyi * wi + cxi,
                    0 <= cxi < orig.width,
                    0 <= cyi < orig.height,
                    wi == orig.width,
                    orig.cells() == orig.width * orig.height,
            ;
            assert(in_room(wi, f, cxi, cyi) && !room_border(wi, f, cxi, cyi));
            assert(room_cell_done(b_room, b_carved, wi, f, cxi, cyi));
            assert(b_forge.delta.r@[f] == 0u64 | forge_delta());
            assert(0u64 | ((1u64 << FLAG_FORGE) | (1u64 << FLAG_ROOM_A) | (1u64 << FLAG_FORGE_B)
                | (1u64 << FLAG_FORGE_A)) == (1u64 << FLAG_FORGE) | (1u64 << FLAG_ROOM_A) | (1u64
                << FLAG_FORGE_B) | (1u64 << FLAG_FORGE_A)) by (bit_vector);
            assert(unchanged_at(b_d4, b_forge, f));
            if doors_carved {
                assert(f != door_a && f != door_b);
                assert(unchanged_at(*self, b_d4, f));
            } else {
                assert(*self == b_d4);
            }
            assert(self.stability.r@[f] == 0 && self.reactivity.r@[f] == SCALE
                && self.connex_numbers.r@[f] == 200 && self.energy.r@[f] == 0
                && self.alpha.r@[f] == crate::alpha::encode_alpha_spec(0, 0, 0, 0, 0)
                && self.delta.r@[f] == forge_delta());
            // Room interior other than the forge: cleared by the room carve
            // and untouched afterwards.
            assert forall|i: int|
                0 <= i < orig.cells() && in_room(wi, i, cxi, cyi) && !room_border(wi, i, cxi, cyi)
                    && i != f implies self.stability.r@[i] == 0 && self.connex_numbers.r@[i] == 0
                && self.energy.r@[i] == 0 && self.delta.r@[i] == 0 && self.alpha.r@[i]
                == crate::alpha::encode_alpha_spec(0, 0, 0, 0, 0) by {
                assert(room_cell_done(b_room, b_carved, wi, i, cxi, cyi));
                assert(unchanged_at(b_forge, b_room, i));
                assert(unchanged_at(b_d4, b_forge, i));
                if doors_carved {
                    assert(i != door_a && i != door_b);
                    assert(unchanged_at(*self, b_d4, i));
                } else {
                    assert(*self == b_d4);
                }
            }
            // Room border: a solid wall unless it is one of the opened doors.
            assert forall|i: int|
                0 <= i < orig.cells() && room_border(wi, i, cxi, cyi) implies (
            self.stability.r@[i] == SCALE && crate::bits::spec_bit(self.delta.r@[i], FLAG_SOLID))
                || (self.stability.r@[i] == 0 && !crate::bits::spec_bit(
                self.delta.r@[i],
                FLAG_SOLID,
            )) by {
                assert(room_cell_done(b_room, b_carved, wi, i, cxi, cyi));
                assert(i != f);
                assert(unchanged_at(b_forge, b_room, i));
                assert(unchanged_at(b_d4, b_forge, i));
                if doors_carved {
                    if i != door_a && i != door_b {
                        assert(unchanged_at(*self, b_d4, i));
                    }
                } else {
                    assert(*self == b_d4);
                }
            }
            assert(border_doors_bounded(*self, wi, cxi, cyi, door_a, door_b)) by {
                assert forall|i: int|
                    0 <= i < self.cells() && room_border(wi, i, cxi, cyi)
                        && self.stability.r@[i] == 0 implies i == door_a || i == door_b by {
                    if i != door_a && i != door_b {
                        assert(room_cell_done(b_room, b_carved, wi, i, cxi, cyi));
                        assert(unchanged_at(b_forge, b_room, i));
                        assert(unchanged_at(b_d4, b_forge, i));
                        if doors_carved {
                            assert(unchanged_at(*self, b_d4, i));
                        } else {
                            assert(*self == b_d4);
                        }
                        assert(self.stability.r@[i] == SCALE);
                    }
                }
            }
            // The rest of the rectangle: carved open, or still the filled
            // wall state.
            lemma_select_step_monotone(b_d1, b_forge, top@, od1, od0);
            lemma_select_step_monotone(b_d2, b_d1, bottom@, od2, od1);
            lemma_select_step_monotone(b_d3, b_d2, left@, od3, od2);
            lemma_select_step_monotone(b_d4, b_d3, right@, od4, od3);
            assert forall|i: int|
                0 <= i < orig.cells() && in_rect(wi, i, xo as int, yo as int, mw as int, mh as int)
                    && !in_room(wi, i, cxi, cyi) implies self.stability.r@[i] == 0 || filled_at(
                *self,
                orig,
                wi,
                i,
                xo as int,
                yo as int,
            ) by {
                assert(unchanged_at(b_room, b_carved, i));
                assert(i != f);
                assert(unchanged_at(b_forge, b_room, i));
                if doors_carved {
                    assert(i != door_a && i != door_b);
                    assert(unchanged_at(*self, b_d4, i));
                } else {
                    assert(*self == b_d4);
                }
                if self.stability.r@[i] != 0 {
                    assert(b_d4.stability.r@[i] != 0);
                    assert(unchanged_at(b_d4, b_d3, i));
                    assert(b_d3.stability.r@[i] != 0);
                    assert(unchanged_at(b_d3, b_d2, i));
                    assert(b_d2.stability.r@[i] != 0);
                    assert(unchanged_at(b_d2, b_d1, i));
                    assert(b_d1.stability.r@[i] != 0);
                    assert(unchanged_at(b_d1, b_forge, i));
                    assert(b_carved.stability.r@[i] != 0);
                    assert(unchanged_at(b_carved, b_filled, i));
                    assert(filled_at(b_filled, orig, wi, i, xo as int, yo as int));
                    assert(filled_at(*self, orig, wi, i, xo as int, yo as int));
                }
            }
            assert(maze_outcome(*self, orig, xo as int, yo as int));
        }
    }
}

} // verus!
