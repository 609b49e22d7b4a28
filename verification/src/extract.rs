//! Extraction of a rectangular window of the grid into an independent flat
//! snapshot.

use crate::board::Board;
use crate::swap_buffer::SwapBuffer;
use crate::view::{BoardSlice, BoardView};
use vstd::prelude::*;

verus! {

/// The destination holds exactly the window `[slice.start, slice.end)` of
/// the source sequence, row by row.
pub open spec fn extracted<T>(dest: Seq<T>, src: Seq<T>, width: int, slice: BoardSlice) -> bool {
    &&& dest.len() == slice.size
    &&& forall|r: int, c: int|
        0 <= r < slice.height && 0 <= c < slice.width ==> #[trigger] dest[r * slice.width + c]
            == src[(slice.start.y + r) * width + (slice.start.x + c)]
}

/// Copies the window `[slice.start, slice.end)` of the read half of a double
/// buffer into `dest`, fully overwriting it.
pub fn copy_swap_buf<T: Copy>(dest: &mut Vec<T>, sb: &SwapBuffer<T>, slice: &BoardSlice)
    requires
        slice.wf(),
        slice.end.x <= sb.width,
        slice.end.y * sb.width <= sb.r.len(),
    ensures
        extracted(final (dest)@, sb.r@, sb.width as int, *slice),
{
    let mut out: Vec<T> = Vec::new();
    let mut row: usize = 0;
    while row < slice.height
        invariant
            row <= slice.height,
            slice.wf(),
            slice.end.x <= sb.width,
            slice.end.y * sb.width <= sb.r.len(),
            out@.len() == row * slice.width,
            forall|r: int, c: int|
                0 <= r < row && 0 <= c < slice.width ==> #[trigger] out@[r * slice.width + c]
                    == sb.r@[(slice.start.y + r) * sb.width + (slice.start.x + c)],
        decreases slice.height - row,
    {
        let mut col: usize = 0;
        proof {
            assert((row + 1) * slice.width == row * slice.width + slice.width) by (nonlinear_arith);
            assert(row * slice.width + slice.width <= slice.height * slice.width <= usize::MAX)
                by (nonlinear_arith)
                requires
                    row + 1 <= slice.height,
                    slice.size == slice.width * slice.height,
                    slice.size <= usize::MAX,
            ;
            assert((slice.start.y + row) * sb.width + slice.end.x <= slice.end.y * sb.width)
                by (nonlinear_arith)
                requires
                    slice.start.y + row < slice.end.y,
                    slice.end.x <= sb.width,
            ;
        }
        while col < slice.width
            invariant
                col <= slice.width,
                row < slice.height,
                slice.wf(),
                slice.end.x <= sb.width,
                slice.end.y * sb.width <= sb.r.len(),
                (slice.start.y + row) * sb.width + slice.end.x <= slice.end.y * sb.width,
                row * slice.width + slice.width <= usize::MAX,
                out@.len() == row * slice.width + col,
                forall|r: int, c: int|
                    0 <= r < row && 0 <= c < slice.width ==> #[trigger] out@[r * slice.width + c]
                        == sb.r@[(slice.start.y + r) * sb.width + (slice.start.x + c)],
                forall|c: int|
                    0 <= c < col ==> #[trigger] out@[row * slice.width + c] == sb.r@[(slice.start.y
                        + row) * sb.width + (slice.start.x + c)],
            decreases slice.width - col,
        {
            let src_i = (slice.start.y + row) * sb.width + (slice.start.x + col);
            let ghost prev = out@;
            out.push(sb.r[src_i]);
            proof {
                assert forall|r: int, c: int|
                    0 <= r < row && 0 <= c < slice.width implies #[trigger] out@[r * slice.width
                    + c] == sb.r@[(slice.start.y + r) * sb.width + (slice.start.x + c)] by {
                    assert(r * slice.width + c < row * slice.width) by (nonlinear_arith)
                        requires
                            0 <= r < row,
                            0 <= c < slice.width,
                    ;
                    assert(out@[r * slice.width + c] == prev[r * slice.width + c]);
                }
            }
            col += 1;
        }
        row += 1;
    }
    proof {
        assert(out@.len() == slice.size) by (nonlinear_arith)
            requires
                out@.len() == slice.height * slice.width,
                slice.size == slice.width * slice.height,
        ;
    }
    *dest = out;
}

impl Board {
    /// A slice that lies within this board.
    pub open spec fn slice_in_bounds(self, slice: BoardSlice) -> bool {
        &&& slice.wf()
        &&& slice.end.x <= self.width
        &&& slice.end.y <= self.height
    }

    /// Every attribute array of the view holds exactly the window
    /// `[slice.start, slice.end)` of the board's read buffers.
    pub open spec fn view_extracted(self, view: BoardView, slice: BoardSlice) -> bool {
        &&& extracted(view.connex_numbers@, self.connex_numbers.r@, self.width as int, slice)
        &&& extracted(view.conductivity@, self.conductivity.r@, self.width as int, slice)
        &&& extracted(view.stability@, self.stability.r@, self.width as int, slice)
        &&& extracted(view.reactivity@, self.reactivity.r@, self.width as int, slice)
        &&& extracted(view.energy@, self.energy.r@, self.width as int, slice)
        &&& extracted(view.alpha@, self.alpha.r@, self.width as int, slice)
        &&& extracted(view.beta@, self.beta.r@, self.width as int, slice)
        &&& extracted(view.gamma@, self.gamma.r@, self.width as int, slice)
        &&& extracted(view.delta@, self.delta.r@, self.width as int, slice)
        &&& extracted(view.omega@, self.omega.r@, self.width as int, slice)
    }

    /// Copies the window `[slice.start, slice.end)` of every attribute into
    /// the view, fully overwriting its storage, and stamps the view with the
    /// slice, the board anchor and the aggregate energy.
    pub fn copy_to_view(&self, view: &mut BoardView, slice: &BoardSlice)
        requires
            self.wf(),
            self.slice_in_bounds(*slice),
        ensures
            self.view_extracted(*final (view), *slice),
            final (view).slice == *slice,
            final (view).board_pos == self.pos,
            final (view).total_energy == self.total_energy,
    {
        proof {
            assert(slice.end.y * self.width <= self.height * self.width) by (nonlinear_arith)
                requires
                    slice.end.y <= self.height,
                    self.width >= 0,
            ;
            assert(self.height * self.width == self.width * self.height) by (nonlinear_arith);
        }
        copy_swap_buf(&mut view.connex_numbers, &self.connex_numbers, slice);
        copy_swap_buf(&mut view.conductivity, &self.conductivity, slice);
        copy_swap_buf(&mut view.stability, &self.stability, slice);
        copy_swap_buf(&mut view.reactivity, &self.reactivity, slice);
        copy_swap_buf(&mut view.energy, &self.energy, slice);
        copy_swap_buf(&mut view.alpha, &self.alpha, slice);
        copy_swap_buf(&mut view.beta, &self.beta, slice);
        copy_swap_buf(&mut view.gamma, &self.gamma, slice);
        copy_swap_buf(&mut view.delta, &self.delta, slice);
        copy_swap_buf(&mut view.omega, &self.omega, slice);
        view.slice = *slice;
        view.board_pos = self.pos;
        view.total_energy = self.total_energy;
    }

    /// Produces an independent flat snapshot of the requested window across
    /// all attributes.
    pub fn extract_view(&self, slice: &BoardSlice) -> (view: BoardView)
        requires
            self.wf(),
            self.slice_in_bounds(*slice),
        ensures
            self.view_extracted(view, *slice),
            view.slice == *slice,
            view.board_pos == self.pos,
            view.total_energy == self.total_energy,
    {
        let mut view = BoardView::empty();
        self.copy_to_view(&mut view, slice);
        view
    }
}

/// Extraction over the full-grid slice reproduces a raw attribute array
/// exactly: a window that starts at the origin and ends at the grid's
/// corner yields the attribute sequence itself.
pub proof fn lemma_full_extract<T>(dest: Seq<T>, src: Seq<T>, width: int, height: int, slice: BoardSlice)
    requires
        slice.wf(),
        slice.start.x == 0,
        slice.start.y == 0,
        slice.end.x == width,
        slice.end.y == height,
        src.len() == width * height,
        extracted(dest, src, width, slice),
    ensures
        dest == src,
{
    assert forall|i: int| 0 <= i < src.len() implies dest[i] == src[i] by {
        if width > 0 {
            let r = i / width;
            let c = i % width;
            vstd::arithmetic::div_mod::lemma_fundamental_div_mod(i, width);
            vstd::arithmetic::div_mod::lemma_mod_bound(i, width);
            assert(r < height) by (nonlinear_arith)
                requires
                    i < width * height,
                    i == width * r + c,
                    0 <= c < width,
                    width > 0,
            ;
            assert(0 <= r) by (nonlinear_arith)
                requires
                    0 <= i,
                    i == width * r + c,
                    0 <= c < width,
                    width > 0,
            ;
            assert(dest[r * slice.width + c] == src[(slice.start.y + r) * width + (slice.start.x
                + c)]);
            assert(r * slice.width + c == i) by (nonlinear_arith)
                requires
                    i == width * r + c,
                    slice.width == width,
            ;
        }
    }
    assert(dest =~= src);
}

} // verus!
