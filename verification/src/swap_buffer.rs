//! Double buffer for one cell attribute: a read array and a write array of
//! equal length, exchanged in one step after a full update pass so that a
//! pass never reads what it is writing.

use vstd::prelude::*;

verus! {

/// The sequence with the cells at `a` and `b` exchanged.
pub open spec fn swapped<T>(s: Seq<T>, a: int, b: int) -> Seq<T> {
    s.update(a, s[b]).update(b, s[a])
}

/// Exchanging the same two cells twice returns a sequence to its prior
/// state.
pub proof fn lemma_swap_involution<T>(s: Seq<T>, a: int, b: int)
    requires
        0 <= a < s.len(),
        0 <= b < s.len(),
    ensures
        swapped(swapped(s, a, b), a, b) == s,
{
    assert(swapped(swapped(s, a, b), a, b) =~= s);
}

pub struct SwapBuffer<T> {
    pub width: usize,
    pub r: Vec<T>,
    pub w: Vec<T>,
}

impl<T> SwapBuffer<T> {
    /// Both halves always hold one value per cell.
    pub open spec fn wf(self) -> bool {
        self.r.len() == self.w.len()
    }
}

impl<T: Copy> SwapBuffer<T> {
    /// Exchanges the roles of the read and the write array without copying
    /// data.
    pub fn swap(&mut self)
        ensures
            final (self).r == old(self).w,
            final (self).w == old(self).r,
            final (self).width == old(self).width,
    {
        core::mem::swap(&mut self.r, &mut self.w);
    }

    /// Exchanges two cells of the read array.
    pub fn swap_cells(&mut self, pos1: usize, pos2: usize)
        requires
            pos1 < old(self).r.len(),
            pos2 < old(self).r.len(),
        ensures
            final (self).r@ == swapped(old(self).r@, pos1 as int, pos2 as int),
            final (self).w == old(self).w,
            final (self).width == old(self).width,
    {
        let a = self.r[pos1];
        let b = self.r[pos2];
        self.r[pos1] = b;
        self.r[pos2] = a;
    }

    /// Builds a double buffer whose two halves both start as a copy of the
    /// given array.
    pub fn from_arr(base: Vec<T>, width: usize) -> (sb: SwapBuffer<T>)
        ensures
            sb.r@ == base@,
            sb.w@ == base@,
            sb.width == width,
            sb.wf(),
    {
        let mut copy: Vec<T> = Vec::new();
        let mut i: usize = 0;
        while i < base.len()
            invariant
                i <= base.len(),
                copy@.len() == i,
                forall|k: int| 0 <= k < i ==> copy@[k] == base@[k],
            decreases base.len() - i,
        {
            copy.push(base[i]);
            i += 1;
        }
        proof {
            assert(copy@ =~= base@);
        }
        SwapBuffer { width, r: copy, w: base }
    }
}

} // verus!
