//! Rectangular windows into the grid and the flat snapshots extracted
//! through them.

use crate::point::Point;
use vstd::prelude::*;

verus! {

/// A half-open rectangular window `[start, end)` in cell coordinates plus a
/// world-space anchor (fixed-point units).  `width`, `height` and `size` are
/// derived from the corners.
#[derive(Clone, Copy, Debug, PartialEq, Eq, Structural)]
pub struct BoardSlice {
    pub world_pos: Point<i64>,
    pub start: Point<usize>,
    pub end: Point<usize>,
    pub width: usize,
    pub height: usize,
    pub size: usize,
}

impl BoardSlice {
    /// The corners are ordered and the derived fields agree with them.
    pub open spec fn wf(self) -> bool {
        &&& self.start.x <= self.end.x
        &&& self.start.y <= self.end.y
        &&& self.width == self.end.x - self.start.x
        &&& self.height == self.end.y - self.start.y
        &&& self.size == self.width * self.height
    }

    pub fn new(world_pos: Point<i64>, start: Point<usize>, end: Point<usize>) -> (r: Self)
        requires
            start.x <= end.x,
            start.y <= end.y,
            (end.x - start.x) * (end.y - start.y) <= usize::MAX,
        ensures
            r.wf(),
            r.world_pos == world_pos,
            r.start == start,
            r.end == end,
    {
        let width = end.x - start.x;
        let height = end.y - start.y;
        let size = width * height;
        Self { world_pos, start, end, width, height, size }
    }

    pub fn empty() -> (r: Self)
        ensures
            r.wf(),
            r.world_pos.x == 0,
            r.world_pos.y == 0,
            r.start.x == 0,
            r.start.y == 0,
            r.end.x == 0,
            r.end.y == 0,
            r.width == 0,
            r.height == 0,
            r.size == 0,
    {
        Self::new(Point::<i64>::zero(), Point::<usize>::zero(), Point::<usize>::zero())
    }
}

/// A flat, contiguous snapshot of one rectangular window of the grid: one
/// array per attribute, each of length `slice.size`, owned independently of
/// the grid once extracted.
#[derive(Debug)]
pub struct BoardView {
    pub board_pos: Point<i64>,
    pub connex_numbers: Vec<u32>,
    pub conductivity: Vec<i64>,
    pub stability: Vec<i64>,
    pub reactivity: Vec<i64>,
    pub energy: Vec<i64>,
    pub alpha: Vec<u64>,
    pub beta: Vec<u64>,
    pub gamma: Vec<i64>,
    pub delta: Vec<u64>,
    pub omega: Vec<i64>,
    pub slice: BoardSlice,
    pub total_energy: i128,
    pub time_taken: u64,
}

impl BoardView {
    pub fn empty() -> (r: Self)
        ensures
            r.board_pos.x == 0,
            r.board_pos.y == 0,
            r.slice.wf(),
            r.slice.start.x == 0,
            r.slice.start.y == 0,
            r.slice.end.x == 0,
            r.slice.end.y == 0,
            r.slice.width == 0,
            r.slice.height == 0,
            r.slice.size == 0,
            r.slice.world_pos.x == 0,
            r.slice.world_pos.y == 0,
            r.time_taken == 0,
            r.connex_numbers@.len() == 0,
            r.conductivity@.len() == 0,
            r.stability@.len() == 0,
            r.reactivity@.len() == 0,
            r.energy@.len() == 0,
            r.alpha@.len() == 0,
            r.beta@.len() == 0,
            r.gamma@.len() == 0,
            r.delta@.len() == 0,
            r.omega@.len() == 0,
            r.total_energy == 0,
    {
        Self {
            board_pos: Point::<i64>::zero(),
            connex_numbers: Vec::new(),
            conductivity: Vec::new(),
            stability: Vec::new(),
            reactivity: Vec::new(),
            energy: Vec::new(),
            alpha: Vec::new(),
            beta: Vec::new(),
            gamma: Vec::new(),
            delta: Vec::new(),
            omega: Vec::new(),
            slice: BoardSlice::empty(),
            total_energy: 0,
            time_taken: 0,
        }
    }
}

} // verus!
