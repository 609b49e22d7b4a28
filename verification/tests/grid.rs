use gridsim::board::Board;
use gridsim::point::Point;
use gridsim::view::BoardSlice;
use gridsim::SCALE;

fn full_slice(b: &Board) -> BoardSlice {
    BoardSlice::new(
        Point::<i64>::zero(),
        Point::<usize>::zero(),
        Point::new(b.width(), b.height()),
    )
}

#[test]
fn new_board_respects_fill_ranges() {
    let b = Board::new(Point::new(0, 0), 16, 12, 42);
    assert_eq!(b.width(), 16);
    assert_eq!(b.height(), 12);
    for i in 0..16 * 12 {
        assert!(b.connex_numbers.r[i] <= 200);
        assert!(b.conductivity.r[i] >= 0 && b.conductivity.r[i] <= SCALE);
        assert!(b.reactivity.r[i] >= -SCALE && b.reactivity.r[i] <= SCALE);
        assert!(b.energy.r[i] >= 0 && b.energy.r[i] <= 153600);
        assert_eq!(b.stability.r[i], 0);
        assert_eq!(b.alpha.r[i], 0);
        assert_eq!(b.delta.r[i], 0);
    }
    let total: i128 = b.energy.r.iter().map(|&e| e as i128).sum();
    assert_eq!(b.total_energy(), total);
}

#[test]
fn swap_cells_twice_restores_the_grid() {
    let mut b = Board::new(Point::new(0, 0), 10, 10, 7);
    let before = b.extract_view(&full_slice(&b));
    b.swap_cells(3, 87);
    b.swap_cells(3, 87);
    let after = b.extract_view(&full_slice(&b));
    assert_eq!(before.connex_numbers, after.connex_numbers);
    assert_eq!(before.conductivity, after.conductivity);
    assert_eq!(before.stability, after.stability);
    assert_eq!(before.reactivity, after.reactivity);
    assert_eq!(before.energy, after.energy);
    assert_eq!(before.alpha, after.alpha);
    assert_eq!(before.beta, after.beta);
    assert_eq!(before.gamma, after.gamma);
    assert_eq!(before.delta, after.delta);
    assert_eq!(before.omega, after.omega);
}

#[test]
fn swap_cells_moves_every_attribute_together() {
    let mut b = Board::new(Point::new(0, 0), 8, 8, 3);
    let (e0, e1) = (b.energy.r[0], b.energy.r[63]);
    let (c0, c1) = (b.connex_numbers.r[0], b.connex_numbers.r[63]);
    b.swap_cells(0, 63);
    assert_eq!(b.energy.r[0], e1);
    assert_eq!(b.energy.r[63], e0);
    assert_eq!(b.connex_numbers.r[0], c1);
    assert_eq!(b.connex_numbers.r[63], c0);
}

#[test]
fn full_extraction_reproduces_raw_buffers() {
    let b = Board::new(Point::new(2048, -1024), 13, 9, 99);
    let v = b.extract_view(&full_slice(&b));
    assert_eq!(v.connex_numbers, b.connex_numbers.r);
    assert_eq!(v.conductivity, b.conductivity.r);
    assert_eq!(v.stability, b.stability.r);
    assert_eq!(v.reactivity, b.reactivity.r);
    assert_eq!(v.energy, b.energy.r);
    assert_eq!(v.alpha, b.alpha.r);
    assert_eq!(v.beta, b.beta.r);
    assert_eq!(v.gamma, b.gamma.r);
    assert_eq!(v.delta, b.delta.r);
    assert_eq!(v.omega, b.omega.r);
    assert_eq!(v.total_energy, b.total_energy());
    assert_eq!(v.board_pos, Point::new(2048, -1024));
}

#[test]
fn partial_extraction_copies_rows() {
    let b = Board::new(Point::new(0, 0), 6, 5, 11);
    let slice = BoardSlice::new(Point::<i64>::zero(), Point::new(1, 2), Point::new(4, 4));
    let v = b.extract_view(&slice);
    assert_eq!(v.energy.len(), 6);
    for row in 0..2 {
        for col in 0..3 {
            assert_eq!(v.energy[row * 3 + col], b.energy.r[(2 + row) * 6 + 1 + col]);
        }
    }
}

#[test]
fn zero_coupling_keeps_energy_unchanged() {
    let mut b = Board::new(Point::new(0, 0), 10, 10, 5);
    for i in 0..100 {
        b.conductivity.r[i] = 0;
    }
    let before = b.energy.r.clone();
    b.update(102);
    assert_eq!(b.energy.r, before);
}

#[test]
fn diffusion_spreads_energy_and_conserves_total() {
    let mut b = Board::new(Point::new(0, 0), 10, 10, 1);
    for i in 0..100 {
        b.conductivity.r[i] = SCALE;
        b.energy.r[i] = 0;
    }
    let center = 5 * 10 + 5;
    b.energy.r[center] = 100 * SCALE;
    let before_total: i128 = (100 * SCALE) as i128;
    b.update(102);
    // The eight neighbors each received energy; everyone else except the
    // center is still empty.
    for dy in 0..3i64 {
        for dx in 0..3i64 {
            let i = ((5 + dy - 1) * 10 + 5 + dx - 1) as usize;
            if i == center {
                continue;
            }
            assert!(b.energy.r[i] > 0);
        }
    }
    for y in 0..10i64 {
        for x in 0..10i64 {
            let i = (y * 10 + x) as usize;
            if (x - 5).abs() <= 1 && (y - 5).abs() <= 1 {
                continue;
            }
            assert_eq!(b.energy.r[i], 0);
        }
    }
    // The center relaxed toward its (empty) neighborhood.
    assert!(b.energy.r[center] < 100 * SCALE);
    // Relaxation redistributes; up to rounding the total is conserved.
    let after_total = b.total_energy();
    assert!((before_total - after_total).abs() < 1024);
}

#[test]
fn isolated_border_cell_keeps_energy() {
    // A 1x1 grid has no neighbors at all: the weight sum is zero and the
    // defined fallback leaves the energy untouched.
    let mut b = Board::new(Point::new(0, 0), 1, 1, 0);
    b.energy.r[0] = 777;
    b.conductivity.r[0] = SCALE;
    b.update(SCALE);
    assert_eq!(b.energy.r[0], 777);
    assert_eq!(b.total_energy(), 777);
}

#[test]
fn update_records_total_of_new_generation() {
    let mut b = Board::new(Point::new(0, 0), 12, 7, 13);
    b.update(51);
    let total: i128 = b.energy.r.iter().map(|&e| e as i128).sum();
    assert_eq!(b.total_energy(), total);
}

#[test]
fn tile_at_maps_world_positions_to_cells() {
    let b = Board::new(Point::new(0, 0), 10, 10, 2);
    assert_eq!(b.tile_at(Point::new(0, 0)), Some(Point::new(0usize, 0usize)));
    assert_eq!(
        b.tile_at(Point::new(5 * SCALE, 9 * SCALE)),
        Some(Point::new(5usize, 9usize))
    );
    // Half a cell to the left of the anchor still lands in cell 0.
    assert_eq!(
        b.tile_at(Point::new(-SCALE / 2, 0)),
        Some(Point::new(0usize, 0usize))
    );
    assert_eq!(b.tile_at(Point::new(-SCALE, 0)), None);
    assert_eq!(b.tile_at(Point::new(10 * SCALE, 0)), None);
}

#[test]
fn tile_at_respects_board_anchor() {
    let b = Board::new(Point::new(3 * SCALE, 3 * SCALE), 4, 4, 2);
    assert_eq!(b.tile_at(Point::new(0, 0)), None);
    assert_eq!(
        b.tile_at(Point::new(3 * SCALE, 3 * SCALE)),
        Some(Point::new(0usize, 0usize))
    );
}

#[test]
fn diffusion_exact_two_cells() {
    // Two cells, full conductivity: each cell's neighborhood average is the
    // other cell's energy, so with dt of one second they trade energies,
    // and with half a second they meet in the middle.
    let mut b = Board::new(Point::new(0, 0), 2, 1, 0);
    b.conductivity.r[0] = SCALE;
    b.conductivity.r[1] = SCALE;
    b.energy.r[0] = 0;
    b.energy.r[1] = 10 * SCALE;
    b.update(SCALE);
    assert_eq!(b.energy.r, vec![10 * SCALE, 0]);
    // The write half now holds the previous generation.
    assert_eq!(b.energy.w, vec![0, 10 * SCALE]);
    b.update(SCALE / 2);
    assert_eq!(b.energy.r, vec![5 * SCALE, 5 * SCALE]);
    assert_eq!(b.total_energy(), (10 * SCALE) as i128);
}
