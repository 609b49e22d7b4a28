use gridsim::board::Board;
use gridsim::point::Point;
use gridsim::SCALE;
use rand::SeedableRng;
use rand_chacha::ChaCha8Rng;

const W: usize = 105;
const H: usize = 63;

#[test]
fn same_seed_gives_identical_mazes() {
    let mut a = Board::new(Point::new(0, 0), W, H, 4);
    let mut b = Board::new(Point::new(0, 0), W, H, 4);
    a.generate_maze(69);
    b.generate_maze(69);
    assert_eq!(a.connex_numbers.r, b.connex_numbers.r);
    assert_eq!(a.conductivity.r, b.conductivity.r);
    assert_eq!(a.stability.r, b.stability.r);
    assert_eq!(a.reactivity.r, b.reactivity.r);
    assert_eq!(a.energy.r, b.energy.r);
    assert_eq!(a.alpha.r, b.alpha.r);
    assert_eq!(a.beta.r, b.beta.r);
    assert_eq!(a.gamma.r, b.gamma.r);
    assert_eq!(a.delta.r, b.delta.r);
    assert_eq!(a.omega.r, b.omega.r);
}

#[test]
fn different_seeds_differ() {
    let mut a = Board::new(Point::new(0, 0), W, H, 4);
    let mut b = Board::new(Point::new(0, 0), W, H, 4);
    a.generate_maze(1);
    b.generate_maze(2);
    assert_ne!(a.stability.r, b.stability.r);
}

#[test]
fn maze_places_a_forge() {
    let mut b = Board::new(Point::new(0, 0), W, H, 4);
    b.generate_maze(69);
    let forge_cells: Vec<usize> = (0..W * H)
        .filter(|&i| gridsim::bits::get_bit(b.delta.r[i], gridsim::bits::FLAG_FORGE))
        .collect();
    assert_eq!(forge_cells.len(), 1);
    let f = forge_cells[0];
    assert_eq!(b.stability.r[f], 0);
    assert_eq!(b.reactivity.r[f], SCALE);
    assert_eq!(b.connex_numbers.r[f], 200);
}

#[test]
fn carve_reaches_every_open_cell_of_the_region() {
    let mut b = Board::new(Point::new(0, 0), W, H, 4);
    let mut rng = ChaCha8Rng::seed_from_u64(69);
    let (xo, yo, mw, mh) = (10usize, 5usize, W / 7, H / 7);
    b.fill_region(&mut rng, xo, yo, mw, mh);
    let start = b.carve_passages(&mut rng, xo, yo, mw, mh);

    // Flood-fill over open cells from the carve's start.
    let mut seen = vec![false; W * H];
    let mut stack = vec![start];
    seen[start] = true;
    while let Some(c) = stack.pop() {
        let (x, y) = (c % W, c / W);
        let mut nbs = Vec::new();
        if x + 1 < W {
            nbs.push(c + 1);
        }
        if x >= 1 {
            nbs.push(c - 1);
        }
        if y + 1 < H {
            nbs.push(c + W);
        }
        if y >= 1 {
            nbs.push(c - W);
        }
        for n in nbs {
            if !seen[n] && b.stability.r[n] == 0 {
                seen[n] = true;
                stack.push(n);
            }
        }
    }
    let mut open_in_region = 0;
    for y in yo..yo + mh {
        for x in xo..xo + mw {
            let i = y * W + x;
            if b.stability.r[i] == 0 {
                open_in_region += 1;
                assert!(seen[i], "open cell ({x},{y}) not reached from the start");
            }
        }
    }
    assert!(open_in_region > 1);
}

#[test]
fn maze_leaves_the_rest_of_the_grid_alone() {
    let fresh = Board::new(Point::new(0, 0), W, H, 4);
    let mut b = Board::new(Point::new(0, 0), W, H, 4);
    b.generate_maze(69);
    let (mw, mh) = (W / 7, H / 7);
    // Find the region by looking for changed stability cells.
    let changed: Vec<usize> = (0..W * H)
        .filter(|&i| {
            b.stability.r[i] != fresh.stability.r[i]
                || b.connex_numbers.r[i] != fresh.connex_numbers.r[i]
                || b.energy.r[i] != fresh.energy.r[i]
        })
        .collect();
    assert!(!changed.is_empty());
    let min_x = changed.iter().map(|i| i % W).min().unwrap();
    let max_x = changed.iter().map(|i| i % W).max().unwrap();
    let min_y = changed.iter().map(|i| i / W).min().unwrap();
    let max_y = changed.iter().map(|i| i / W).max().unwrap();
    assert!(max_x - min_x < mw);
    assert!(max_y - min_y < mh);
    assert_eq!(b.conductivity.r, fresh.conductivity.r);
}

#[test]
fn reachability_test_finds_and_rejects_paths() {
    let mut b = Board::new(Point::new(0, 0), W, H, 4);
    // Open corridor on row 0, columns 0..=5; everything else walled.
    for i in 0..W * H {
        b.stability.r[i] = SCALE;
    }
    for x in 1..=5usize {
        b.stability.r[x] = 0;
    }
    // Cell 0 is a candidate door (still solid); door at cell 5 is open and
    // connected through the corridor.
    assert!(b.has_valid_path(0, &vec![5]));
    // A door behind walls is not reached.
    assert!(!b.has_valid_path(0, &vec![3 * W + 3]));
    // No doors at all: nothing to reach.
    assert!(!b.has_valid_path(0, &vec![]));
}

#[test]
fn maze_room_structure() {
    let mut b = Board::new(Point::new(0, 0), W, H, 4);
    b.generate_maze(69);
    let forge_word: u64 = (1 << 63) | (1 << 10) | (1 << 4) | (1 << 3);
    let f = (0..W * H)
        .find(|&i| gridsim::bits::get_bit(b.delta.r[i], gridsim::bits::FLAG_FORGE))
        .unwrap();
    assert_eq!(b.delta.r[f], forge_word);
    assert_eq!(b.energy.r[f], 0);
    assert_eq!(b.alpha.r[f], 0);
    let (cx, cy) = (f % W, f / W);
    // Interior of the 11x5 room (forge aside) is fully cleared.
    for dy in -2i64..=2 {
        for dx in -5i64..=5 {
            let i = ((cy as i64 + dy) * W as i64 + cx as i64 + dx) as usize;
            if i == f {
                continue;
            }
            assert_eq!(b.stability.r[i], 0);
            assert_eq!(b.connex_numbers.r[i], 0);
            assert_eq!(b.energy.r[i], 0);
            assert_eq!(b.delta.r[i], 0);
            assert_eq!(b.alpha.r[i], 0);
        }
    }
    // The border ring is solid walls except for at most two opened doors.
    let mut open_doors = 0;
    for dy in -3i64..=3 {
        for dx in -6i64..=6 {
            if dx.abs() != 6 && dy.abs() != 3 {
                continue;
            }
            let i = ((cy as i64 + dy) * W as i64 + cx as i64 + dx) as usize;
            let solid = gridsim::bits::get_bit(b.delta.r[i], gridsim::bits::FLAG_SOLID);
            if b.stability.r[i] == 0 {
                assert!(!solid);
                open_doors += 1;
            } else {
                assert_eq!(b.stability.r[i], SCALE);
                assert!(solid);
            }
        }
    }
    assert!(open_doors <= 2);
}
