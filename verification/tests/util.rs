use gridsim::point::Point;
use gridsim::swap_buffer::SwapBuffer;
use gridsim::timer::Timer;
use gridsim::view::{BoardSlice, BoardView};

#[test]
fn point_constructors_and_index() {
    let p = Point::new(3usize, 4usize);
    assert_eq!(p.x, 3);
    assert_eq!(p.y, 4);
    assert_eq!(p.index(10), 43);
    assert_eq!(Point::<usize>::zero(), Point::new(0usize, 0usize));
    assert_eq!(Point::<i64>::zero(), Point::new(0i64, 0i64));
}

#[test]
fn point_abs_min_max_clamp() {
    let p = Point::new(-5i64, 7i64);
    assert_eq!(p.abs(), Point::new(5i64, 7i64));
    let q = Point::new(2i64, 9i64);
    assert_eq!(p.min(q), Point::new(-5i64, 7i64));
    assert_eq!(p.max(q), Point::new(2i64, 9i64));
    assert_eq!(
        p.clamp_usize(Point::new(4usize, 4usize)),
        Point::new(0usize, 4usize)
    );
    assert_eq!(
        Point::new(3i64, 2i64).clamp_usize(Point::new(4usize, 4usize)),
        Point::new(3usize, 2usize)
    );
    let a = Point::new(9usize, 1usize);
    let b = Point::new(2usize, 8usize);
    assert_eq!(a.min(b), Point::new(2usize, 1usize));
    assert_eq!(a.max(b), Point::new(9usize, 8usize));
}

#[test]
fn swap_buffer_roles_and_cells() {
    let mut sb = SwapBuffer::from_arr(vec![10i64, 20, 30], 3);
    assert_eq!(sb.r, vec![10, 20, 30]);
    assert_eq!(sb.w, vec![10, 20, 30]);
    sb.w[0] = 99;
    sb.swap();
    assert_eq!(sb.r, vec![99, 20, 30]);
    assert_eq!(sb.w, vec![10, 20, 30]);
    sb.swap_cells(0, 2);
    assert_eq!(sb.r, vec![30, 20, 99]);
    sb.swap_cells(0, 2);
    assert_eq!(sb.r, vec![99, 20, 30]);
}

#[test]
fn board_slice_derives_its_fields() {
    let s = BoardSlice::new(Point::new(0i64, 0i64), Point::new(2usize, 3usize), Point::new(7usize, 9usize));
    assert_eq!(s.width, 5);
    assert_eq!(s.height, 6);
    assert_eq!(s.size, 30);
    let e = BoardSlice::empty();
    assert_eq!(e.size, 0);
    let v = BoardView::empty();
    assert_eq!(v.slice.size, 0);
    assert!(v.energy.is_empty());
}

#[test]
fn timer_average_is_exact() {
    let mut t = Timer::new(4);
    assert_eq!(t.avg(), 0);
    t.push(100);
    t.push(200);
    t.push(300);
    t.push(400);
    assert_eq!(t.avg(), 250);
    // A fifth sample overwrites the oldest slot.
    t.push(500);
    assert_eq!(t.avg(), (500 + 200 + 300 + 400) / 4);
}

#[test]
fn timer_start_stop_records_a_sample() {
    let mut t = Timer::new(1);
    t.start();
    t.stop();
    // One measurement was recorded; stopping again without starting
    // records nothing further.
    t.stop();
    let _ = t.avg();
}
