//! How the layouts cut up an area.
use alice_wm::animation::shrink_target;
use alice_wm::layout::{fib, Fibonacci, Layout, MasterStack, Phase, Rect, Tablet};
use alice_wm::window::WindowId;

fn rect(x: i32, y: i32, width: i32, height: i32) -> Rect {
    Rect { x, y, width, height }
}

fn ids(n: u64) -> Vec<WindowId> {
    (0..n).map(WindowId).collect()
}

#[test]
fn layouts_have_their_names() {
    assert_eq!(MasterStack.name(), "MasterStack");
    assert_eq!(Tablet.name(), "Tablet");
    assert_eq!(Fibonacci.name(), "Fibonacci");
}

#[test]
fn no_window_gets_no_tile() {
    let area = rect(10, 20, 300, 200);
    assert_eq!(MasterStack.arrange_horizontal(area, &ids(0), 10), Vec::new());
    assert_eq!(MasterStack.arrange_vertical(area, &ids(0), 10), Vec::new());
    assert_eq!(Tablet.arrange_horizontal(area, &ids(0), 10), Vec::new());
    assert_eq!(Tablet.arrange_vertical(area, &ids(0), 10), Vec::new());
    assert_eq!(Fibonacci.arrange_horizontal(area, &ids(0), 10), Vec::new());
    assert_eq!(Fibonacci.arrange_vertical(area, &ids(0), 10), Vec::new());
}

#[test]
fn a_single_window_fills_the_area() {
    let area = rect(10, 20, 300, 200);
    assert_eq!(MasterStack.arrange_horizontal(area, &ids(1), 10), vec![area]);
    assert_eq!(MasterStack.arrange_vertical(area, &ids(1), 10), vec![area]);
    assert_eq!(Tablet.arrange_horizontal(area, &ids(1), 10), vec![area]);
    assert_eq!(Tablet.arrange_vertical(area, &ids(1), 10), vec![area]);
    assert_eq!(Fibonacci.arrange_horizontal(area, &ids(1), 10), vec![area]);
    assert_eq!(Fibonacci.arrange_vertical(area, &ids(1), 10), vec![area]);
}

#[test]
fn master_stack_halves_the_longer_side() {
    assert_eq!(
        MasterStack.arrange_horizontal(rect(0, 0, 100, 60), &ids(3), 10),
        vec![rect(0, 0, 40, 60), rect(50, 0, 50, 30), rect(50, 40, 50, 20)],
    );
    assert_eq!(
        MasterStack.arrange_vertical(rect(0, 0, 60, 100), &ids(3), 10),
        vec![rect(0, 0, 60, 40), rect(0, 50, 30, 50), rect(40, 50, 20, 50)],
    );
    assert_eq!(
        MasterStack.arrange_horizontal(rect(15, 15, 1890, 1050), &ids(4), 15),
        vec![
            rect(15, 15, 930, 1050),
            rect(960, 15, 945, 350),
            rect(960, 380, 945, 335),
            rect(960, 730, 945, 335),
        ],
    );
}

#[test]
fn tablet_gives_three_quarters_to_the_first() {
    assert_eq!(
        Tablet.arrange_horizontal(rect(0, 0, 100, 60), &ids(2), 10),
        vec![rect(0, 0, 65, 60), rect(75, 0, 25, 60)],
    );
    assert_eq!(
        Tablet.arrange_vertical(rect(5, 7, 60, 101), &ids(3), 10),
        vec![rect(5, 7, 60, 65), rect(5, 82, 30, 26), rect(45, 82, 20, 26)],
    );
}

#[test]
fn fibonacci_turns_clockwise() {
    assert_eq!(
        Fibonacci.arrange_horizontal(rect(0, 0, 100, 60), &ids(3), 10),
        vec![rect(0, 0, 52, 60), rect(62, 0, 38, 27), rect(62, 37, 38, 23)],
    );
    assert_eq!(
        Fibonacci.arrange_horizontal(rect(0, 0, 100, 60), &ids(5), 10),
        vec![
            rect(0, 0, 52, 60),
            rect(62, 0, 38, 27),
            rect(85, 37, 15, 23),
            rect(62, 51, 13, 9),
            rect(62, 37, 13, 4),
        ],
    );
    assert_eq!(
        Fibonacci.arrange_vertical(rect(0, 0, 60, 100), &ids(2), 10),
        vec![rect(0, 0, 60, 52), rect(0, 62, 60, 38)],
    );
}

#[test]
fn fibonacci_phases_follow_each_other() {
    assert!(Phase::Right.next() == Phase::Down);
    assert!(Phase::Down.next() == Phase::Left);
    assert!(Phase::Left.next() == Phase::Up);
    assert!(Phase::Up.next() == Phase::Right);
    let mut out = vec![rect(9, 9, 9, 9)];
    fib(Phase::Up, rect(0, 0, 40, 100), 2, 0, &mut out);
    assert_eq!(out, vec![rect(9, 9, 9, 9), rect(0, 62, 40, 38), rect(0, 0, 40, 62)]);
}

#[test]
fn golden_cut_rounds_like_a_double() {
    let mut checked: u64 = 0;
    let mut width: i32 = 250;
    // Odd multiples of 250 are the lengths whose share lies half way
    // between two integers.
    while width < i32::MAX - 50_000 {
        for length in [width, -width] {
            let mut out = Vec::new();
            fib(Phase::Right, rect(0, 0, length, 1), 2, 0, &mut out);
            assert_eq!(out[0].width, (length as f64 * 0.618).round() as i32);
            checked += 1;
        }
        width += 49_500;
    }
    for length in -5_000..5_000 {
        let mut out = Vec::new();
        fib(Phase::Right, rect(0, 0, length, 1), 2, 0, &mut out);
        assert_eq!(out[0].width, (length as f64 * 0.618).round() as i32);
        checked += 1;
    }
    assert!(checked > 50_000);
}

#[test]
fn tiles_of_a_column_lie_apart() {
    let area = rect(0, 0, 1000, 600);
    let tiles = MasterStack.arrange_horizontal(area, &ids(4), 12);
    assert_eq!(tiles.len(), 4);
    for (i, a) in tiles.iter().enumerate() {
        for b in tiles.iter().skip(i + 1) {
            let apart = a.x + a.width + 12 <= b.x || a.y + a.height + 12 <= b.y;
            assert!(apart, "{:?} {:?}", a, b);
        }
    }
}

#[test]
fn tiles_of_a_spiral_stay_in_the_area() {
    let area = rect(0, 0, 1000, 600);
    let tiles = Fibonacci.arrange_horizontal(area, &ids(6), 0);
    let covered: i64 = tiles.iter().map(|t| t.width as i64 * t.height as i64).sum();
    assert_eq!(covered, 600_000);
    for tile in &tiles {
        assert!(tile.x >= 0 && tile.x + tile.width <= 1000);
        assert!(tile.y >= 0 && tile.y + tile.height <= 600);
    }
}

#[test]
fn gap_wider_than_the_lead_saturates() {
    assert_eq!(
        MasterStack.arrange_horizontal(rect(0, 0, 10, 10), &ids(2), 20),
        vec![rect(0, 0, -15, 10), rect(5, 0, 5, 10)],
    );
}

#[test]
fn placeholder_is_a_third_and_centered() {
    assert_eq!(shrink_target(rect(0, 0, 100, 200)), rect(32, 65, 35, 70));
    assert_eq!(shrink_target(rect(15, 15, 1890, 1050)), rect(629, 356, 662, 368));
    assert_eq!(shrink_target(rect(3, 4, 1, 1)), rect(3, 4, 1, 1));
    assert_eq!(shrink_target(rect(3, 4, 0, 0)), rect(3, 4, 1, 1));
    for length in 0..20_000 {
        let placed = shrink_target(rect(0, 0, length, length));
        assert_eq!(placed.width, ((length as f64 * 0.35).round() as i32).max(1));
    }
}
