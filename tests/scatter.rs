use gravitate::random::{Point, Rand};
use gravitate::scatter::{Candidates, Generate, ScatterError};

fn dist2(a: Point, b: Point) -> i128 {
    let dx = (a.x - b.x) as i128;
    let dy = (a.y - b.y) as i128;
    dx * dx + dy * dy
}

#[test]
fn stars_scenario_places_all_points_apart() {
    let mut rand = Rand::new(1);
    let center = Point { x: 0, y: 1024 };
    let mut g = Generate::new(4096, 0, center);
    let points = g.generate(&mut rand, 500, 256, 50_000_000).expect("enough attempts");
    assert_eq!(points.len(), 500);
    assert_eq!(g.occupied_len(), 500);
    for (i, p) in points.iter().enumerate() {
        assert!(dist2(*p, center) < 4096 * 4096);
        for q in points.iter().skip(i + 1) {
            assert!(dist2(*p, *q) >= 256 * 256);
        }
    }
}

#[test]
fn generated_points_respect_inner_radius() {
    let mut rand = Rand::new(7);
    let center = Point { x: -300, y: 50 };
    let mut g = Generate::new(200, 100, center);
    let points = g.generate(&mut rand, 20, 10, 1_000_000).expect("enough attempts");
    assert_eq!(points.len(), 20);
    for p in &points {
        let d = dist2(*p, center);
        assert!(d >= 100 * 100 && d < 200 * 200);
    }
}

#[test]
fn later_calls_start_afresh() {
    let center = Point { x: 0, y: 0 };
    let mut reused = Generate::new(1000, 0, center);
    let mut first_draws = Rand::new(3);
    reused.generate(&mut first_draws, 10, 50, 1_000_000).unwrap();
    let mut a = Rand::new(4);
    let again = reused.generate(&mut a, 10, 20, 1_000_000).unwrap();
    let mut fresh = Generate::new(1000, 0, center);
    let mut b = Rand::new(4);
    let from_fresh = fresh.generate(&mut b, 10, 20, 1_000_000).unwrap();
    assert_eq!(again, from_fresh);
    assert_eq!(reused.occupied_len(), 10);
}

#[test]
fn second_call_may_reuse_the_space_of_the_first() {
    let mut rand = Rand::new(5);
    let mut g = Generate::new(10, 0, Point { x: 0, y: 0 });
    assert_eq!(g.generate(&mut rand, 1, 100, 1_000).unwrap().len(), 1);
    // the point of the first call no longer blocks the disk
    assert_eq!(g.generate(&mut rand, 1, 100, 1_000).unwrap().len(), 1);
    assert_eq!(g.occupied_len(), 1);
}

#[test]
fn exhausted_attempts_leave_nothing_occupied() {
    let mut rand = Rand::new(5);
    let mut g = Generate::new(10, 0, Point { x: 0, y: 0 });
    // only one point can keep 100 away inside a radius of 10
    let r = g.generate(&mut rand, 3, 100, 1_000);
    assert_eq!(r, Err(ScatterError::AttemptsExhausted));
    assert_eq!(g.occupied_len(), 0);
}

#[test]
fn zero_count_needs_no_attempt() {
    let mut rand = Rand::new(5);
    let mut g = Generate::new(10, 0, Point { x: 0, y: 0 });
    assert_eq!(g.generate(&mut rand, 0, 1, 0), Ok(vec![]));
    assert_eq!(g.generate(&mut rand, 1, 1, 0), Err(ScatterError::AttemptsExhausted));
}

#[test]
fn fewer_attempts_than_points_fails() {
    let mut rand = Rand::new(5);
    let mut g = Generate::new(1000, 0, Point { x: 0, y: 0 });
    assert_eq!(g.generate(&mut rand, 3, 1, 2), Err(ScatterError::AttemptsExhausted));
    assert_eq!(g.occupied_len(), 0);
}

#[test]
fn zero_radius_draws_the_origin() {
    let mut r = Rand::new(21);
    assert_eq!(r.disk_sample(0), Some(Point { x: 0, y: 0 }));
    assert_eq!(r.vec2(0, 3), Some(Point { x: 0, y: 0 }));
}

#[test]
fn place_checks_annulus_and_spacing() {
    let mut g = Generate::new(10, 2, Point { x: 100, y: 200 });
    // too near the centre
    assert_eq!(g.place(Point { x: 1, y: 1 }, 3), None);
    // on the outer radius: excluded
    assert_eq!(g.place(Point { x: 10, y: 0 }, 3), None);
    // on the inner radius: included
    assert_eq!(g.place(Point { x: 2, y: 0 }, 3), Some(Point { x: 102, y: 200 }));
    // 4 away from the first point, which asked for 3, but this one asks for 5
    assert_eq!(g.place(Point { x: 6, y: 0 }, 5), None);
    // exactly 5 away from the first point: accepted
    assert_eq!(g.place(Point { x: 7, y: 0 }, 5), Some(Point { x: 107, y: 200 }));
    assert_eq!(g.occupied_len(), 2);
}

#[test]
fn place_rejects_far_offsets_without_overflow() {
    let mut g = Generate::new(10, 0, Point { x: 0, y: 0 });
    assert_eq!(g.place(Point { x: i64::MIN, y: i64::MAX }, 1), None);
    assert_eq!(g.occupied_len(), 0);
}

#[test]
fn same_seed_gives_same_draws() {
    let mut a = Rand::new(42);
    let mut b = Rand::new(42);
    for _ in 0..10 {
        assert_eq!(a.next_u64(), b.next_u64());
        assert_eq!(a.next_u32(), b.next_u32());
        assert_eq!(a.random_range(-5, 5), b.random_range(-5, 5));
    }
    let mut x = [0u8; 16];
    let mut y = [0u8; 16];
    a.fill_bytes(&mut x);
    b.fill_bytes(&mut y);
    assert_eq!(x, y);
}

#[test]
fn random_range_stays_in_bounds() {
    let mut r = Rand::new(9);
    for _ in 0..1000 {
        let v = r.random_range(-3, 4);
        assert!((-3..=4).contains(&v));
    }
    assert_eq!(r.random_range(6, 6), 6);
}

#[test]
fn vec2_lies_in_disk() {
    let mut r = Rand::new(11);
    for _ in 0..1000 {
        let p = r.vec2(50, 64).expect("a draw lands in the disk");
        assert!(p.x * p.x + p.y * p.y <= 50 * 50);
    }
    assert_eq!(r.vec2(50, 0), None);
    assert_eq!(r.vec2(0, 1), Some(Point { x: 0, y: 0 }));
}

#[test]
fn uniform_candidates_lie_in_disk() {
    let mut r = Rand::new(13);
    let mut seen = 0;
    for _ in 0..1000 {
        if let Some(p) = r.candidate(30) {
            assert!(p.x * p.x + p.y * p.y <= 30 * 30);
            seen += 1;
        }
    }
    assert!(seen > 500);
}

#[test]
fn disk_membership_is_exact() {
    assert!(Point { x: 3, y: 4 }.is_in_disk(5));
    assert!(!Point { x: 3, y: 5 }.is_in_disk(5));
    assert!(!Point { x: i64::MIN, y: i64::MIN }.is_in_disk(u32::MAX));
    assert!(Point { x: 0, y: 0 }.is_in_disk(0));
}
