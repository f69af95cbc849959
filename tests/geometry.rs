use cherta::geometry::{copy_points, ortho_matrix, smooth_points, Point, Ratio};

fn pt(x: i32, y: i32, t: u64) -> Point {
    Point { x, y, t }
}

fn px(v: f64) -> i32 {
    (v * 256.0).round() as i32
}

#[test]
fn smoothing_keeps_short_input() {
    assert_eq!(smooth_points(&[], 512), vec![]);
    assert_eq!(smooth_points(&[pt(1, 2, 3)], 512), vec![pt(1, 2, 3)]);
}

#[test]
fn smoothing_drops_close_points() {
    let input = [pt(px(10.0), px(10.0), 0), pt(px(10.0), px(10.5), 100), pt(px(10.0), px(13.0), 200)];
    let out = smooth_points(&input, px(2.0) as u32);
    assert_eq!(out, vec![pt(px(10.0), px(10.0), 0), pt(px(10.0), px(13.0), 200)]);
}

#[test]
fn smoothing_keeps_forced_endpoint() {
    let input = [pt(0, 0, 0), pt(1000, 0, 1), pt(1100, 0, 2)];
    let out = smooth_points(&input, 500);
    assert_eq!(out, vec![pt(0, 0, 0), pt(1000, 0, 1), pt(1100, 0, 2)]);
    let out = smooth_points(&[pt(0, 0, 0), pt(10, 0, 1), pt(20, 0, 2)], 500);
    assert_eq!(out, vec![pt(0, 0, 0), pt(20, 0, 2)]);
}

#[test]
fn smoothing_distance_is_inclusive() {
    // 3-4-5 triangle: exactly the threshold is kept
    let out = smooth_points(&[pt(0, 0, 0), pt(300, 400, 1), pt(301, 400, 2)], 500);
    assert_eq!(out, vec![pt(0, 0, 0), pt(300, 400, 1), pt(301, 400, 2)]);
    let out = smooth_points(&[pt(0, 0, 0), pt(300, 399, 1), pt(900, 900, 2)], 500);
    assert_eq!(out, vec![pt(0, 0, 0), pt(900, 900, 2)]);
}

#[test]
fn smoothing_laws_on_a_long_stroke() {
    let input: Vec<Point> = (0..50).map(|i| pt(i * 37 % 401, i * 91 % 257, i as u64)).collect();
    let d: u32 = 120;
    let out = smooth_points(&input, d);
    assert_eq!(out[0], input[0]);
    assert_eq!(*out.last().unwrap(), *input.last().unwrap());
    assert!(out.len() <= input.len());
    assert!(out.len() >= 2);
    for w in out[..out.len() - 1].windows(2) {
        let dx = (w[1].x - w[0].x) as i64;
        let dy = (w[1].y - w[0].y) as i64;
        assert!(dx * dx + dy * dy >= (d as i64) * (d as i64));
    }
}

#[test]
fn smoothing_zero_threshold_keeps_all() {
    let input = [pt(5, 5, 0), pt(5, 5, 1), pt(6, 5, 2)];
    assert_eq!(smooth_points(&input, 0), input.to_vec());
}

#[test]
fn smoothing_keeps_repeated_endpoint() {
    let a = pt(7, 7, 3);
    assert_eq!(smooth_points(&[a, pt(8, 7, 4), a], 512), vec![a, a]);
    let z = pt(0, 0, 0);
    assert_eq!(smooth_points(&[z, z], 512), vec![z, z]);
}

#[test]
fn smoothing_ignores_timestamps() {
    let a = smooth_points(&[pt(0, 0, 0), pt(0, 0, 0)], 512);
    let b = smooth_points(&[pt(0, 0, 0), pt(0, 0, 1)], 512);
    assert_eq!(a.len(), 2);
    assert_eq!(b.len(), 2);
}

#[test]
fn copy_points_copies() {
    let input = [pt(1, 2, 3), pt(4, 5, 6)];
    assert_eq!(copy_points(&input), input.to_vec());
}

fn value(r: Ratio) -> f64 {
    r.num as f64 / r.den as f64
}

fn project(m: &[Ratio; 16], x: f64, y: f64) -> (f64, f64) {
    let cx = value(m[0]) * x + value(m[4]) * y + value(m[12]);
    let cy = value(m[1]) * x + value(m[5]) * y + value(m[13]);
    (cx, cy)
}

#[test]
fn ortho_maps_corners() {
    let m = ortho_matrix(800, 600);
    assert_eq!(project(&m, 0.0, 0.0), (-1.0, 1.0));
    assert_eq!(project(&m, 800.0, 600.0), (1.0, -1.0));
    assert_eq!(project(&m, 400.0, 300.0), (0.0, 0.0));
}

#[test]
fn ortho_entries() {
    let m = ortho_matrix(800, 600);
    assert_eq!(m[0], Ratio { num: 2, den: 800 });
    assert_eq!(m[5], Ratio { num: -2, den: 600 });
    assert_eq!(m[10], Ratio { num: 1, den: 1 });
    assert_eq!(m[12], Ratio { num: -1, den: 1 });
    assert_eq!(m[13], Ratio { num: 1, den: 1 });
    assert_eq!(m[15], Ratio { num: 1, den: 1 });
    for i in [1, 2, 3, 4, 6, 7, 8, 9, 11, 14] {
        assert_eq!(value(m[i]), 0.0);
    }
}

#[test]
fn ortho_of_empty_surface_divides_by_zero() {
    let m = ortho_matrix(0, 0);
    assert_eq!(m[0], Ratio { num: 2, den: 0 });
    assert!(value(m[0]).is_infinite());
    assert!(value(m[5]).is_infinite());
}
