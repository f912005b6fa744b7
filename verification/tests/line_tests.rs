use rasterizer::line::plot_line;

fn check_path(pts: &[(i32, i32)], x0: i32, y0: i32, x1: i32, y1: i32) {
    assert_eq!(pts.first(), Some(&(x0, y0)));
    assert_eq!(pts.last(), Some(&(x1, y1)));
    for w in pts.windows(2) {
        let (p, q) = (w[0], w[1]);
        assert_ne!(p, q);
        // One pixel at most per axis, each axis only toward the target.
        let step_x = q.0 - p.0;
        let step_y = q.1 - p.1;
        assert!(step_x == 0 || step_x == (x1 - p.0).signum());
        assert!(step_y == 0 || step_y == (y1 - p.1).signum());
    }
}

#[test]
fn single_point_line() {
    assert_eq!(plot_line(3, 4, 3, 4), vec![(3, 4)]);
}

#[test]
fn horizontal_line() {
    assert_eq!(plot_line(0, 2, 3, 2), vec![(0, 2), (1, 2), (2, 2), (3, 2)]);
}

#[test]
fn vertical_line() {
    assert_eq!(plot_line(1, 0, 1, -3), vec![(1, 0), (1, -1), (1, -2), (1, -3)]);
}

#[test]
fn diagonal_line() {
    assert_eq!(plot_line(0, 0, 3, 3), vec![(0, 0), (1, 1), (2, 2), (3, 3)]);
}

#[test]
fn shallow_line_steps_match_the_midpoint_rule() {
    assert_eq!(plot_line(0, 0, 3, 1), vec![(0, 0), (1, 0), (2, 1), (3, 1)]);
}

#[test]
fn steep_line_steps_match_the_midpoint_rule() {
    assert_eq!(
        plot_line(0, 0, 1, 5),
        vec![(0, 0), (0, 1), (0, 2), (1, 3), (1, 4), (1, 5)]
    );
}

#[test]
fn lines_are_monotone_lattice_paths() {
    let cases = [
        (0, 0, 7, 3),
        (0, 0, 3, 7),
        (-5, 2, 4, -6),
        (10, 10, -10, 3),
        (0, 0, 1, 5),
        (2, 2, 2, 9),
    ];
    for &(x0, y0, x1, y1) in &cases {
        let pts = plot_line(x0, y0, x1, y1);
        check_path(&pts, x0, y0, x1, y1);
        assert!(pts.len() <= 1 + (x1 - x0).unsigned_abs() as usize + (y1 - y0).unsigned_abs() as usize);
    }
}
