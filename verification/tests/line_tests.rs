
#[test]
fn line_shallow_slope_rounds_to_nearest_row() {
    assert_eq!(space_travel::line::line(0, 0, 5, 2), vec![(0, 0), (1, 0), (2, 1), (3, 1), (4, 2), (5, 2)]);
}

#[test]
fn line_walks_towards_negative_coordinates() {
    assert_eq!(space_travel::line::line(3, 4, -2, 1), vec![(3, 4), (2, 3), (1, 3), (0, 2), (-1, 2), (-2, 1)]);
}

#[test]
fn line_of_one_point() {
    assert_eq!(space_travel::line::line(7, -9, 7, -9), vec![(7, -9)]);
}

#[test]
fn line_vertical() {
    assert_eq!(
        space_travel::line::line(2, -3, 2, 4),
        vec![(2, -3), (2, -2), (2, -1), (2, 0), (2, 1), (2, 2), (2, 3), (2, 4)]
    );
}

#[test]
fn line_horizontal_backwards() {
    assert_eq!(space_travel::line::line(4, 1, 1, 1), vec![(4, 1), (3, 1), (2, 1), (1, 1)]);
}

#[test]
fn line_diagonal() {
    assert_eq!(space_travel::line::line(0, 0, -4, -4), vec![(0, 0), (-1, -1), (-2, -2), (-3, -3), (-4, -4)]);
}

#[test]
fn line_half_way_rounds_up() {
    // Half way along, the ideal line sits exactly between two rows.
    assert_eq!(
        space_travel::line::line(-1, 0, 6, 1),
        vec![(-1, 0), (0, 0), (1, 0), (2, 0), (3, 1), (4, 1), (5, 1), (6, 1)]
    );
}

#[test]
fn line_steep() {
    assert_eq!(space_travel::line::line(0, 0, 1, 6), vec![(0, 0), (0, 1), (0, 2), (1, 3), (1, 4), (1, 5), (1, 6)]);
}

#[test]
fn line_at_the_ends_of_the_i32_range() {
    assert_eq!(
        space_travel::line::line(i32::MAX - 2, i32::MIN, i32::MAX, i32::MIN + 1),
        vec![(i32::MAX - 2, i32::MIN), (i32::MAX - 1, i32::MIN + 1), (i32::MAX, i32::MIN + 1)]
    );
}

fn lines_to_check() -> Vec<(i32, i32, i32, i32)> {
    let mut v = Vec::new();
    for x1 in -9..=9 {
        for y1 in -9..=9 {
            v.push((1, -2, x1, y1));
        }
    }
    v
}

#[test]
fn line_starts_and_ends_at_its_end_points() {
    for (x0, y0, x1, y1) in lines_to_check() {
        let pts = space_travel::line::line(x0, y0, x1, y1);
        assert_eq!(pts[0], (x0, y0));
        assert_eq!(*pts.last().unwrap(), (x1, y1));
        let steps = (x1 - x0).abs().max((y1 - y0).abs());
        assert_eq!(pts.len(), steps as usize + 1);
    }
}

#[test]
fn line_steps_are_adjacent_and_distinct() {
    for (x0, y0, x1, y1) in lines_to_check() {
        let pts = space_travel::line::line(x0, y0, x1, y1);
        for w in pts.windows(2) {
            let (a, b) = (w[0], w[1]);
            assert!(a != b);
            assert!((b.0 - a.0).abs() <= 1 && (b.1 - a.1).abs() <= 1);
            assert!((x1 - b.0).abs() <= (x1 - a.0).abs());
            assert!((y1 - b.1).abs() <= (y1 - a.1).abs());
        }
        for i in 0..pts.len() {
            for j in (i + 1)..pts.len() {
                assert!(pts[i] != pts[j]);
            }
        }
    }
}

#[test]
fn line_stays_within_half_a_pixel_of_the_ideal_line() {
    for (x0, y0, x1, y1) in lines_to_check() {
        let steps = (x1 - x0).abs().max((y1 - y0).abs());
        for (px, py) in space_travel::line::line(x0, y0, x1, y1) {
            let cross = (px - x0) * (y1 - y0) - (py - y0) * (x1 - x0);
            assert!(2 * cross.abs() <= steps);
        }
    }
}
