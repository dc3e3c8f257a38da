use space_travel::raster::{bounding_box_pixels, triangle_indices};

#[test]
fn bounding_box_scan_is_row_major() {
    assert_eq!(
        bounding_box_pixels(-1, 1, 4, 5),
        vec![(-1, 4), (0, 4), (1, 4), (-1, 5), (0, 5), (1, 5)]
    );
}

#[test]
fn bounding_box_of_one_pixel() {
    assert_eq!(bounding_box_pixels(3, 3, -2, -2), vec![(3, -2)]);
}

#[test]
fn empty_bounding_box() {
    assert!(bounding_box_pixels(2, 1, 0, 5).is_empty());
    assert!(bounding_box_pixels(0, 5, 2, 1).is_empty());
}

#[test]
fn bounding_box_visits_each_pixel_once() {
    let px = bounding_box_pixels(-2, 3, 1, 4);
    assert_eq!(px.len(), 6 * 4);
    for x in -2..=3 {
        for y in 1..=4 {
            assert_eq!(px.iter().filter(|p| **p == (x, y)).count(), 1);
        }
    }
}

#[test]
fn bounding_box_at_the_i32_limits() {
    assert_eq!(
        bounding_box_pixels(i32::MAX - 1, i32::MAX, i32::MIN, i32::MIN),
        vec![(i32::MAX - 1, i32::MIN), (i32::MAX, i32::MIN)]
    );
}

#[test]
fn triangles_group_three_vertices() {
    assert_eq!(triangle_indices(7), vec![[0, 1, 2], [3, 4, 5]]);
    assert_eq!(triangle_indices(6), vec![[0, 1, 2], [3, 4, 5]]);
    assert_eq!(triangle_indices(2), Vec::<[usize; 3]>::new());
    assert_eq!(triangle_indices(0), Vec::<[usize; 3]>::new());
}
