use space_travel::framebuffer::DepthBuffer;

const FAR: u32 = 1000;

#[test]
fn new_buffer_is_far_everywhere() {
    let buf = DepthBuffer::new(4, 3, FAR);
    assert_eq!(buf.width(), 4);
    assert_eq!(buf.height(), 3);
    assert_eq!(buf.len(), 12);
    for i in 0..12 {
        assert_eq!(buf.depth_at(i), FAR);
    }
}

#[test]
fn index_of_is_row_major() {
    let buf = DepthBuffer::new(4, 3, FAR);
    assert_eq!(buf.index_of(0, 0), Some(0));
    assert_eq!(buf.index_of(3, 0), Some(3));
    assert_eq!(buf.index_of(1, 2), Some(9));
    assert_eq!(buf.index_of(3, 2), Some(11));
}

#[test]
fn index_of_outside_is_none() {
    let buf = DepthBuffer::new(4, 3, FAR);
    assert_eq!(buf.index_of(4, 0), None);
    assert_eq!(buf.index_of(0, 3), None);
    assert_eq!(buf.index_of(-1, 1), None);
    assert_eq!(buf.index_of(1, -1), None);
}

#[test]
fn nearer_opaque_fragment_passes_and_writes() {
    let mut buf = DepthBuffer::new(4, 3, FAR);
    assert_eq!(buf.test_and_set(2, 1, 10, true), Some(6));
    assert_eq!(buf.depth_at(6), 10);
    assert_eq!(buf.depth_at(5), FAR);
}

#[test]
fn transparent_fragment_passes_without_writing() {
    let mut buf = DepthBuffer::new(4, 3, FAR);
    assert_eq!(buf.test_and_set(2, 1, 10, false), Some(6));
    assert_eq!(buf.depth_at(6), FAR);
}

#[test]
fn equal_or_farther_fragment_is_rejected() {
    let mut buf = DepthBuffer::new(4, 3, FAR);
    assert_eq!(buf.test_and_set(0, 0, 50, true), Some(0));
    assert_eq!(buf.test_and_set(0, 0, 50, true), None);
    assert_eq!(buf.test_and_set(0, 0, 70, false), None);
    assert_eq!(buf.depth_at(0), 50);
    assert_eq!(buf.test_and_set(0, 0, 49, true), Some(0));
    assert_eq!(buf.depth_at(0), 49);
}

#[test]
fn fragment_outside_is_rejected() {
    let mut buf = DepthBuffer::new(4, 3, FAR);
    assert_eq!(buf.test_and_set(-1, 0, 0, true), None);
    assert_eq!(buf.test_and_set(4, 2, 0, true), None);
    for i in 0..12 {
        assert_eq!(buf.depth_at(i), FAR);
    }
}

#[test]
fn opaque_fragment_occludes_later_ones() {
    let mut buf = DepthBuffer::new(2, 2, FAR);
    assert!(buf.test_and_set(1, 1, 20, true).is_some());
    // Other fragments elsewhere, and transparent ones here, change nothing here.
    assert!(buf.test_and_set(0, 1, 5, true).is_some());
    assert!(buf.test_and_set(1, 1, 15, false).is_some());
    assert_eq!(buf.test_and_set(1, 1, 20, true), None);
    assert_eq!(buf.test_and_set(1, 1, 400, true), None);
}

#[test]
fn clear_resets_every_pixel() {
    let mut buf = DepthBuffer::new(3, 2, FAR);
    buf.test_and_set(0, 0, 1, true);
    buf.test_and_set(2, 1, 2, true);
    buf.clear(77);
    for i in 0..6 {
        assert_eq!(buf.depth_at(i), 77);
    }
    assert_eq!(buf.width(), 3);
    assert_eq!(buf.height(), 2);
}

#[test]
fn empty_buffer_has_no_pixel() {
    let mut buf = DepthBuffer::new(0, 5, FAR);
    assert_eq!(buf.len(), 0);
    assert_eq!(buf.test_and_set(0, 0, 1, true), None);
}
