use space_travel::texture::{CubeFace, Skybox, Texture};

/// A 3x2 texture whose texel (x, y) has red = 10*y + x, green = 100 + x,
/// blue = 200 + y, alpha = 255.
fn texture() -> Texture {
    let mut data = Vec::new();
    for y in 0..2u8 {
        for x in 0..3u8 {
            data.extend_from_slice(&[10 * y + x, 100 + x, 200 + y, 255]);
        }
    }
    Texture::from_rgba(data, 3, 2).unwrap()
}

#[test]
fn from_rgba_checks_the_length() {
    assert!(Texture::from_rgba(vec![0; 24], 3, 2).is_some());
    assert!(Texture::from_rgba(vec![0; 23], 3, 2).is_none());
    assert!(Texture::from_rgba(vec![0; 25], 3, 2).is_none());
    assert!(Texture::from_rgba(Vec::new(), 0, 7).is_some());
}

#[test]
fn dimensions_and_data() {
    let t = texture();
    assert_eq!(t.width(), 3);
    assert_eq!(t.height(), 2);
    assert_eq!(t.data().len(), 24);
    assert_eq!(&t.data()[4..8], &[1, 101, 200, 255]);
}

#[test]
fn get_pixel_reads_rgb() {
    let t = texture();
    assert_eq!(t.get_pixel(0, 0), (0, 100, 200));
    assert_eq!(t.get_pixel(2, 0), (2, 102, 200));
    assert_eq!(t.get_pixel(1, 1), (11, 101, 201));
}

#[test]
fn sample_clamps_to_the_last_texel() {
    let t = texture();
    assert_eq!(t.sample(1, 0), (1, 101, 200));
    assert_eq!(t.sample(3, 0), (2, 102, 200));
    assert_eq!(t.sample(u32::MAX, u32::MAX), (12, 102, 201));
}

#[test]
fn sample_bilinear_gives_the_four_neighbours() {
    let t = texture();
    assert_eq!(
        t.sample_bilinear(0, 0),
        [(0, 100, 200), (1, 101, 200), (10, 100, 201), (11, 101, 201)]
    );
}

#[test]
fn sample_bilinear_clamps_at_the_edges() {
    let t = texture();
    assert_eq!(
        t.sample_bilinear(2, 1),
        [(12, 102, 201), (12, 102, 201), (12, 102, 201), (12, 102, 201)]
    );
}

fn skybox() -> Skybox {
    let face = |v: u8| Texture::from_rgba(vec![v, v, v, 255], 1, 1).unwrap();
    Skybox::new(face(1), face(2), face(3), face(4), face(5), face(6))
}

#[test]
fn face_returns_the_matching_texture() {
    let s = skybox();
    let faces = [
        CubeFace::Right,
        CubeFace::Left,
        CubeFace::Top,
        CubeFace::Bottom,
        CubeFace::Front,
        CubeFace::Back,
    ];
    for (i, f) in faces.iter().enumerate() {
        let v = i as u8 + 1;
        assert_eq!(s.face(*f).get_pixel(0, 0), (v, v, v));
    }
}

#[test]
fn select_face_takes_the_largest_axis() {
    assert_eq!(Skybox::select_face(9, 3, 4, true, false, false), CubeFace::Right);
    assert_eq!(Skybox::select_face(9, 3, 4, false, true, true), CubeFace::Left);
    assert_eq!(Skybox::select_face(1, 8, 4, false, true, false), CubeFace::Top);
    assert_eq!(Skybox::select_face(1, 8, 4, true, false, true), CubeFace::Bottom);
    assert_eq!(Skybox::select_face(1, 2, 4, true, true, true), CubeFace::Front);
    assert_eq!(Skybox::select_face(1, 2, 4, true, true, false), CubeFace::Back);
}

#[test]
fn select_face_breaks_ties_x_then_y() {
    assert_eq!(Skybox::select_face(5, 5, 5, true, true, true), CubeFace::Right);
    assert_eq!(Skybox::select_face(2, 5, 5, true, false, true), CubeFace::Bottom);
    assert_eq!(Skybox::select_face(5, 2, 5, false, true, true), CubeFace::Left);
}

fn face_of(x: f32, y: f32, z: f32) -> CubeFace {
    Skybox::face_for_direction(x.to_bits(), y.to_bits(), z.to_bits())
}

#[test]
fn face_for_direction_follows_the_largest_component() {
    assert_eq!(face_of(1.0, 0.5, -0.2), CubeFace::Right);
    assert_eq!(face_of(-3.0, 1.0, 2.0), CubeFace::Left);
    assert_eq!(face_of(0.3, 0.9, -0.9), CubeFace::Top);
    assert_eq!(face_of(0.0, -1.0, 0.0), CubeFace::Bottom);
    assert_eq!(face_of(0.1, 0.2, 5.0), CubeFace::Front);
    assert_eq!(face_of(0.1, 0.2, -5.0), CubeFace::Back);
    assert_eq!(face_of(1.0, 1.0, 1.0), CubeFace::Right);
    assert_eq!(face_of(1.0e-30, -1.0e30, 2.0e29), CubeFace::Bottom);
}

#[test]
fn face_for_direction_of_zero_and_infinity() {
    assert_eq!(face_of(0.0, 0.0, 0.0), CubeFace::Left);
    assert_eq!(face_of(-0.0, 0.0, 0.0), CubeFace::Left);
    assert_eq!(face_of(f32::INFINITY, 1.0, 1.0), CubeFace::Right);
    assert_eq!(face_of(1.0, f32::NEG_INFINITY, 2.0), CubeFace::Bottom);
}

#[test]
fn face_for_direction_with_nan_takes_the_z_axis() {
    assert_eq!(face_of(f32::NAN, 0.0, 0.5), CubeFace::Front);
    assert_eq!(face_of(9.0, f32::NAN, -0.5), CubeFace::Back);
    assert_eq!(face_of(9.0, 1.0, f32::NAN), CubeFace::Back);
}
