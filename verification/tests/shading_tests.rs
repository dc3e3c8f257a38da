use space_travel::shading::{fragment_shader, stripe_palettes, PlanetShader, STRIPE_PALETTES};

#[test]
fn shader_modes_pick_their_shader() {
    assert_eq!(fragment_shader(1), PlanetShader::CraterHybrid);
    assert_eq!(fragment_shader(2), PlanetShader::Gaseous);
    assert_eq!(fragment_shader(3), PlanetShader::Strawberry);
    assert_eq!(fragment_shader(4), PlanetShader::Torus);
    assert_eq!(fragment_shader(5), PlanetShader::RedPlanet);
    assert_eq!(fragment_shader(6), PlanetShader::StarFlares);
}

#[test]
fn unknown_modes_draw_craters() {
    assert_eq!(fragment_shader(0), PlanetShader::CraterHybrid);
    assert_eq!(fragment_shader(99), PlanetShader::CraterHybrid);
    assert_eq!(fragment_shader(-3), PlanetShader::CraterHybrid);
}

#[test]
fn stripe_palettes_cycle_each_second() {
    assert_eq!(STRIPE_PALETTES, 5);
    assert_eq!(stripe_palettes(0), (0, 1));
    assert_eq!(stripe_palettes(3), (3, 4));
    assert_eq!(stripe_palettes(4), (4, 0));
    assert_eq!(stripe_palettes(12), (2, 3));
    assert_eq!(stripe_palettes(usize::MAX), (usize::MAX % 5, (usize::MAX % 5 + 1) % 5));
}
