use vstd::prelude::*;

verus! {

/// The fragment shaders a planet can be drawn with.
#[derive(Clone, Copy, PartialEq, Eq, Structural, Debug)]
pub enum PlanetShader {
    /// Cratered rock with normal-mapped craters and bright rims.
    CraterHybrid,
    /// Gas giant: rotating colour stripes under drifting clouds.
    Gaseous,
    /// Strawberry: lumpy red base, golden seeds, green leaf cap.
    Strawberry,
    /// Torus ring.
    Torus,
    /// Red planet: terrain, dust storms, minerals, ice caps, glow.
    RedPlanet,
    /// Star surface with intensified flares.
    StarFlares,
}

/// The shader that shader mode `mode` stands for; every unknown mode draws
/// cratered rock.
pub open spec fn shader_for_mode(mode: i32) -> PlanetShader {
    if mode == 2 {
        PlanetShader::Gaseous
    } else if mode == 3 {
        PlanetShader::Strawberry
    } else if mode == 4 {
        PlanetShader::Torus
    } else if mode == 5 {
        PlanetShader::RedPlanet
    } else if mode == 6 {
        PlanetShader::StarFlares
    } else {
        PlanetShader::CraterHybrid
    }
}

/// Picks the fragment shader for a shader mode.
pub fn fragment_shader(mode: i32) -> (s: PlanetShader)
    ensures
        s == shader_for_mode(mode),
        mode == 2 ==> s == PlanetShader::Gaseous,
        mode == 3 ==> s == PlanetShader::Strawberry,
        mode == 4 ==> s == PlanetShader::Torus,
        mode == 5 ==> s == PlanetShader::RedPlanet,
        mode == 6 ==> s == PlanetShader::StarFlares,
        !(2 <= mode <= 6) ==> s == PlanetShader::CraterHybrid,
{
    match mode {
        1 => PlanetShader::CraterHybrid,
        2 => PlanetShader::Gaseous,
        3 => PlanetShader::Strawberry,
        4 => PlanetShader::Torus,
        5 => PlanetShader::RedPlanet,
        6 => PlanetShader::StarFlares,
        _ => PlanetShader::CraterHybrid,
    }
}

/// Number of colour palettes the gas giant's stripes cycle through.
pub const STRIPE_PALETTES: usize = 5;

/// The stripe palette shown during whole second `second`, and the one it
/// fades into: the palettes cycle, one per second.
pub fn stripe_palettes(second: usize) -> (r: (usize, usize))
    ensures
        r.0 == second % STRIPE_PALETTES,
        r.1 == (second as int + 1) % (STRIPE_PALETTES as int),
        r.0 < STRIPE_PALETTES,
        r.1 < STRIPE_PALETTES,
{
    let current = second % STRIPE_PALETTES;
    let next = (current + 1) % STRIPE_PALETTES;
    (current, next)
}

} // verus!
