use vstd::prelude::*;
use crate::order::is_nan_bits;

verus! {

/// The red, green and blue bytes of the texel at `(x, y)` in tightly packed
/// RGBA rows of `width` texels.
pub open spec fn texel_at(data: Seq<u8>, width: int, x: int, y: int) -> (u8, u8, u8) {
    let i = (y * width + x) * 4;
    (data[i], data[i + 1], data[i + 2])
}

/// The smaller of `v` and `hi`.
pub open spec fn clamp_to(v: int, hi: int) -> int {
    if v < hi {
        v
    } else {
        hi
    }
}

/// An RGBA8 image: `width * height` texels of four bytes each, row-major.
pub struct Texture {
    data: Vec<u8>,
    width: u32,
    height: u32,
}

impl Texture {
    #[verifier::type_invariant]
    spec fn inv(self) -> bool {
        self.data@.len() == self.width * self.height * 4
    }

    /// Width in texels.
    pub closed spec fn spec_width(&self) -> int {
        self.width as int
    }

    /// Height in texels.
    pub closed spec fn spec_height(&self) -> int {
        self.height as int
    }

    /// The RGBA bytes, row-major.
    pub closed spec fn pixels(&self) -> Seq<u8> {
        self.data@
    }

    /// A texture over RGBA bytes of `width` by `height` texels, or `None`
    /// when `data` does not hold exactly four bytes per texel.
    pub fn from_rgba(data: Vec<u8>, width: u32, height: u32) -> (r: Option<Texture>)
        ensures
            r is Some <==> data@.len() == width * height * 4,
            r matches Some(t) ==> t.pixels() == data@ && t.spec_width() == width
                && t.spec_height() == height,
    {
        assert(width as u128 * height as u128 <= 0xffff_ffff_u128 * 0xffff_ffff_u128)
            by (nonlinear_arith);
        let expected: u128 = width as u128 * height as u128 * 4;
        if data.len() as u128 == expected {
            Some(Texture { data, width, height })
        } else {
            None
        }
    }

    /// Width in texels.
    pub fn width(&self) -> (r: u32)
        ensures
            r == self.spec_width(),
    {
        self.width
    }

    /// Height in texels.
    pub fn height(&self) -> (r: u32)
        ensures
            r == self.spec_height(),
    {
        self.height
    }

    /// The RGBA bytes, row-major.
    pub fn data(&self) -> (r: &Vec<u8>)
        ensures
            r@ == self.pixels(),
            r@.len() == self.spec_width() * self.spec_height() * 4,
    {
        proof {
            use_type_invariant(self);
        }
        &self.data
    }

    /// The red, green and blue bytes of the texel at `(x, y)`.
    pub fn get_pixel(&self, x: u32, y: u32) -> (c: (u8, u8, u8))
        requires
            x < self.spec_width(),
            y < self.spec_height(),
        ensures
            c == texel_at(self.pixels(), self.spec_width(), x as int, y as int),
            c == (
                self.pixels()[4 * (y * self.spec_width() + x)],
                self.pixels()[4 * (y * self.spec_width() + x) + 1],
                self.pixels()[4 * (y * self.spec_width() + x) + 2],
            ),
    {
        proof {
            use_type_invariant(self);
            lemma_texel_offset(self.pixels(), self.spec_width(), x as int, y as int);
        }
        let len = self.data.len();
        let w = self.width as u64;
        let xi = x as u64;
        let yi = y as u64;
        proof {
            let h = self.height as int;
            assert(yi * w + xi < w * h) by (nonlinear_arith)
                requires
                    yi < h,
                    xi < w,
            ;
            assert(0 <= yi * w) by (nonlinear_arith)
                requires
                    0 <= yi,
                    0 <= w,
            ;
            assert(w * h * 4 == len);
        }
        let i = ((yi * w + xi) * 4) as usize;
        (self.data[i], self.data[i + 1], self.data[i + 2])
    }

    /// Nearest-texel lookup at texel coordinates `(x, y)`, each clamped to the
    /// last column and row.
    pub fn sample(&self, x: u32, y: u32) -> (c: (u8, u8, u8))
        requires
            self.spec_width() > 0,
            self.spec_height() > 0,
        ensures
            c == texel_at(
                self.pixels(),
                self.spec_width(),
                clamp_to(x as int, self.spec_width() - 1),
                clamp_to(y as int, self.spec_height() - 1),
            ),
    {
        let cx = if x < self.width - 1 {
            x
        } else {
            self.width - 1
        };
        let cy = if y < self.height - 1 {
            y
        } else {
            self.height - 1
        };
        self.get_pixel(cx, cy)
    }

    /// The four texels that a bilinear lookup blends, with `(x0, y0)` the
    /// upper-left one: `[(x0, y0), (x1, y0), (x0, y1), (x1, y1)]`, where
    /// `x1` and `y1` are the next column and row, clamped to the last ones.
    pub fn sample_bilinear(&self, x0: u32, y0: u32) -> (c: [(u8, u8, u8); 4])
        requires
            x0 < self.spec_width(),
            y0 < self.spec_height(),
        ensures
            ({
                let w = self.spec_width();
                let x1 = clamp_to(x0 + 1, w - 1);
                let y1 = clamp_to(y0 + 1, self.spec_height() - 1);
                &&& c[0] == texel_at(self.pixels(), w, x0 as int, y0 as int)
                &&& c[1] == texel_at(self.pixels(), w, x1, y0 as int)
                &&& c[2] == texel_at(self.pixels(), w, x0 as int, y1)
                &&& c[3] == texel_at(self.pixels(), w, x1, y1)
            }),
    {
        let x1 = if x0 + 1 < self.width - 1 {
            x0 + 1
        } else {
            self.width - 1
        };
        let y1 = if y0 + 1 < self.height - 1 {
            y0 + 1
        } else {
            self.height - 1
        };
        let c00 = self.get_pixel(x0, y0);
        let c10 = self.get_pixel(x1, y0);
        let c01 = self.get_pixel(x0, y1);
        let c11 = self.get_pixel(x1, y1);
        [c00, c10, c01, c11]
    }
}

/// A face of the cube map.
#[derive(Clone, Copy, PartialEq, Eq, Structural, Debug)]
pub enum CubeFace {
    /// `+X`
    Right,
    /// `-X`
    Left,
    /// `+Y`
    Top,
    /// `-Y`
    Bottom,
    /// `+Z`
    Front,
    /// `-Z`
    Back,
}

/// The face of the cube map that a direction hits, given order keys of the
/// magnitudes of its components (a larger key is a larger magnitude) and
/// whether each component is positive. The axis of largest magnitude wins,
/// ties going to `x` before `y` before `z`; the sign picks the face on it.
pub open spec fn dominant_face(ax: u32, ay: u32, az: u32, x_pos: bool, y_pos: bool, z_pos: bool) -> CubeFace {
    if ax >= ay && ax >= az {
        if x_pos {
            CubeFace::Right
        } else {
            CubeFace::Left
        }
    } else if ay >= ax && ay >= az {
        if y_pos {
            CubeFace::Top
        } else {
            CubeFace::Bottom
        }
    } else {
        if z_pos {
            CubeFace::Front
        } else {
            CubeFace::Back
        }
    }
}

/// Whether a single-precision bit pattern encodes a value greater than zero.
pub open spec fn is_positive_bits(bits: u32) -> bool {
    !is_nan_bits(bits) && bits & 0x8000_0000u32 == 0 && bits & 0x7fff_ffffu32 > 0
}

/// The face of the cube map hit by the direction whose components have the
/// single-precision bit patterns `x`, `y` and `z`. Magnitudes compare as the
/// bits below the sign bit. With a NaN component no magnitude comparison
/// holds and the `z` axis is taken.
pub open spec fn face_for_bits(x: u32, y: u32, z: u32) -> CubeFace {
    if is_nan_bits(x) || is_nan_bits(y) || is_nan_bits(z) {
        if is_positive_bits(z) {
            CubeFace::Front
        } else {
            CubeFace::Back
        }
    } else {
        dominant_face(
            x & 0x7fff_ffffu32,
            y & 0x7fff_ffffu32,
            z & 0x7fff_ffffu32,
            is_positive_bits(x),
            is_positive_bits(y),
            is_positive_bits(z),
        )
    }
}

fn positive_bits(bits: u32) -> (r: bool)
    ensures
        r == is_positive_bits(bits),
{
    let mag = bits & 0x7fff_ffffu32;
    mag <= 0x7f80_0000u32 && bits & 0x8000_0000u32 == 0 && mag > 0
}

/// A cube map: six textures, one per face.
pub struct Skybox {
    pub right: Texture,
    pub left: Texture,
    pub top: Texture,
    pub bottom: Texture,
    pub front: Texture,
    pub back: Texture,
}

impl Skybox {
    /// A cube map from its six faces.
    pub fn new(
        right: Texture,
        left: Texture,
        top: Texture,
        bottom: Texture,
        front: Texture,
        back: Texture,
    ) -> (s: Skybox)
        ensures
            s == (Skybox { right, left, top, bottom, front, back }),
    {
        Skybox { right, left, top, bottom, front, back }
    }

    /// The texture of face `f`.
    pub fn face(&self, f: CubeFace) -> (t: &Texture)
        ensures
            t == match f {
                CubeFace::Right => &self.right,
                CubeFace::Left => &self.left,
                CubeFace::Top => &self.top,
                CubeFace::Bottom => &self.bottom,
                CubeFace::Front => &self.front,
                CubeFace::Back => &self.back,
            },
    {
        match f {
            CubeFace::Right => &self.right,
            CubeFace::Left => &self.left,
            CubeFace::Top => &self.top,
            CubeFace::Bottom => &self.bottom,
            CubeFace::Front => &self.front,
            CubeFace::Back => &self.back,
        }
    }

    /// The face that a direction hits: see `dominant_face`.
    pub fn select_face(ax: u32, ay: u32, az: u32, x_pos: bool, y_pos: bool, z_pos: bool) -> (f:
        CubeFace)
        ensures
            f == dominant_face(ax, ay, az, x_pos, y_pos, z_pos),
    {
        if ax >= ay && ax >= az {
            if x_pos {
                CubeFace::Right
            } else {
                CubeFace::Left
            }
        } else if ay >= ax && ay >= az {
            if y_pos {
                CubeFace::Top
            } else {
                CubeFace::Bottom
            }
        } else {
            if z_pos {
                CubeFace::Front
            } else {
                CubeFace::Back
            }
        }
    }

    /// The face hit by the direction with component bit patterns `x`, `y`,
    /// `z`: see `face_for_bits`.
    pub fn face_for_direction(x: u32, y: u32, z: u32) -> (f: CubeFace)
        ensures
            f == face_for_bits(x, y, z),
    {
        let ax = x & 0x7fff_ffffu32;
        let ay = y & 0x7fff_ffffu32;
        let az = z & 0x7fff_ffffu32;
        if ax > 0x7f80_0000u32 || ay > 0x7f80_0000u32 || az > 0x7f80_0000u32 {
            if positive_bits(z) {
                CubeFace::Front
            } else {
                CubeFace::Back
            }
        } else {
            Skybox::select_face(ax, ay, az, positive_bits(x), positive_bits(y), positive_bits(z))
        }
    }
}

/// The face a direction hits lies on an axis of largest magnitude, on the
/// side of that component's sign; ties go to `x` before `y` before `z`.
pub proof fn lemma_face_on_largest_axis(
    ax: u32,
    ay: u32,
    az: u32,
    x_pos: bool,
    y_pos: bool,
    z_pos: bool,
)
    ensures
        ({
            let f = dominant_face(ax, ay, az, x_pos, y_pos, z_pos);
            &&& (f == CubeFace::Right || f == CubeFace::Left) ==> ax >= ay && ax >= az && (f
                == CubeFace::Right <==> x_pos)
            &&& (f == CubeFace::Top || f == CubeFace::Bottom) ==> ay >= ax && ay >= az && (f
                == CubeFace::Top <==> y_pos)
            &&& (f == CubeFace::Front || f == CubeFace::Back) ==> az >= ax && az >= ay && (f
                == CubeFace::Front <==> z_pos)
            &&& (ax >= ay && ax >= az) ==> (f == CubeFace::Right || f == CubeFace::Left)
            &&& !(ax >= ay && ax >= az) && ay >= az ==> (f == CubeFace::Top || f == CubeFace::Bottom)
            &&& (f == CubeFace::Front || f == CubeFace::Back) ==> az > ax && az > ay
        }),
{
}

/// The face a direction hits, stated on the component bit patterns. With no
/// NaN component, the X faces are taken exactly when the magnitude of `x`
/// (the bits below the sign bit) is at least those of `y` and `z`; otherwise
/// the Y faces exactly when the magnitude of `y` is at least those of `x` and
/// `z`; otherwise the Z faces. On the chosen axis the positive face is taken
/// exactly when that component is greater than zero (sign bit clear, non-zero
/// magnitude). With a NaN component (magnitude above that of infinity) the Z
/// axis is taken.
pub proof fn lemma_face_for_bits_is_largest_axis(x: u32, y: u32, z: u32)
    ensures
        ({
            let f = face_for_bits(x, y, z);
            let ax = x & 0x7fff_ffffu32;
            let ay = y & 0x7fff_ffffu32;
            let az = z & 0x7fff_ffffu32;
            let nan = ax > 0x7f80_0000u32 || ay > 0x7f80_0000u32 || az > 0x7f80_0000u32;
            let xp = x & 0x8000_0000u32 == 0 && 0 < ax <= 0x7f80_0000u32;
            let yp = y & 0x8000_0000u32 == 0 && 0 < ay <= 0x7f80_0000u32;
            let zp = z & 0x8000_0000u32 == 0 && 0 < az <= 0x7f80_0000u32;
            let x_axis = !nan && ax >= ay && ax >= az;
            let y_axis = !nan && !x_axis && ay >= ax && ay >= az;
            &&& (f == CubeFace::Right || f == CubeFace::Left) <==> x_axis
            &&& (f == CubeFace::Top || f == CubeFace::Bottom) <==> y_axis
            &&& (f == CubeFace::Front || f == CubeFace::Back) <==> (!x_axis && !y_axis)
            &&& (f == CubeFace::Right || f == CubeFace::Left) ==> (f == CubeFace::Right <==> xp)
            &&& (f == CubeFace::Top || f == CubeFace::Bottom) ==> (f == CubeFace::Top <==> yp)
            &&& (f == CubeFace::Front || f == CubeFace::Back) ==> (f == CubeFace::Front <==> zp)
            &&& !nan && (f == CubeFace::Front || f == CubeFace::Back) ==> az > ax && az > ay
        }),
{
}

/// Clamping keeps a coordinate in range and moves it only when it is past
/// the last index: the result is `v` when `v <= hi` and `hi` otherwise.
pub proof fn lemma_clamp_to_last(v: int, hi: int)
    ensures
        clamp_to(v, hi) <= hi,
        clamp_to(v, hi) <= v,
        v <= hi ==> clamp_to(v, hi) == v,
        v > hi ==> clamp_to(v, hi) == hi,
{
}

/// The texel at `(x, y)` is read from the four bytes that start at byte
/// `4 * (y * width + x)` of the row-major RGBA data.
pub proof fn lemma_texel_offset(data: Seq<u8>, width: int, x: int, y: int)
    ensures
        texel_at(data, width, x, y) == (
            data[4 * (y * width + x)],
            data[4 * (y * width + x) + 1],
            data[4 * (y * width + x) + 2],
        ),
{
    assert((y * width + x) * 4 == 4 * (y * width + x)) by (nonlinear_arith);
}

/// Distinct texels of a texture occupy disjoint byte ranges: for in-range
/// texels, the texel offsets `4 * (y * width + x)` differ by at least four.
pub proof fn lemma_texel_offsets_disjoint(width: int, height: int, x1: int, y1: int, x2: int, y2: int)
    requires
        0 <= x1 < width,
        0 <= x2 < width,
        0 <= y1 < height,
        0 <= y2 < height,
        (x1, y1) != (x2, y2),
    ensures
        4 * (y1 * width + x1) + 4 <= 4 * (y2 * width + x2) || 4 * (y2 * width + x2) + 4 <= 4 * (
        y1 * width + x1),
        0 <= 4 * (y1 * width + x1) && 4 * (y1 * width + x1) + 4 <= 4 * (width * height),
{
    if y1 == y2 {
        assert(y1 * width == y2 * width);
    } else if y1 < y2 {
        assert(y1 * width + width <= y2 * width) by (nonlinear_arith)
            requires
                y1 < y2,
                width > 0,
        ;
    } else {
        assert(y2 * width + width <= y1 * width) by (nonlinear_arith)
            requires
                y2 < y1,
                width > 0,
        ;
    }
    assert(0 <= y1 * width + x1 && y1 * width + x1 + 1 <= width * height) by (nonlinear_arith)
        requires
            0 <= x1 < width,
            0 <= y1 < height,
    ;
}

} // verus!
