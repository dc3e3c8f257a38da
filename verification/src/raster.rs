use vstd::prelude::*;
use vstd::arithmetic::div_mod::lemma_fundamental_div_mod_converse;

verus! {

/// Number of integers in the closed range `lo..=hi`.
pub open spec fn span(lo: int, hi: int) -> int {
    if hi >= lo {
        hi - lo + 1
    } else {
        0
    }
}

/// The `k`-th pixel, in row-major order, of the box with columns
/// `min_x..=max_x`.
pub open spec fn box_pixel(min_x: int, max_x: int, min_y: int, k: int) -> (int, int) {
    let w = span(min_x, max_x);
    (min_x + k % w, min_y + k / w)
}

/// Every pixel of the box `min_x..=max_x` by `min_y..=max_y`, row by row from
/// `min_y`, each row from `min_x`: the pixels that triangle rasterization
/// tests against the triangle. An empty range on either axis gives no pixel.
pub fn bounding_box_pixels(min_x: i32, max_x: i32, min_y: i32, max_y: i32) -> (pixels: Vec<
    (i32, i32),
>)
    ensures
        pixels@.len() == span(min_x as int, max_x as int) * span(min_y as int, max_y as int),
        forall|k: int|
            0 <= k < pixels@.len() ==> {
                let p = #[trigger] pixels@[k];
                let q = box_pixel(min_x as int, max_x as int, min_y as int, k);
                p.0 as int == q.0 && p.1 as int == q.1
            },
{
    let mut pixels: Vec<(i32, i32)> = Vec::new();
    let ghost w: int = span(min_x as int, max_x as int);
    let ghost h: int = span(min_y as int, max_y as int);
    if min_x > max_x || min_y > max_y {
        assert(w * h == 0) by (nonlinear_arith)
            requires
                w == 0 || h == 0,
        ;
        return pixels;
    }
    let mut y: i64 = min_y as i64;
    while y <= max_y as i64
        invariant
            w == max_x - min_x + 1,
            h == max_y - min_y + 1,
            w > 0,
            min_y <= y <= max_y as int + 1,
            pixels@.len() == (y - min_y) * w,
            forall|k: int|
                0 <= k < pixels@.len() ==> {
                    let p = #[trigger] pixels@[k];
                    let q = box_pixel(min_x as int, max_x as int, min_y as int, k);
                    p.0 as int == q.0 && p.1 as int == q.1
                },
        decreases max_y - y + 1,
    {
        let mut x: i64 = min_x as i64;
        while x <= max_x as i64
            invariant
                w == max_x - min_x + 1,
                w > 0,
                min_y <= y <= max_y,
                min_x <= x <= max_x as int + 1,
                pixels@.len() == (y - min_y) * w + (x - min_x),
                forall|k: int|
                    0 <= k < pixels@.len() ==> {
                        let p = #[trigger] pixels@[k];
                        let q = box_pixel(min_x as int, max_x as int, min_y as int, k);
                        p.0 as int == q.0 && p.1 as int == q.1
                    },
            decreases max_x - x + 1,
        {
            proof {
                let k = pixels@.len() as int;
                lemma_fundamental_div_mod_converse(k, w, y - min_y, x - min_x);
            }
            pixels.push((x as i32, y as i32));
            x = x + 1;
        }
        proof {
            assert((y - min_y) * w + w == (y + 1 - min_y) * w) by (nonlinear_arith);
        }
        y = y + 1;
    }
    assert(pixels@.len() == w * h) by (nonlinear_arith)
        requires
            pixels@.len() == (y - min_y) * w,
            y == max_y + 1,
            h == max_y - min_y + 1,
    ;
    pixels
}

/// Groups a vertex stream of length `n` into triangles of three consecutive
/// vertices, as index triples; a trailing incomplete group is dropped.
pub fn triangle_indices(n: usize) -> (tris: Vec<[usize; 3]>)
    ensures
        tris@.len() == n / 3,
        forall|t: int|
            0 <= t < tris@.len() ==> #[trigger] tris@[t] == [
                (3 * t) as usize,
                (3 * t + 1) as usize,
                (3 * t + 2) as usize,
            ],
{
    let mut tris: Vec<[usize; 3]> = Vec::new();
    let count = n / 3;
    let mut t: usize = 0;
    while t < count
        invariant
            count == n / 3,
            t <= count,
            tris@.len() == t,
            forall|j: int|
                0 <= j < tris@.len() ==> #[trigger] tris@[j] == [
                    (3 * j) as usize,
                    (3 * j + 1) as usize,
                    (3 * j + 2) as usize,
                ],
        decreases count - t,
    {
        let i = 3 * t;
        tris.push([i, i + 1, i + 2]);
        t = t + 1;
    }
    tris
}

/// The bounding-box scan visits every pixel of the box exactly once: the
/// `k`-th pixel lies in the box, and each pixel of the box is the pixel at
/// position `(py - min_y) * width + (px - min_x)` of the scan.
pub proof fn lemma_box_scan_is_exact(
    min_x: int,
    max_x: int,
    min_y: int,
    max_y: int,
    k: int,
    px: int,
    py: int,
)
    requires
        min_x <= max_x,
        min_y <= max_y,
    ensures
        0 <= k < span(min_x, max_x) * span(min_y, max_y) ==> {
            let p = box_pixel(min_x, max_x, min_y, k);
            min_x <= p.0 <= max_x && min_y <= p.1 <= max_y
        },
        min_x <= px <= max_x && min_y <= py <= max_y ==> {
            let j = (py - min_y) * span(min_x, max_x) + (px - min_x);
            &&& 0 <= j < span(min_x, max_x) * span(min_y, max_y)
            &&& box_pixel(min_x, max_x, min_y, j) == (px, py)
        },
{
    let w = span(min_x, max_x);
    let h = span(min_y, max_y);
    if 0 <= k < w * h {
        let q = k / w;
        let r = k % w;
        vstd::arithmetic::div_mod::lemma_fundamental_div_mod(k, w);
        vstd::arithmetic::div_mod::lemma_mod_bound(k, w);
        assert(0 <= q < h) by (nonlinear_arith)
            requires
                k == w * q + r,
                0 <= r < w,
                0 <= k < w * h,
                w > 0,
        ;
    }
    if min_x <= px <= max_x && min_y <= py <= max_y {
        let j = (py - min_y) * w + (px - min_x);
        lemma_fundamental_div_mod_converse(j, w, py - min_y, px - min_x);
        assert(0 <= j < w * h) by (nonlinear_arith)
            requires
                j == (py - min_y) * w + (px - min_x),
                0 <= py - min_y < h,
                0 <= px - min_x < w,
        ;
    }
}

} // verus!
