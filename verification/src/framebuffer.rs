use vstd::prelude::*;

verus! {

/// Position of pixel `(x, y)` in a row-major buffer of `width` by `height`
/// pixels, or `None` when the pixel lies outside the buffer.
pub open spec fn pixel_index(width: int, height: int, x: int, y: int) -> Option<int> {
    if 0 <= x < width && 0 <= y < height {
        Some(y * width + x)
    } else {
        None
    }
}

/// Whether a fragment at `(x, y)` with depth key `depth` passes the depth
/// test against the depth keys `cells`: it lies inside the buffer and is
/// strictly nearer than what the buffer holds there.
pub open spec fn depth_test_passes(
    cells: Seq<u32>,
    width: int,
    height: int,
    x: int,
    y: int,
    depth: u32,
) -> bool {
    match pixel_index(width, height, x, y) {
        Some(i) => depth < cells[i],
        None => false,
    }
}

/// The depth keys after a fragment is offered to the depth test: an opaque
/// fragment that passes writes its depth key, anything else leaves the keys
/// as they were.
pub open spec fn depth_after_fragment(
    cells: Seq<u32>,
    width: int,
    height: int,
    x: int,
    y: int,
    depth: u32,
    opaque: bool,
) -> Seq<u32> {
    if opaque && depth_test_passes(cells, width, height, x, y, depth) {
        cells.update(pixel_index(width, height, x, y).unwrap(), depth)
    } else {
        cells
    }
}

/// A z-buffer of `width * height` depth keys, row-major.
///
/// Depths are carried as order keys: unsigned integers whose order is the
/// order of the depths they stand for (a smaller key is nearer).
pub struct DepthBuffer {
    width: u32,
    height: u32,
    depths: Vec<u32>,
}

impl DepthBuffer {
    /// The buffer holds one depth key per pixel, and the pixel count fits in
    /// an `i32`.
    pub open spec fn well_formed(&self) -> bool {
        &&& self.cells().len() == self.spec_width() * self.spec_height()
        &&& self.spec_width() * self.spec_height() <= i32::MAX
    }

    /// Width of the buffer in pixels.
    pub closed spec fn spec_width(&self) -> int {
        self.width as int
    }

    /// Height of the buffer in pixels.
    pub closed spec fn spec_height(&self) -> int {
        self.height as int
    }

    /// The depth keys, row-major.
    pub closed spec fn cells(&self) -> Seq<u32> {
        self.depths@
    }

    /// A buffer of `width` by `height` pixels, every depth key set to `far`.
    /// The pixel count must fit in an `i32`, the type in which pixel
    /// positions are computed.
    pub fn new(width: u32, height: u32, far: u32) -> (buf: DepthBuffer)
        requires
            width * height <= i32::MAX,
        ensures
            buf.spec_width() == width,
            buf.spec_height() == height,
            buf.well_formed(),
            buf.cells() == Seq::new((width * height) as nat, |i: int| far),
    {
        let n: usize = (width as u64 * height as u64) as usize;
        let mut depths: Vec<u32> = Vec::new();
        while depths.len() < n
            invariant
                n == width * height,
                depths@.len() <= n,
                forall|i: int| 0 <= i < depths@.len() ==> depths@[i] == far,
            decreases n - depths@.len(),
        {
            depths.push(far);
        }
        let buf = DepthBuffer { width, height, depths };
        assert(buf.depths@ == Seq::new((width * height) as nat, |i: int| far));
        buf
    }

    /// Width of the buffer in pixels.
    pub fn width(&self) -> (r: u32)
        ensures
            r == self.spec_width(),
    {
        self.width
    }

    /// Height of the buffer in pixels.
    pub fn height(&self) -> (r: u32)
        ensures
            r == self.spec_height(),
    {
        self.height
    }

    /// Number of pixels in the buffer.
    pub fn len(&self) -> (r: usize)
        requires
            self.well_formed(),
        ensures
            r == self.cells().len(),
            r == self.spec_width() * self.spec_height(),
    {
        self.depths.len()
    }

    /// The depth key stored at position `i`.
    pub fn depth_at(&self, i: usize) -> (r: u32)
        requires
            i < self.cells().len(),
        ensures
            r == self.cells()[i as int],
    {
        self.depths[i]
    }

    /// Resets every depth key to `far`.
    pub fn clear(&mut self, far: u32)
        requires
            old(self).well_formed(),
        ensures
            final(self).well_formed(),
            final(self).spec_width() == old(self).spec_width(),
            final(self).spec_height() == old(self).spec_height(),
            final(self).cells() == Seq::new(old(self).cells().len(), |i: int| far),
    {
        let n = self.depths.len();
        let mut i: usize = 0;
        while i < n
            invariant
                n == self.depths@.len(),
                n == self.width * self.height,
                self.width * self.height <= i32::MAX,
                self.width == old(self).width,
                self.height == old(self).height,
                i <= n,
                forall|j: int| 0 <= j < i ==> self.depths@[j] == far,
            decreases n - i,
        {
            self.depths.set(i, far);
            i = i + 1;
        }
        assert(self.depths@ == Seq::new(old(self).cells().len(), |i: int| far));
    }

    /// Position of pixel `(x, y)` in the buffer, or `None` outside it.
    pub fn index_of(&self, x: i32, y: i32) -> (r: Option<usize>)
        requires
            self.well_formed(),
        ensures
            match pixel_index(self.spec_width(), self.spec_height(), x as int, y as int) {
                Some(i) => r == Some(i as usize) && i < self.cells().len(),
                None => r is None,
            },
    {
        if x >= 0 && y >= 0 && (x as i64) < (self.width as i64) && (y as i64) < (
        self.height as i64) {
            let w = self.width as u64;
            let xi = x as u64;
            let yi = y as u64;
            proof {
                let h = self.height as int;
                assert(yi * w + xi < w * h) by (nonlinear_arith)
                    requires
                        yi < h,
                        xi < w,
                ;
                assert(w * h == self.width * self.height);
            }
            Some((yi * w + xi) as usize)
        } else {
            None
        }
    }

    /// Offers a fragment at `(x, y)` with depth key `depth` to the depth
    /// test. It passes when it lies inside the buffer and is strictly nearer
    /// than the stored key; an opaque fragment that passes also stores its
    /// key. Returns the pixel's position when the fragment passes, so that
    /// its colour can be written or blended there.
    pub fn test_and_set(&mut self, x: i32, y: i32, depth: u32, opaque: bool) -> (r: Option<
        usize,
    >)
        requires
            old(self).well_formed(),
        ensures
            final(self).well_formed(),
            final(self).spec_width() == old(self).spec_width(),
            final(self).spec_height() == old(self).spec_height(),
            final(self).cells() == depth_after_fragment(
                old(self).cells(),
                old(self).spec_width(),
                old(self).spec_height(),
                x as int,
                y as int,
                depth,
                opaque,
            ),
            depth_test_passes(
                old(self).cells(),
                old(self).spec_width(),
                old(self).spec_height(),
                x as int,
                y as int,
                depth,
            ) ==> r == Some(
                pixel_index(old(self).spec_width(), old(self).spec_height(), x as int, y as int)
                    ->0 as usize,
            ),
            !depth_test_passes(
                old(self).cells(),
                old(self).spec_width(),
                old(self).spec_height(),
                x as int,
                y as int,
                depth,
            ) ==> r is None,
    {
        match self.index_of(x, y) {
            Some(i) => {
                if depth < self.depths[i] {
                    if opaque {
                        self.depths.set(i, depth);
                    }
                    Some(i)
                } else {
                    None
                }
            },
            None => None,
        }
    }
}

/// A pixel inside the buffer has a position inside the buffer.
pub proof fn lemma_pixel_index_in_range(width: int, height: int, x: int, y: int)
    requires
        0 <= x < width,
        0 <= y < height,
    ensures
        0 <= y * width + x < width * height,
{
    assert(0 <= y * width + x < width * height) by (nonlinear_arith)
        requires
            0 <= x < width,
            0 <= y < height,
    ;
}

/// The depth test never makes a pixel farther: after any fragment, every
/// stored depth key is at most what it was.
pub proof fn lemma_depth_never_recedes(
    cells: Seq<u32>,
    width: int,
    height: int,
    x: int,
    y: int,
    depth: u32,
    opaque: bool,
    i: int,
)
    requires
        cells.len() == width * height,
        0 <= i < cells.len(),
    ensures
        depth_after_fragment(cells, width, height, x, y, depth, opaque)[i] <= cells[i],
        depth_after_fragment(cells, width, height, x, y, depth, opaque).len() == cells.len(),
{
    if 0 <= x < width && 0 <= y < height {
        lemma_pixel_index_in_range(width, height, x, y);
    }
}

/// A fragment touches at most its own pixel: every other depth key is left
/// unchanged.
pub proof fn lemma_depth_write_is_local(
    cells: Seq<u32>,
    width: int,
    height: int,
    x: int,
    y: int,
    depth: u32,
    opaque: bool,
    i: int,
)
    requires
        cells.len() == width * height,
        0 <= i < cells.len(),
        pixel_index(width, height, x, y) != Some(i),
    ensures
        depth_after_fragment(cells, width, height, x, y, depth, opaque)[i] == cells[i],
{
    if 0 <= x < width && 0 <= y < height {
        lemma_pixel_index_in_range(width, height, x, y);
    }
}

/// Transparent fragments never change the depth keys.
pub proof fn lemma_transparent_keeps_depth(
    cells: Seq<u32>,
    width: int,
    height: int,
    x: int,
    y: int,
    depth: u32,
)
    ensures
        depth_after_fragment(cells, width, height, x, y, depth, false) == cells,
{
}

/// Occlusion: once an opaque fragment at depth `near` has been drawn at a
/// pixel, a later fragment at that pixel that is not strictly nearer is
/// rejected, however many fragments were offered in between.
pub proof fn lemma_opaque_fragment_occludes(
    cells: Seq<u32>,
    width: int,
    height: int,
    x: int,
    y: int,
    near: u32,
    later: Seq<(int, int, u32, bool)>,
    depth: u32,
)
    requires
        cells.len() == width * height,
        depth_test_passes(cells, width, height, x, y, near),
        near <= depth,
    ensures
        !depth_test_passes(
            apply_fragments(
                depth_after_fragment(cells, width, height, x, y, near, true),
                width,
                height,
                later,
            ),
            width,
            height,
            x,
            y,
            depth,
        ),
{
    let i = pixel_index(width, height, x, y).unwrap();
    lemma_pixel_index_in_range(width, height, x, y);
    lemma_depth_never_recedes(cells, width, height, x, y, near, true, i);
    let after = depth_after_fragment(cells, width, height, x, y, near, true);
    assert(after[i] == near);
    lemma_apply_fragments_never_recede(after, width, height, later, i);
}

/// The depth keys after a sequence of fragments `(x, y, depth, opaque)` is
/// offered to the depth test in order.
pub open spec fn apply_fragments(
    cells: Seq<u32>,
    width: int,
    height: int,
    frags: Seq<(int, int, u32, bool)>,
) -> Seq<u32>
    decreases frags.len(),
{
    if frags.len() == 0 {
        cells
    } else {
        let f = frags.last();
        depth_after_fragment(
            apply_fragments(cells, width, height, frags.drop_last()),
            width,
            height,
            f.0,
            f.1,
            f.2,
            f.3,
        )
    }
}

/// Over any sequence of fragments, every depth key only ever gets nearer.
pub proof fn lemma_apply_fragments_never_recede(
    cells: Seq<u32>,
    width: int,
    height: int,
    frags: Seq<(int, int, u32, bool)>,
    i: int,
)
    requires
        cells.len() == width * height,
        0 <= i < cells.len(),
    ensures
        apply_fragments(cells, width, height, frags).len() == cells.len(),
        apply_fragments(cells, width, height, frags)[i] <= cells[i],
    decreases frags.len(),
{
    if frags.len() > 0 {
        let f = frags.last();
        lemma_apply_fragments_never_recede(cells, width, height, frags.drop_last(), i);
        let prev = apply_fragments(cells, width, height, frags.drop_last());
        lemma_depth_never_recedes(prev, width, height, f.0, f.1, f.2, f.3, i);
    }
}

/// A pixel inside the buffer is at position `y * width + x`, a pixel outside
/// has none, and distinct pixels inside have distinct positions.
pub proof fn lemma_pixel_index_row_major(width: int, height: int, x: int, y: int, x2: int, y2: int)
    ensures
        0 <= x < width && 0 <= y < height ==> pixel_index(width, height, x, y) == Some(
            y * width + x,
        ),
        !(0 <= x < width && 0 <= y < height) ==> pixel_index(width, height, x, y) is None,
        0 <= x < width && 0 <= y < height && 0 <= x2 < width && 0 <= y2 < height && (x, y) != (
        x2,
        y2,
        ) ==> pixel_index(width, height, x, y) != pixel_index(width, height, x2, y2),
{
    if 0 <= x < width && 0 <= y < height && 0 <= x2 < width && 0 <= y2 < height && (x, y) != (
    x2,
    y2,
    ) {
        if y == y2 {
        } else if y < y2 {
            assert(y * width + x < y2 * width + x2) by (nonlinear_arith)
                requires
                    y < y2,
                    0 <= x < width,
                    0 <= x2,
            ;
        } else {
            assert(y2 * width + x2 < y * width + x) by (nonlinear_arith)
                requires
                    y2 < y,
                    0 <= x2 < width,
                    0 <= x,
            ;
        }
    }
}

/// The depth test, stated on the keys: a fragment inside the buffer whose key
/// is strictly below the key stored at `y * width + x` passes, and an opaque
/// one stores its key there and nothing else; a fragment whose key is not
/// below the stored one, or that lies outside the buffer, fails and changes
/// nothing.
pub proof fn lemma_depth_test_on_keys(
    cells: Seq<u32>,
    width: int,
    height: int,
    x: int,
    y: int,
    depth: u32,
    opaque: bool,
)
    requires
        cells.len() == width * height,
    ensures
        0 <= x < width && 0 <= y < height && depth < cells[y * width + x] ==> {
            &&& depth_test_passes(cells, width, height, x, y, depth)
            &&& pixel_index(width, height, x, y) == Some(y * width + x)
            &&& depth_after_fragment(cells, width, height, x, y, depth, opaque) == if opaque {
                cells.update(y * width + x, depth)
            } else {
                cells
            }
        },
        0 <= x < width && 0 <= y < height && depth >= cells[y * width + x] ==> {
            &&& !depth_test_passes(cells, width, height, x, y, depth)
            &&& depth_after_fragment(cells, width, height, x, y, depth, opaque) == cells
        },
        !(0 <= x < width && 0 <= y < height) ==> {
            &&& !depth_test_passes(cells, width, height, x, y, depth)
            &&& depth_after_fragment(cells, width, height, x, y, depth, opaque) == cells
        },
{
    lemma_pixel_index_row_major(width, height, x, y, x, y);
}

} // verus!
