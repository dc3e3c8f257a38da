# space_travel

A software renderer for a small solar system with a steerable paper ship.

The verified library (`src/`) holds the integer kernels of the pipeline:

- `line`: the error-accumulating pixel walk of a line segment, specified in
  closed form (one pixel per step on the major axis, the minor axis rounded to
  the nearest pixel of the ideal line), with proofs that it starts and ends at
  its end points, is 8-connected, never repeats a pixel and stays within half a
  pixel of the ideal line.
- `framebuffer`: the z-buffer (`DepthBuffer`), with the depth test that every
  fragment goes through, and proofs that depths only ever get nearer, that a
  fragment touches only its own pixel and that an opaque fragment occludes
  everything behind it that comes later.
- `order`: order keys for single-precision bit patterns, through which depths
  and distances reach the integer code.
- `texture`: RGBA textures (texel addressing, nearest and bilinear neighbour
  lookup) and the cube-map face selection of the skybox.
- `raster`: the bounding-box scan of triangle rasterization and primitive
  assembly.
- `shading`: shader selection by mode and the palette cycle of the gas giant.
- `solar`: nearest-planet and first-collision selection.

`app/` is the program: window, input, floating-point shading, matrices and the
render loop, built on raylib, image and tobj.
