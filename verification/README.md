# raytracer

A path tracer that renders spheres of diffuse, metal and glass materials to
plain-text PPM images, one file per frame.

- `src/` is the verified library: the integer and text side of rendering.
  - `bvh`: the layout of the bounding volume hierarchy over the positions of a
    list of objects (every object in exactly one leaf, balanced splits).
  - `camera`: the render settings, their defaults, the row-major placement of
    pixels, the PPM header and the names of the frame files.
  - `color`: the text line of one pixel.
  - `checkered`: which texture a cell of a checker pattern shows.
  - `text`: decimal and zero-padded decimal text of numbers.
  - `utils`: random integers from a range.
  - `vec3`: the scalar trait of three-component vectors.
- `app/` is the program: vectors, rays, intervals, boxes, materials, textures,
  camera geometry and the render loop, all of which compute in floating point,
  plus the command line, logging, threads and file output.
