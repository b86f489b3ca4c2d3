# minecraft_raytracer

A Minecraft-style diorama ray tracer. The library in `src/` holds the parts
that are integer logic, each with a Verus contract:

- `scene`: the diorama's layout (ground, cherry trees, sidewalk, pond, house,
  the axolotl and its details) as cubes with positions in hundredths of a block;
- `renderer`: the up-scaling of a low-resolution render into the frame buffer
  and the split of its rows among worker threads, with the proof that drawing
  the workers' bands gives the same buffer as drawing the whole image;
- `texture`, `textures`, `color`: image textures with 8-bit texels, the
  fallback checkerboard, procedural texture kinds, colours;
- `controls`: the quality levels, threading switch and automatic performance
  scaling driven by the keyboard and the frame rate.

`app/` is the program around it: the raylib window and input, image file
loading, and the floating-point ray tracing (intersections, shading, sky,
camera), which hands its results to the library.
