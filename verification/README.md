# gpupe

The verified core of a small SDL2/OpenGL prototype that simulates a grid
with a compute shader and draws it on a quad.

- `src/utility/input_handler.rs` — the keys held down (`InputHandler`).
- `src/utility/direction.rs` — which held keys pan the camera, and where.
- `src/renderer/program.rs` — a linked shader program: its uniform-location
  cache and the decisions taken while linking and setting uniforms.
- `src/renderer/compute.rs` — the compute-shader passes of one frame.
- `app/` — the program itself: window and events (sdl2), every OpenGL call
  (gl), image loading (image) and the floating-point camera (cgmath).
