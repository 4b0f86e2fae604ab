# particle_system

A window full of fading circles that bounce off each other and off the screen
edges, with lines drawn between circles that come close.

- `src/` is the verified library (Verus): the spatial hash that buckets items
  by screen cell (positions in hundredths of screen units), the border grid it
  outlines, the index pattern of a triangle fan, and the decisions taken on
  key and window events, including removing a random circle.
- `app/` is the program around it: the floating-point geometry of the circles
  (motion, collisions, bouncing, fading), random circle generation, and the
  glium rendering loop.
- `tests/` runs the library on concrete values.
