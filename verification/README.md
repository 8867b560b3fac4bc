# smart_road

Control core of an autonomous four-way intersection without traffic lights,
verified with Verus.

`src/` is the verified library:

- `geometry` — layout constants, routes, movement numbering and the conflict
  matrix built from the pairwise path-overlap test;
- `vehicle` — vehicle control records, visual variants and the stable
  per-vehicle dynamics sample;
- `controller` — the reservation manager: release, front candidates, queue
  pressure, priority order and admission, with its safety law;
- `stats` — counters, peaks and once-per-episode close-call and collision
  counting;
- `simulation` — the discrete simulation state: clock, spawning in random
  order, detection, reservation rounds, load peaks and removal;
- `sprites` — PNG atlas decoding (through the `png` crate) into RGBA pixels and
  the sprite regions;
- `render` — sprite sizes, turn-signal blinking and panel counts.

`app/` is the SDL2 program around it: window and input, the floating-point
path geometry, oriented-box collision tests and vehicle kinematics, rendering
and the final statistics screen. It reads the sprite atlas from
`assets/smart-road-atlas.png` at start-up.
