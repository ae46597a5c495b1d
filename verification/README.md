# sandforge

The simulation core of a falling-sand game, written in Verus. Every function in
`src/` carries a contract; Verus proves them all, except those of the few small
wrappers around `fastrand`, `rand`, `async-channel` and bevy's `HashMap`
(in `src/random.rs`, `src/channel.rs` and `src/dirty_rect.rs`), whose contracts are
trusted and say no more than those crates document.

## Layout

- `src/vector.rs`, `src/constants.rs`: integer grid vectors and rectangles, Euclidean
  division, chunk size.
- `src/helpers.rs`: moving between world positions and chunk-local positions, and the
  cells of a straight line (Bresenham).
- `src/elements.rs`, `src/cell.rs`, `src/world.rs`: a whole-world cellular automaton of
  stone, sand and water. A pass over the world is specified cell by cell, and it keeps
  the number of cells of each element.
- `src/pixel.rs`, `src/materials.rs`, `src/chunk.rs`: the chunked simulation. A cell sees
  its chunk and the eight around it through `ChunkApi`, which records every message it
  hands to the simulate-next and redraw channels; powders, gases and the first step of
  liquids move by rules that are specified up to their random choices, messages
  included; chunk images are drawn into RGBA bytes.
- `src/dirty_rect.rs`: the rectangles of each chunk that must be simulated or redrawn.
- `src/painter.rs`: the cells a brush covers.
- `src/random.rs`, `src/rolls.rs`: the calls into `fastrand` and `rand`, and what a roll
  means (a direction, an offset, a hit).
- `src/channel.rs`: the outbox that hands messages to an `async-channel` sender and
  records each one it hands over.
- `app/`: what stays outside the verified library: reading `elements.yaml`, the
  floating-point part of the liquid rule and of image shading, and callback drivers.
- `tests/`: tests of the library on concrete values.
