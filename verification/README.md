# rio_tiles

The tile system of the Rio terminal, as a Verus library.

- `src/text.rs`: byte-level pieces of the protocol: decimal numbers as
  `str::parse` reads them, the floating-point literal grammar, splitting at a
  separator.
- `src/protocol.rs`: the OSC 1337 `Tile=` protocol. `parse` is proved against
  `spec_parse`; floating-point parameters are kept as checked decimal text.
- `src/world.rs`: the list of placed tiles (insert with replacement by id,
  removal, dropping transient tiles at a new frame) and its laws.
- `src/heat.rs`: the heat-equation tile's grid sizes, buffer and bind-group
  wiring, the passes one frame dispatches, and the copy of the heatmap into
  the texture.
- `app/lib.rs`: what the library leaves out: `f32`/`f64` values, the uniforms
  struct, and the wgpu resources that run the plan.
