# voxel

The core of a voxel engine, written in Verus: the functions in `src/` are
verified against their `requires`/`ensures` contracts. The few calls into other
code (the `guillotiere` atlas allocator, `ndarray` block arrays, the `png`
decoder and std's clock and slice reversal) go through small trusted wrappers
whose contracts restate what those libraries do.

- `src/util`: integer vectors, cube faces (`Facing`), fixed-size arrays.
- `src/world`: sections and chunks of blocks, face culling masks, the block
  data registry, chunk maps, terrain layout from column heights, and the
  spiral order in which chunks around the player are streamed in and out.
- `src/render`: the texture atlas (RGBA widening and packing, on top of the
  `guillotiere` allocator), brickmaps, the Morton-ordered brick grid and its occupancy bitmaps, the
  chunk buffer allocator, swap buffers and task buffers that keep two GPU
  copies in step, the heap buffers of the section data, and the surfel maps.
- `src/server`: marker components.

`app/` is a headless program around the library: it reads PNG textures from
`./resources`, generates terrain from noise, streams chunks around a player
and steps the physics. Noise, physics, the camera and the atlas size work in
floating point and live there, as do file reading and the entity world.

`tests/` exercises the library on concrete values.
