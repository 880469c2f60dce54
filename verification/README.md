# steel

The core logic of the steel game engine as a verified library: the entity hierarchy,
editable component data and its entity id remapping, prefab and scene bookkeeping, the
asset manager, system scheduling, and the integer side of rendering (entity picking,
mesh indices, ray tracing materials, shader binding table layout and draw batching).

- `src/` holds the library; every function carries a contract checked by Verus, and the
  properties that relate several functions are stated as proof functions (`lemma_*`).
- `tests/` runs the library on concrete values.
- `app/` holds what sits around it: the shipyard world glue, JSON scene files, floating
  point math with glam, and reading asset files.

Floating point values that the library only carries (colors, material parameters,
transforms) are held by their IEEE-754 bit patterns.
