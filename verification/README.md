# kengine

A scene graph, a script runtime and a shader front end for games, verified with Verus.

- `src/` is the library. Nodes stand in a generational pool and form a tree; a frame works out who
  is shown, keeps an index of what nodes carry, keeps the solver's table of bodies, colliders and
  joints in step, saves and reads scenes, merges and streams them. Scripts run in boa and reach the
  scene itself through numbered nodes; those that fail are put out of action. Shaders go through
  conditional compilation and naga.
- Numbers are kept by their bits. What has to be computed in floating point is worked out by the
  caller and handed in: world matrices, distances, boxes, poses of the solver.
- `tests/` runs the library, with the real engine, parser and hash map linked.
- `app/` is what stands round the library: arithmetic, the order of a frame, the solver's side of a
  step, files, and the functions of scripts that compute or make something.

What is believed without proof is marked `external_body`, `assume_specification` or
`external_type_specification`; the doc comment of each says what it calls and what it claims.
