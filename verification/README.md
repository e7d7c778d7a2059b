# rusty_puzzle_cube

Puzzle cubes of any size, turned by rotations written in the usual cube notation, with every
operation proved correct against a mathematical model of the cube's facelets.

## Layout

- `src/cube.rs` and `src/cube/`: the cube. `CubeState` is the model (six square grids of
  cubies); `turn_layer` says, cell by cell, what a clockwise quarter turn of one layer does, and
  `rotate_outcome` what any `Rotation` does. `Cube` and the `PuzzleCube` trait are proved to
  follow it. `laws.rs`, `by_layers.rs`, `conservation.rs`, `change.rs` and `faces_reached.rs`
  hold the laws of rotations: undoing, order four, commuting layers, rotations of several layers
  made one layer at a time, cubies only moved (each as often as before), every rotation changing
  a solved cube, and which sides a rotation keeps.
- `src/notation.rs` and `src/notation/`: parsing of cube notation (`3Rw'`, `2-4U2`, ...) as a
  function on characters, specified by `parse_token_spec` and `parse_sequence_spec`, writing a
  rotation back in notation, the messages that tell what is wrong with malformed notation, and
  the older 3x3x3 notation.
- `src/known_transforms.rs`: named patterns, proved to parse and to fit the cubes they are meant
  for.
- `src/moves.rs`: the moves that dragging across a face decides on, and which cubies a turn
  animates.
- `src/demo.rs`: the terminal demos, as the cube nets they show.
- `app/main.rs`: prints the terminal demos in colour.
- `tests/`: tests of the library.
