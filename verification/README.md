# doomed_editor

The logic of a Doom level editor, written in Verus: each public function carries a contract
over a mathematical model, and Verus proves the code meets it.

- `src/` is the verified library: patch picture codec, palette lookup, texture composition and
  resolution across WADs, atlas packing and its content key, sector light animation, BSP build
  replay stepping, map value remapping, play-test planning, the background-job lock, the 3D
  preview's wall bands and mesh span table, flat thumbnails, selection, sprites and
  preferences.
- `tests/` runs the library on concrete values.
- `app/` holds what stays outside the proofs: the preferences file (serde, RON, the config
  directory), starting the engine process, and the floating-point gradient colours.
