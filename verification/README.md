# pixl

A local pixel-art generator: SDXL with a pixel-art LoRA, snapped to a true
pixel grid, browsed in a terminal gallery.

- `src/` is the library, verified with Verus: gallery navigation and its
  laws, save-path selection that never clobbers a file, LoRA key mapping and
  merge planning, argument parsing, slugs, cache paths, UTC stamps, token
  fitting for the text encoders, download-progress coalescing, batch control,
  key handling of the gallery, and the integer parts of the pixelize pass.
- `app/` is the program around it: the command line, file and network I/O,
  the candle diffusion backend, the floating-point grid detection and palette
  search, and the terminal UI.
- `tests/` runs the library on concrete values.
