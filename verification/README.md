# Optima

The logic of an ownership-backed Ubisoft Connect client for Linux, verified with
Verus, and the command line around it.

- `src/` is the library `optima`. It decides: which requests are made and what
  their replies mean, which games are listed, what an installation fetches, what a
  game finds next to its executable and in its prefix. It does no input or output.
  Calls into other crates stand behind small functions whose contracts say what is
  taken on trust; their doc comments name the outside function.
- `app/` is the program `optima-cli`. It reads, sends, writes and runs what the
  library decides. The messages of the Demux services are generated from their
  schemas by the build, and the loaders are embedded from `drm/`.
  `app/orbit_r2.rs` holds the exports of the loader for older titles, which is
  built by itself for 32-bit Windows.
- `tests/` runs the library on concrete values.

The laws of the library, such as that only games which are owned are listed,
installed or launched online, are the public proof functions whose names start with
`law_`.
