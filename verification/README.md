# fprint

Verified kernels of a fingerprint stack, written in Verus.

- `src/` is the library, every function of it verified but one trusted wrapper (the fuzzer
  input's `fill_buffer`, in `src/fuzz.rs`): the minutiae detector's integer
  geometry (contour tracing, chain codes, loop shapes, block maps and their refinement, ridge
  counting, neighbour search, duplicate handling, quality maps), the matcher's score semantics,
  deterministic test-data generators, and the fingerprint daemon's rules (authorization,
  claims and sessions, the order of each device method's checks, finger names, the print store's layout, the verify and enroll status
  vocabulary, the reader actor's command decisions, sleep handling, object paths).
- `tests/` runs the library on concrete values.
- `app/` is the unverified edge: floating-point kernels of the detector (averages, angles,
  reliabilities, `xyt` conversion), which drive the library's verified map stages through
  closures; the print store's file I/O; displayable copies of the error types; and a small
  executor for futures.
