# Pyre

Pyre is a CPU offline path tracer. This crate holds its verified core: the
parts of the renderer whose behaviour is integer and text logic, each with a
contract proved by Verus.

## Layout

- `src/io/pbrt/`: the PBRT scene-file front end. `lexer` turns the bytes of
  a file into tokens, `parser` turns tokens into directives, and `builder`
  folds directives, one at a time, into a scene description that keeps the
  numbers as written. Each stage's result is stated exactly by a spec
  function (`spec_tokenize`, `spec_parse`, `spec_apply`), and the laws of the
  build (attribute and transform blocks restore what they saved, an
  unmatched `AttributeEnd` / `TransformEnd` is exactly one that closes more
  blocks than were opened, unknown directives are skipped, named materials
  round-trip and undeclared ones fail, material references stay valid) are proof functions in `builder.rs` and
  `parser.rs`; a failed `apply` leaves the builder as it was.
- `src/io/hdr.rs`: which environment-map files are accepted.
- `src/geometry/`: the BVH's depth-first node layout (driven step by step
  by the renderer's split decisions, with the layout law proved of every
  finished hierarchy), the in-place partition of its primitive indices, and
  the triangle indices of tessellated spheres.
- `src/sampler.rs`: per-pixel seeds, with the proof that distinct pixels of
  a pass, and distinct passes of a pixel, never share one.
- `src/integrator.rs`, `src/viewer.rs`, `src/scene.rs`:
  integrator settings, the pacing of progressive passes, and
  what a ray hit.
- `app/`: the renderer proper (floating-point geometry, materials, lights,
  the path tracer, image output, glTF loading, the preview window and the
  command line), which calls into the library.
- `tests/`: tests of the library on concrete inputs.
