# exr codec pieces, verified

A Verus library holding two pieces of the OpenEXR codec layer:

- `compression::dwa::zip`: byte reconstruction of ZIP-predicted data (delta
  decoding, then interleaving of the two halves), with its laws proved in
  `zip.rs`.
- `compression::htj2k`: the JPEG 2000 glue around `numcodecs_jpeg2000`. The
  codec calls stand behind trusted wrappers; the decisions around them (empty
  blocks, bytes per sample, sample conversion, size checks, error texts) are
  verified.

`app/` holds what the library cannot: choosing the codec's mode from the
floating-point compression rate. `tests/` runs the library against the real
codec.
