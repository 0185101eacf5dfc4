# kzg_srs

Tools for the structured reference string (SRS) of a KZG commitment scheme over
BN254, with the library's behaviour stated in Verus contracts and proved.

- `src/field.rs`: BN254 base-field elements as canonical limbs; decimal and
  big-endian conversions.
- `src/point.rs`: G1 and G2 points, their uncompressed 64- and 128-byte
  encodings, validation.
- `src/srs.rs`: the SRS and its "unchecked bytes" file format (two little-endian
  `u32` counts, then the G1 and G2 points); the round-trip law.
- `src/import.rs`: points from a powers-of-tau transcript and from point files.
- `src/transform.rs`: the padded SRS and the SRS in Lagrange form.
- `src/bls.rs`, `src/coeffs.rs`: the BLS12-381 export read from text files of
  hexadecimal coordinates.
- `app/main.rs`: the command-line tools (file I/O around the library).
