# psd

A reader for Adobe Photoshop (PSD) files, written in Verus: the parsers of the
file header, color mode data, image resources (slices and their descriptors),
layer and mask information (layers, groups, channels) and the image data, the
RLE decoder and the RGBA assembly, with contracts over byte-level models of the
format and proofs of the laws that tie them together (writing then reading a
section, descriptor or string gives it back; groups hold runs of layers).

- `src/` is the verified library.
- `tests/` exercises it on concrete bytes.
- `app/` holds what stays outside verification: floating-point blending and
  flattening of layers, and error types with `std::error::Error` impls.
