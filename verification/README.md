# popcap_formats

Readers and writers for PopCap game asset formats, verified with Verus.

`src/` is the library. Each codec states what it reads or writes as spec
functions over byte sequences, and its executable functions are proved to
meet those statements:

- `ptx`, `etc1`, `pvrtc`, `pvrtc_encode`, `color`, `image`, `blend`: PTX
  textures (RGBA8888, RGBA4444, RGB565, RGBA5551 in linear and tiled
  layouts, ETC1 with and without alpha, PVRTC 4bpp), ETC1 and PVRTC block
  encoding and decoding.
- `popfx`: POPFX render-effect tables.
- `pam`, `pam_html`, `pam_timeline`: PAM animations, finding their JSON in
  an HTML page (through `scraper`), and the frame layout of XFL timeline layers.
- `reanim`: compiled Reanim animations (PC, 32-bit and 64-bit phone variants).
- `particles`, `trail`, `particles_names`: compiled Particles and Trail files.
- `rsb_patch`, `patch`: RSBPatch containers and VCDIFF deltas.
- `resources`, `resource`: resource manifests and their split layout.
- `bytes`, `text`, `zlib`: little- and big-endian integers, strings, and the
  zlib framing shared by the compiled formats.

Round-trip laws (reading back what was written) are public proof functions
named `lemma_*_roundtrip`, `lemma_*_write_read` and `lemma_*_decode_*`.

`app/` holds what stays outside the proofs: file and JSON handling, image
buffers, the floating-point views of the fixed-point values the library
keeps as integers, and the converters that work on floating point
throughout (XFL projects, HTML pages and rendered frames of PAM animations,
XFL projects of Reanim animations, the XML text of Particles).
