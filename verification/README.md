# oxideav_cook

The RealAudio Cook codec's stream-configuration front end and its integer
decode stages, written in Verus with their behaviour stated as contracts
and proved.

## Layout

- `src/` — the verified library.
  - Stream configuration: `cookie` (extradata cookie), `extradata`
    (cookversion blobs, multichannel sub-blobs), `flavor` (the geometry
    table parsed from CSV text, via `text`), `flavor_property`,
    `coupling`, `init` (open-time configuration).
  - Per-call driving: `descramble` (word-wise XOR pass), `subpacket`,
    `session`, `driver`, `assembler` (per-call PCM carry buffer).
  - Frame decode: `bitreader`, `coupling_control`, `frame` (frame head
    and the walk up to the spectral read), `decoder` (gain profile over
    `oxideav_core`'s bit reader, multichannel packet split), `gain`
    (gain-envelope segment hold, scale-ladder limits), `codebook` (spectral Huffman walk),
    `category`, `bit_alloc`, `category_assignment` and `categorise`
    (category allocation), `index_decomp`, `quantiser`, `reciprocal`,
    `lfg` (MD5-seeded dither generator), `error_text` (error messages).
- `tests/` — unit and scenario tests, run against the compiled library.
- `app/` — framework glue: the displayable error (its text comes from
  `error_text`), the `oxideav_core`
  codec registration, the extradata error mapping and the geometry-table
  file loader.
