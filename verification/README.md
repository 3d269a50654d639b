# cove_core

A library for the Cove columnar file format (COVE v1.0) whose functions carry
machine-checked contracts. Every function under `src/` states what it returns
for every input it accepts, and the laws that relate several functions (round
trips, tilings, agreement of bulk and row-by-row decoding) are stated as proof
functions next to them.

## Layout

- `src/` — the verified library.
  - `wire`, `checksum`, `util`: bounds-checked reads, little-endian integers,
    LEB128, CRC32C, string helpers.
  - `collation`, `extensions`, `digest`, `compression`, `constants`, `error`:
    registries, digest manifests (SHA-256 / BLAKE3 through `sha2` and
    `blake3`), section decompression (LZ4 / Zstandard through `lz4_flex` and
    `ruzstd`), shared enumerations and errors.
  - `validity`, `dictionary`, `array`, `encoding`: null bitmaps, file
    dictionaries, encoded page decoding, nested layouts. Pages under the
    transform encodings (RLE, run-end, bit-packed, delta, frame-of-reference,
    patched-base, sparse and local-codebook) are not decoded here: they are
    refused with `UnsupportedEncoding`.
  - `selection`, `arrow_export`, `arrow_types`, `arrow_buffers`,
    `payload_export`, `byte_views`, `typed_values`: everything an Arrow
    export computes — the type a column becomes, the route a page takes and
    the buffers, offsets, views and values handed to Arrow.
  - `export_plan`: the checks of exporting a tree of list, struct and map
    nodes, which yield one step per node (offsets, row counts, validity).
  - `source_columns`, `conversion`, `canonical`: the data side of converting
    Parquet sources — how each source column is stored, materialised values,
    page plans, segment layouts, keys and statistics, and the canonical
    value encoding (scalars, lists, structs sorted by field id, maps sorted by
    key).
  - `source_read`, `clustering`: the decisions of reading a Parquet source
    (option checks, numbered columns, batch appends, row totals) and the
    stable clustering of its rows by declared columns.
  - `cli`: the converter's argument parsing.
  - `durable`: the decisions of the durable file-replace protocol, as a state
    machine driven by its caller.
- `app/` — plain Rust around the library: file-system work for durable
  replacement, running the Parquet reader and turning the Arrow arrays it
  yields into the library's batches (nested values become JSON text, which
  formats floats), and
  wrapping the library's buffers and export plans in Arrow arrays.
- `tests/` — tests of the library's public functions.
