# vortex_core

Core pieces of a columnar array format, written in Verus with their behaviour stated as
contracts and proved:

- `bits`, `bit_buffer`, `bit_buffer_mut`: packed bitsets (immutable views with an offset, and a
  growable mutable buffer), with counting of set bits and the byte-level model they rest on.
- `binary_view`: sixteen-byte views of variable-length binary values, taking views by index and
  re-basing their buffer indices (two ways, proved to agree).
- `field`, `column`, `project`: field selectors and paths, their text form, column expressions,
  and field lookup and projection over a serialized struct schema.
- `accessor`, `bitpacked`: block-wise iteration over primitive arrays and over bit-packed arrays,
  the latter unpacking each chunk with FastLanes.
- `buffered`: a layout reader that walks the chunks of a chunked layout for a row range, with
  metadata reading and chunk pruning, over readers that users implement.
- `filter`, `once_cell`, `scan`, `streaming`: the decisions of filtering by a mask, of a
  once-initialized shared cell, of a scan run, and the stream and flush logic of a streaming
  compressor.
- `owned`, `parts`: the checks made when an array hands out a child, and the split of a buffer
  into the parts of a multipart upload.

`app/` holds what is left around them: object-store I/O (uploading in the verified parts), the
async once-cell, the boxed bit-packed iterator, and reading a file of floats.
