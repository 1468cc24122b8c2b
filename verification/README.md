# strm_inspector

A verified reader for STRM v2 image streams: LZ4-compressed BC3/BC7 frames with
named sections ("ranges") stored in a trailing metadata blob.

- `src/` is the library, checked with Verus:
  - `text.rs`: decimal rendering, file-name sanitising, label tables;
  - `error.rs`: every failure and its message;
  - `reader.rs`: little-endian reads and the metadata blob reader;
  - `metadata.rs`: sections and the user-data blob;
  - `stream.rs`: the container (header, frame table, metadata) and `LoadedStream`;
  - `decode.rs`: LZ4 and BC3/BC7 decoding, row order and channel order, PNG encoding;
  - `export.rs`: export file names and the plan of a section export.
- `app/` holds what touches the file system and the user interface: reading files,
  creating folders, writing PNG files, and serialisable copies of the report types.
- `tests/` holds the tests.
