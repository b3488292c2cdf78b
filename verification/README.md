# av_api

Audio ingest state for API services, with its rules proved by Verus.

- `src/` is the verified library. Each public function states its result in
  its contract; the laws that span several calls (header and descriptor round
  trips, permanent epoch release, each epoch released once, bounded
  assembler windows, the host clock across calls, released epochs on one
  timeline, idempotent duplicates, lossless slotting and framing) are public
  proof functions.
- `app/` is the unverified edge: JSON for the stem config, the cached PCM
  writers that talk to the upload-response service, and the floating-point
  audio paths.
- `tests/` runs the library on concrete values.
