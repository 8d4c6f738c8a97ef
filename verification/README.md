# krometrail

The verified core of Krometrail, a local browser capture runtime that turns a
recorded interval into still-image evidence for coding agents. The library
holds the runtime's decisions and data rules, each stated as a Verus contract
and proved:

- `spans`, `order`, `text`, `ids`, `framing`, `status` — session-time spans,
  stable ordering, decimal and identifier text, length-framed SHA-256
  transcripts, and process status parsing;
- `epoch`, `decode`, `cache` — planning visual epochs over retained frames,
  bounded frame decoding, and the cache identity of artifacts;
- `normalization`, `generation`, `outcomes`, `flight_flow`, `scheduler`,
  `flights`, `work` — sizing and admission of artifact generators, the per-slot
  outcomes of a request, the start of a request and the order of work within
  one generator group, work limits, shared flights of identical work and the
  byte budget of retained intermediate results;
- `markers`, `focus`, `bundle`, `bundle_flow`, `handles`, `progressive` —
  debug-bundle marker assembly, focus times, the bundle header and policy, the
  order of work in composing a bundle, resolved-range handles and the checks of
  progressive evidence reads;
- `errors`, `diagnostics`, `doctor`, `perf` — the stable error surface, log
  rotation decisions, the `doctor` command and the release benchmark's
  arithmetic.

`app/` is the `krometrail` command around the library: argument handling, the
data directory, the diagnostic log on disk and browser discovery. `tests/`
exercises the library from outside.
