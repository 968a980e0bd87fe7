# clogbox

Building blocks of an audio processing toolkit, written in Verus and proved
against their contracts.

## Layout

- `src/` — the verified library.
  - `enums` — finite enums numbered `0..count` (`Enum`), with mono/stereo
    channels, sequential indices, Cartesian products, and the numbering used
    by enums whose variants wrap other enums.
  - `enum_map` — maps holding one value per value of an enum.
  - `graph` — slot types and timestamped values; sorted event buffers and
    the ordered merge of event streams (`graph::event`); bit sets and the
    borrow flags of a graph's buffers (`graph::storage`); graph identifiers, records and
    errors (`graph::ir`); the graph editing helper that keeps every edge
    attached and, on request, the graph acyclic (`graph::helper`, over the
    slot maps of `graph::slot_store`); slot enums (`graph::slots`) and module
    status and errors (`graph::module`); compiled schedules and the steps
    that running one takes (`graph::schedule`).
  - `module` — processing status merging, owned buffer storage, and the
    summing matrix's parameters.
  - `filters` — identifiers of the filters' parameters, outputs and modes.
  - `note_target` — which note ports and channels an event addresses, and
    which port and channel carry each note output.
  - `text` — decimal formatting and string joining.
- `tests/` — tests run against the compiled library.
- `app/` — runtime glue: error types with messages, float-valued latencies
  for the graph helper, the buffers of a running graph lent out under the
  library's borrow flags, the driver that carries out a schedule's steps and the delay lines it runs on edges, and the floating-point signal processing (stream
  timing, smoothers, interpolation, one-pole filters).
