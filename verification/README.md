# anise

The verified core of the ANISE toolkit for space mission design: the parts of
its logic that are about structure rather than floating-point physics, with
their behaviour stated in contracts and proved with Verus.

## Layout

- `src/` — the verified library.
  - `aberration` — aberration correction flags, their SPICE names and
    descriptions.
  - `elements` — the orbital elements and their units.
  - `event`, `event_ops`, `event_complete`, `event_merge` — event edges, the
    pairing of boundary crossings into arcs, and the intersection of
    timelines of arcs: the arcs of a timeline that overlap or touch are
    merged, and at every instant that is no arc's rise or fall a window holds
    the instant exactly when each timeline is inside one of its arcs (for
    arcs in order of their rise).
  - `domain` — validity domains of kernel summaries and their gaps.
  - `registry` — the ordered maps (`indexmap::IndexMap`) of loaded kernels,
    keyed by alias.
  - `almanac`, `datasets`, `searches` — the Almanac: loading, unloading and
    swapping kernels, listing them, searching summaries and data sets in
    reverse loading order.
  - `metaload` — MetaFiles and the MetaAlmanac: which URIs are local, which
    remote file a URI names, and the CRC32 check of cached copies.
  - `report` — the flattening of evaluated scalars into a sorted table.
  - `loading` — what a file of bytes is loaded as, and the errors of loading.
  - `embed` — the set of bundled kernels.
  - `errors`, `text` — error types and text helpers.
- `tests/` — tests of the library.
- `app/` — what needs input and output: downloads, the cache folder, Dhall
  configurations, CSV files, and the text forms of library values.

Epochs are counted in TAI nanoseconds (`i128`) inside the library; `app/`
converts them to and from `hifitime::Epoch`.
