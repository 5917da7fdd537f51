# spatial

The verified core of a writer for Spatially Optimized GeoParquet: Parquet files whose rows are
clustered by Z-order (points) or XZ-order (other geometries) codes and that carry compact
multiscale geometry payloads for display streaming.

`src/` is written in Verus. Every function there states its behaviour in `requires`/`ensures`
clauses over mathematical models, and the proof functions state the library's laws, among them:

- Morton codes interleave coordinate bits reversibly, injectively and monotonically
  (`clustering`);
- the compact geometry payload decodes back to the part lengths and coordinates it encodes
  (`wire`), every encoded part keeps its vertex minimum, and a part decodes by prefix sums to
  input vertices in order, from its first vertex to where it ends (`pbf`);
- flattened geometry always satisfies the encoder's input requirement (`geometry`);
- range-partition values never decrease with the display code (`plan`);
- reserved metadata keys are replaced, never duplicated (`metadata`);
- a write reporter never receives a count below one it already received, over any run of calls
  (`pipeline`);
- registering the display functions replaces earlier ones of the same names (`expr`);
- the partitioned sort is inserted at the topmost plan nodes holding both control columns
  (`sort_insertion`).

`app/` holds what the verifier does not see: WKB decoding, floating-point quantization and
extents, terminal progress bars, host memory and environment reads, the shared write tracker,
and the serialized metadata contracts. `tests/` exercises the library on concrete values.
