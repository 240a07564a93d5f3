# agent_microtone

Sub-trit precision for fine-grained agent control: microtrits are trits
(-1, 0, +1) refined with fractional subdivisions.

- `src/` is the verified library. `grid` holds `MicrotritGrid<T>`, a grid of
  cells modelled as a sequence of rows, with contracts for every operation and
  the laws of reads and writes; `transition` holds the segment choice of
  multi-point path interpolation and the element-wise shape of smooth
  transitions; `tier` holds the precision tiers.
- `app/` holds the microtrit value itself, an `f64` clamped to [-1, 1], and
  everything computed on it (arithmetic, interpolation, sampling blends,
  harmony, precision analysis). It builds on the library, with the grid
  instantiated at `Microtrit`.
- `tests/` exercises the library.
