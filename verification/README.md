# spz_sandpile

Simulation of the noisy stochastic parallel Zhang (SPZ) sandpile model on a
square lattice with Newman–Watts shortcuts, with its integer core verified in
Verus.

## Layout

- `src/` — the verified library (Verus):
  - `rng.rs`: xoshiro256++ seeded through SplitMix64, with exact specifications
    of every draw, and Lemire's unbiased bounded sampling (`gen_usize_range`).
  - `network.rs`: the open-boundary square lattice (`make_regular_lattice`),
    proved to be a simple undirected graph with `2 L (L - 1)` edges; the
    Newman–Watts shortcut insertion, proved to keep the graph simple, keep
    every existing edge and add exactly as many edges as it reports; the
    effective neighbour table of the toppling rule.
  - `stats.rs`: the dense duration tally and the hasher for the size map.
  - `params.rs`: configuration checks and the choice of the parameter that
    labels a sweep.
  - `codec.rs`: the checkpoint byte format (bincode), with the proof that
    decoding gives back what encoding wrote.
  - `shape.rs`: duration windows and the accumulation of average avalanche
    shapes.
- `app/` — the program: configuration loading, the floating-point sandpile
  dynamics, power-law and shape-collapse fits, file output, plots and
  progress bars.
- `tests/` — tests of the library.

## Running

```sh
cargo run --release -- configs/<name>.toml
```

The program then asks for a run mode on stdin (`0` animation, `1` warm-up,
`2` size/duration statistics, `3` average shapes, `12` and `13` warm-up then
measurement).
