# rustrecom

Recombination (ReCom) Markov chains over plans that divide a graph into
districts, with short-burst and tilted optimizers. The library is verified with
Verus: what each function returns is stated in its contract and proved.

- `src/recom` holds the chain, the optimizers, the proposal draw and the record
  of failed draws.
- `src/spanning_tree.rs`, `src/samplers.rs`, `src/uniform_sampler.rs` and
  `src/region_sampler.rs` draw spanning trees.
- `src/objectives` and `src/constraints.rs` score and restrict plans.
- `src/stats` writes plans, moves, counts and scores.
- `src/bendl.rs` and `src/cli` hold graph reordering, graph documents,
  configuration and provenance; `src/config.rs` reads configuration documents.
- `app/` is the command line: files, threads, floating point and the progress
  bar.

Numbers are held by their bits (`Double`). The library compares them itself;
sums, products and quotients come from a function that the caller supplies.
