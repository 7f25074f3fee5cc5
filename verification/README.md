# dccms_atlas

Residue-number arithmetic over the Maya calendar cycles (Tzolk'in 260,
Haab 365, Venus 584, the Long Count), and the analyses built on it: the
configuration atlas of event addresses, the recursive period generator,
the DKAM admissibility filter, mutual-information independence tests,
Katun and Montgomery-style instruments, and the DPM prime stack.

Everything under `src/` is verified with Verus: each public function
states in its contract what it returns, and the laws of the library
(round trips of the recombinant CRT state, conservation of counts,
partitions of cycles into phases, Fibonacci and Ramanujan identities)
stand as proof functions beside the code they speak of.

Layout:

- `src/engines/`: lanes and residue states, Pisano periods, Ramanujan
  sums, the vigesimal and Long Count engines, the recombinant CRT state.
- `src/atlas.rs`, `src/events.rs`: event corpora and their addresses.
- `src/h1_*`, `src/h3_*`, `src/h4_*`, `src/h5_*`: the generator, the
  independence tests, the instruments and the Katun analysis.
- `src/dpm_prime/`: the lemma, theorem and validation stack.
- `tests/`: executable tests of the library.
