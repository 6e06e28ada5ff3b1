# bedrock_cracker

Recovers Minecraft world seeds from the pattern of bedrock in the Nether.
Each observed block gives a check on the 48-bit seed of the floor's or the
roof's positional random; a GPU filters the upper 36 bits of that seed with
checks that leave the low 12 bits out, and the CPU tries the 4096
completions of each surviving value, derives the shared bedrock seed, tests
the other surface, and walks `nextLong()` back to structure and world seeds.

Layout:

- `src/` — the verified library (Verus):
  - `lcg.rs` — Java's LCG, `nextLong()`, and its reversal;
  - `block_data.rs` — observed blocks, the generator's bedrock rule, checks
    and filters, with proofs that a check rejects exactly the seeds that
    contradict its block and that the checks with unknown low bits are sound;
  - `gpu.rs` — devices and the GPU form of a check;
  - `context.rs` — device selection, work sizes, candidate counts;
  - `search.rs` — surface choice, final checks, CPU finalization, batch plans;
  - `error.rs` — errors.
- `app/` — the OpenCL side: device listing, the GPU context and kernel, and
  the search loop that drives the library's batch plan.
- `tests/` — tests of the library.
