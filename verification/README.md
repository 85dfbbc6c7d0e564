# vllm_bench

The dataset and backend logic of a benchmark for inference servers, verified with Verus.

- `src/` is the library. Verus proves the contracts of its functions, but for those of the few
  that call an outside crate or std (see below).
  - `backends::registry`: custom backends by name, and the one that is selected.
  - `datasets::multi_turn`: random multi-turn conversations, with accumulated history
    (`random_turns`) or with three tiers of shared prefixes (`prefix_sharing`).
  - `datasets::prompt`: prompts of a wanted number of tokens.
  - `datasets::sharegpt`: conversations from a ShareGPT dataset.
  - `datasets::laws`, `datasets::sharegpt_laws`: what holds of generated and of loaded
    conversations as a whole.
  - `run_mode`: what a run of the program is to do.
- `tests/` runs the library on concrete values.
- `app/` is the program around it: process-wide state, files, threads, the command line and the
  runtime.

A tokenizer is handed to the library as two functions. What the library makes of it is stated over
a `TokenizerModel`, the mathematical functions that those two compute.

Ratios are given to the library as the lengths that they come to, and probabilities in units of
2^-53, rounded up: a uniform draw from [0, 1) is a whole number of such units, so it lies below a
fraction exactly when it lies below the fraction rounded up.

What is believed without proof is marked `external_body`: the generator of the `rand` crate (in
`rng`), the parser of the `serde_json` crate (in `datasets::json`) and the making of an `Arc<str>`
(in `datasets`).
