# ttx-runtime

A runtime for compute kernels on the Tensix cores of an accelerator. It generates the sources of
firmware and kernels, loads what is built from them, hands kernels to cores that ask for work, and
takes their results.

- `src/` is the library. Every item of it is verified with Verus; what it takes on trust from other
  crates is marked `#[verifier::external_body]` and says what is claimed.
- `tests/` runs the library on concrete values.
- `app/` is what surrounds it: files, processes, the driver of a chip.

The library asks things of a chip by putting commands into a `chip::Chip`. `app::device::perform`
carries them out. Where the library has to wait for a core, it offers a function from what was read
to what to do next, and `app/` runs the loop.
