# benchmark_kernel

A benchmark tool for kernel libraries loaded at run time (`dgemm`, and an
HPCG-style `spmv` on a 27-point stencil), with its logic verified by Verus.

Usage: `bench COMMAND kernel-lib [options...]`, `COMMAND` being `dgemm` or `spmv`.

Layout:

- `src/` — the verified library:
  - `text.rs`: string equality, unsigned decimal numbers, floating-point text;
  - `argument.rs`: the command line (`--name[=value]` options, defaults, refusals);
  - `config.rs`: the settings the command line produces;
  - `dgemm.rs`: the integer arguments of a `dgemm` call and the operands, expected
    values and positions of the result test;
  - `spmv.rs`: the stencil matrix in ELLPACK form (32 slots per row) and the values
    its result test expects;
  - `bench.rs`: the course of a run (prepare, test, warm up, measure).
- `app/` — the program: loading the kernel library, NUMA buffers, calling the
  kernels, timing, floating-point comparisons and the printed report.
- `tests/` — tests of the library.
