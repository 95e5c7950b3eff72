# amd-bf16-tools

BF16 (bfloat16) kernels — matrix product, vector operations, statistics,
k-means — compared with their FP32 counterparts for speed and accuracy.

- `src/` is the verified library (Verus). It holds what can be stated over
  integers: bfloat16 values as bit patterns and their exact conversions
  to and from single precision (round to nearest, ties to even), the
  IEEE-754 value order on bit patterns, the operand plan of the matrix
  product, the integer side of k-means (random first centroid, nearest
  centroid, member counts, the stopping rule) and the benchmark timing
  rule, with the laws these obey.
- `app/` is the benchmark program: the single-precision arithmetic, the
  parallel loops (rayon), the timings and the report.
- `tests/` exercises the library, and checks the conversions against the
  `half` crate.
