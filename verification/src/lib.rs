//! Tools for BF16 (bfloat16) numerical workloads: the bit-exact
//! conversions between single precision and bfloat16, the IEEE-754
//! value order on bit patterns, the index plan of a matrix product, the
//! integer side of k-means clustering and the benchmark timing rule.
//! Floating-point arithmetic itself lives with the program around the
//! library; every value crosses the boundary as its bit pattern.

pub mod float_bits;
pub mod bf16;
pub mod matmul;
pub mod kmeans;
pub mod bench;

pub use float_bits::{f32_less, F32_MAX_BITS};
pub use bf16::Bf16;
pub use matmul::Bf16MatMul;
pub use kmeans::{Bf16Kmeans, KmeansRun};
pub use bench::BenchSuite;
