//! The integer side of the BF16 matrix product: operand shapes, which
//! entries of A and B make up each entry of the product, and the
//! element-wise conversions between single precision and bfloat16.

use vstd::prelude::*;
use crate::bf16::{Bf16, bf16_rounded, bf16_widened};

verus! {

/// The shape of a product A(rows_a x cols_a) @ B(cols_a x cols_b), both
/// operands row-major.
pub struct Bf16MatMul {
    pub rows_a: usize,
    pub cols_a: usize,
    pub cols_b: usize,
}

impl Bf16MatMul {
    /// A product context for A(rows_a x cols_a) @ B(cols_a x cols_b).
    pub fn new(rows_a: usize, cols_a: usize, cols_b: usize) -> (r: Self)
        ensures
            r.rows_a == rows_a,
            r.cols_a == cols_a,
            r.cols_b == cols_b,
    {
        Bf16MatMul { rows_a, cols_a, cols_b }
    }

    /// A has rows_a * cols_a entries and B has cols_a * cols_b.
    pub open spec fn accepts(&self, a_len: int, b_len: int) -> bool {
        &&& a_len == self.rows_a * self.cols_a
        &&& b_len == self.cols_a * self.cols_b
    }

    /// Whether operands of these lengths have the shape of this product.
    pub fn operands_fit(&self, a_len: usize, b_len: usize) -> (r: bool)
        ensures
            r == self.accepts(a_len as int, b_len as int),
            r == (a_len == self.rows_a * self.cols_a && b_len == self.cols_a * self.cols_b),
    {
        let a_need = self.rows_a.checked_mul(self.cols_a);
        let b_need = self.cols_a.checked_mul(self.cols_b);
        match (a_need, b_need) {
            (Some(an), Some(bn)) => an == a_len && bn == b_len,
            (None, _) => {
                assert(self.rows_a * self.cols_a > usize::MAX);
                false
            },
            (_, None) => {
                assert(self.cols_a * self.cols_b > usize::MAX);
                false
            },
        }
    }

    /// The number of entries of the product, rows_a * cols_b.
    pub fn output_len(&self) -> (r: usize)
        requires
            self.rows_a * self.cols_b <= usize::MAX,
        ensures
            r == self.rows_a * self.cols_b,
    {
        self.rows_a * self.cols_b
    }

    /// The operands of entry `idx` of the row-major product: row
    /// `idx / cols_b` of A and column `idx % cols_b` of B, whose dot product
    /// is that entry.
    pub fn operands(&self, a: &[Bf16], b: &[Bf16], idx: usize) -> (r: (Vec<Bf16>, Vec<Bf16>))
        requires
            self.accepts(a.len() as int, b.len() as int),
            idx < self.rows_a * self.cols_b,
        ensures
            r.0.len() == self.cols_a,
            r.1.len() == self.cols_a,
            forall|k: int|
                0 <= k < self.cols_a ==> #[trigger] r.0@[k] == a@[(idx / self.cols_b) * self.cols_a
                    + k],
            forall|k: int|
                0 <= k < self.cols_a ==> #[trigger] r.1@[k] == b@[k * self.cols_b + idx
                    % self.cols_b],
    {
        let rows_a: usize = self.rows_a;
        let cols_a: usize = self.cols_a;
        let cols_b: usize = self.cols_b;
        assert(cols_b > 0) by (nonlinear_arith)
            requires
                idx < rows_a * cols_b,
        ;
        let i: usize = idx / cols_b;
        let j: usize = idx % cols_b;
        assert(i < rows_a) by (nonlinear_arith)
            requires
                idx < rows_a * cols_b,
                cols_b > 0,
                i == idx / cols_b,
        ;
        let mut row: Vec<Bf16> = Vec::new();
        let mut col: Vec<Bf16> = Vec::new();
        let mut k: usize = 0;
        while k < cols_a
            invariant
                i < rows_a,
                j < cols_b,
                i == idx / cols_b,
                j == idx % cols_b,
                k <= cols_a,
                a.len() == rows_a * cols_a,
                b.len() == cols_a * cols_b,
                row.len() == k,
                col.len() == k,
                forall|t: int| 0 <= t < k ==> #[trigger] row@[t] == a@[i * cols_a + t],
                forall|t: int| 0 <= t < k ==> #[trigger] col@[t] == b@[t * cols_b + j],
            decreases cols_a - k,
        {
            assert(i * cols_a + k < rows_a * cols_a) by (nonlinear_arith)
                requires
                    i < rows_a,
                    k < cols_a,
            ;
            assert(k * cols_b + j < cols_a * cols_b) by (nonlinear_arith)
                requires
                    j < cols_b,
                    k < cols_a,
            ;
            row.push(a[i * cols_a + k]);
            col.push(b[k * cols_b + j]);
            k = k + 1;
        }
        (row, col)
    }

    /// Narrows each single-precision value (given by its bit pattern) to the
    /// nearest bfloat16, ties to even.
    pub fn f32_to_bf16(data: &[u32]) -> (r: Vec<Bf16>)
        ensures
            r.len() == data.len(),
            forall|i: int| 0 <= i < data.len() ==> #[trigger] r@[i].bits == bf16_rounded(data@[i]),
    {
        let mut out: Vec<Bf16> = Vec::new();
        let mut i: usize = 0;
        while i < data.len()
            invariant
                i <= data.len(),
                out.len() == i,
                forall|t: int| 0 <= t < i ==> #[trigger] out@[t].bits == bf16_rounded(data@[t]),
            decreases data.len() - i,
        {
            out.push(Bf16::from_f32_bits(data[i]));
            i = i + 1;
        }
        out
    }

    /// Widens each bfloat16 to the bit pattern of the `f32` of the same value.
    pub fn bf16_to_f32(data: &[Bf16]) -> (r: Vec<u32>)
        ensures
            r.len() == data.len(),
            forall|i: int| 0 <= i < data.len() ==> #[trigger] r@[i] == bf16_widened(data@[i].bits),
    {
        let mut out: Vec<u32> = Vec::new();
        let mut i: usize = 0;
        while i < data.len()
            invariant
                i <= data.len(),
                out.len() == i,
                forall|t: int| 0 <= t < i ==> #[trigger] out@[t] == bf16_widened(data@[t].bits),
            decreases data.len() - i,
        {
            out.push(data[i].to_f32_bits());
            i = i + 1;
        }
        out
    }
}

/// The row-major layout of the product: entry (i, j) sits at index
/// `i * cols_b + j`, below `rows_a * cols_b`, and `operands` reads that
/// index back as row `i` and column `j`; so every entry is computed once.
pub proof fn lemma_entry_position(rows_a: int, cols_b: int, i: int, j: int)
    requires
        0 <= i < rows_a,
        0 <= j < cols_b,
    ensures
        0 <= i * cols_b + j < rows_a * cols_b,
        (i * cols_b + j) / cols_b == i,
        (i * cols_b + j) % cols_b == j,
{
    assert(0 <= i * cols_b + j < rows_a * cols_b) by (nonlinear_arith)
        requires
            0 <= i < rows_a,
            0 <= j < cols_b,
    ;
    vstd::arithmetic::div_mod::lemma_fundamental_div_mod_converse(i * cols_b + j, cols_b, i, j);
}

/// The operands have the product's shape exactly when A holds
/// rows_a * cols_a entries and B holds cols_a * cols_b: an operand with
/// more or fewer entries is refused.
pub proof fn lemma_accepts_exact_shape(mm: Bf16MatMul, a_len: int, b_len: int)
    ensures
        mm.accepts(a_len, b_len) == (a_len == mm.rows_a * mm.cols_a && b_len == mm.cols_a
            * mm.cols_b),
        a_len != mm.rows_a * mm.cols_a ==> !mm.accepts(a_len, b_len),
        b_len != mm.cols_a * mm.cols_b ==> !mm.accepts(a_len, b_len),
{
}

} // verus!
