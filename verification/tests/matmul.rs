use amd_bf16_tools::{Bf16, Bf16MatMul};

fn bf(vals: &[f32]) -> Vec<Bf16> {
    let bits: Vec<u32> = vals.iter().map(|x| x.to_bits()).collect();
    Bf16MatMul::f32_to_bf16(&bits)
}

fn dot(a: &[Bf16], b: &[Bf16]) -> f32 {
    let mut sum = 0.0f32;
    for (x, y) in a.iter().zip(b.iter()) {
        sum += f32::from_bits(x.to_f32_bits()) * f32::from_bits(y.to_f32_bits());
    }
    sum
}

fn product(mm: &Bf16MatMul, a: &[Bf16], b: &[Bf16]) -> Vec<f32> {
    (0..mm.output_len())
        .map(|idx| {
            let (row, col) = mm.operands(a, b, idx);
            f32::from_bits(Bf16::from_f32_bits(dot(&row, &col).to_bits()).to_f32_bits())
        })
        .collect()
}

#[test]
fn new_keeps_the_shape() {
    let mm = Bf16MatMul::new(2, 3, 4);
    assert_eq!((mm.rows_a, mm.cols_a, mm.cols_b), (2, 3, 4));
    assert_eq!(mm.output_len(), 8);
}

#[test]
fn operands_fit_checks_both_lengths() {
    let mm = Bf16MatMul::new(2, 3, 4);
    assert!(mm.operands_fit(6, 12));
    assert!(!mm.operands_fit(5, 12));
    assert!(!mm.operands_fit(6, 11));
    let huge = Bf16MatMul::new(usize::MAX, 2, 1);
    assert!(!huge.operands_fit(usize::MAX, 2));
}

#[test]
fn operands_pick_row_and_column() {
    // A = [[1,2,3],[4,5,6]], B = [[7,8],[9,10],[11,12]]
    let a = bf(&[1.0, 2.0, 3.0, 4.0, 5.0, 6.0]);
    let b = bf(&[7.0, 8.0, 9.0, 10.0, 11.0, 12.0]);
    let mm = Bf16MatMul::new(2, 3, 2);
    let (row, col) = mm.operands(&a, &b, 3);
    assert_eq!(row, bf(&[4.0, 5.0, 6.0]));
    assert_eq!(col, bf(&[8.0, 10.0, 12.0]));
    let (row, col) = mm.operands(&a, &b, 0);
    assert_eq!(row, bf(&[1.0, 2.0, 3.0]));
    assert_eq!(col, bf(&[7.0, 9.0, 11.0]));
}

#[test]
fn identity_product_through_operands() {
    let a = bf(&[1.0, 0.0, 0.0, 1.0]);
    let b = bf(&[2.0, 3.0, 4.0, 5.0]);
    let c = product(&Bf16MatMul::new(2, 2, 2), &a, &b);
    assert!((c[0] - 2.0).abs() < 0.01);
    assert!((c[3] - 5.0).abs() < 0.01);
}

#[test]
fn known_product_through_operands() {
    let a = bf(&[1.0, 2.0, 3.0, 4.0]);
    let b = bf(&[5.0, 6.0, 7.0, 8.0]);
    let c = product(&Bf16MatMul::new(2, 2, 2), &a, &b);
    assert_eq!(c, vec![19.0, 22.0, 43.0, 50.0]);
}

#[test]
fn empty_inner_dimension_gives_empty_operands() {
    let mm = Bf16MatMul::new(2, 0, 3);
    let (row, col) = mm.operands(&[], &[], 5);
    assert!(row.is_empty() && col.is_empty());
}
