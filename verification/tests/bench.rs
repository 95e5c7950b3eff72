use amd_bf16_tools::BenchSuite;

#[test]
fn mean_micros_rounds_down() {
    assert_eq!(BenchSuite::mean_micros(7700, 5), 1540);
    assert_eq!(BenchSuite::mean_micros(7704, 5), 1540);
    assert_eq!(BenchSuite::mean_micros(0, 3), 0);
}
