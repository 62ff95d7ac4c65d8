use decipher_zk_tutorial::utils::greater_than;
use decipher_zk_tutorial::utils::greater_than_or_equal_to;
use decipher_zk_tutorial::utils::greater_than_or_equal_to_unsafe;
use decipher_zk_tutorial::utils::greater_than_unsafe;
use decipher_zk_tutorial::utils::less_than;
use decipher_zk_tutorial::utils::less_than_or_equal_to;
use decipher_zk_tutorial::utils::less_than_or_equal_to_unsafe;
use decipher_zk_tutorial::utils::less_than_unsafe;
use decipher_zk_tutorial::utils::num_to_bits;
use decipher_zk_tutorial::utils::range_check_optimized;

#[test]
fn comparisons_match_native_ordering() {
    for a in 0u64..16 {
        for b in 0u64..16 {
            assert_eq!(less_than(a, b, 4), a < b);
            assert_eq!(less_than_unsafe(a, b, 4), a < b);
            assert_eq!(greater_than(a, b, 4), a > b);
            assert_eq!(greater_than_unsafe(a, b, 4), a > b);
            assert_eq!(less_than_or_equal_to(a, b, 4), a <= b);
            assert_eq!(less_than_or_equal_to_unsafe(a, b, 4), a <= b);
            assert_eq!(greater_than_or_equal_to(a, b, 4), a >= b);
            assert_eq!(greater_than_or_equal_to_unsafe(a, b, 4), a >= b);
        }
    }
}

#[test]
fn comparisons_wide_operands() {
    let big: u64 = (1u64 << 62) - 1;
    assert!(less_than(big - 1, big, 62));
    assert!(!less_than(big, big - 1, 62));
    assert!(greater_than(big, 0, 62));
    assert!(less_than_or_equal_to(big, big, 62));
    assert!(greater_than_or_equal_to(0, 0, 62));
}

#[test]
fn boundary_equal_operands() {
    for x in [0u64, 1, 5, 127, 254, 255] {
        assert!(!less_than(x, x, 8));
        assert!(less_than_or_equal_to(x, x, 8));
        assert!(!greater_than(x, x, 8));
        assert!(greater_than_or_equal_to(x, x, 8));
    }
}

#[test]
fn non_strict_scenarios() {
    assert!(less_than_or_equal_to(5, 5, 8));
    assert!(!less_than_or_equal_to(6, 5, 8));
}

#[test]
fn bit_decomposition_is_exact() {
    let bits = num_to_bits(4, 13);
    assert_eq!(bits, vec![true, false, true, true]);

    let bits = num_to_bits(8, 0);
    assert_eq!(bits, vec![false; 8]);

    let bits = num_to_bits(63, (1u64 << 63) - 1);
    assert_eq!(bits.len(), 63);
    assert!(bits.iter().all(|&b| b));

    // the weighted sum of the bits gives the number back
    let x: u64 = 0xdead_beef;
    let bits = num_to_bits(32, x);
    let recomposed: u64 = bits
        .iter()
        .enumerate()
        .map(|(i, &b)| if b { 1u64 << i } else { 0 })
        .sum();
    assert_eq!(recomposed, x);
}

#[test]
fn range_check_accepts_fitting_values() {
    range_check_optimized(0, 1);
    range_check_optimized(15, 4);
    range_check_optimized((1u64 << 62) - 1, 62);
}
