use decipher_zk_tutorial::fibonacci::fibonacci;
use decipher_zk_tutorial::fibonacci::MAX_N;
use decipher_zk_tutorial::fibonacci_circuit::fibonacci_circuit;
use decipher_zk_tutorial::fibonacci_circuit::Witness;

#[test]
fn sequence_from_two_and_three() {
    let expected: [u64; 6] = [2, 3, 5, 8, 13, 21];
    for (n, want) in expected.iter().enumerate() {
        assert_eq!(fibonacci(2, 3, n), *want);
    }
}

#[test]
fn base_indices_return_the_seeds() {
    assert_eq!(fibonacci(7, 11, 0), 7);
    assert_eq!(fibonacci(7, 11, 1), 11);
}

#[test]
fn largest_supported_index_and_seeds() {
    // the worst case of the supported domain still fits a 64-bit accumulator
    assert_eq!(fibonacci(u32::MAX, u32::MAX, MAX_N), 12761271564946037535);
    assert_eq!(fibonacci(0, 0, MAX_N), 0);
    assert_eq!(fibonacci(1, 1, MAX_N), 2971215073);
}

#[test]
fn circuit_accepts_the_true_witness() {
    let samples: [(u32, u32, usize); 4] = [(2, 3, 4), (7, 11, 10), (0, 1, 20), (u32::MAX, u32::MAX, MAX_N)];
    for (first, second, n) in samples {
        let nth: u64 = fibonacci(first, second, n);
        let witness = Witness { first: first as u64, second: second as u64 };
        assert!(fibonacci_circuit(n, nth, &witness));
    }
}

#[test]
fn circuit_rejects_a_wrong_witness() {
    // first=2, second=3, n=4 reaches 13; a witness of (2, 4) does not
    let witness = Witness { first: 2, second: 4 };
    assert!(!fibonacci_circuit(4, 13, &witness));

    // and a wrong claim is rejected for the honest witness
    let witness = Witness { first: 2, second: 3 };
    assert!(!fibonacci_circuit(4, 14, &witness));
}
