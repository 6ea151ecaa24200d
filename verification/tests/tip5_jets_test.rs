use std::time::Instant;

use tip5::jets::{hash_10_jet, permutation_jet};
use tip5::permutation::permute;
use tip5::tree::TreeValue;

fn build_list(values: &[u64]) -> TreeValue {
    let mut list = TreeValue::Leaf(0);
    for &v in values.iter().rev() {
        list = TreeValue::Pair(Box::new(TreeValue::Leaf(v)), Box::new(list));
    }
    list
}

fn build_subject(values: &[u64]) -> TreeValue {
    // [battery sample context]: the argument list sits at axis six
    TreeValue::Pair(
        Box::new(TreeValue::Leaf(0)),
        Box::new(TreeValue::Pair(
            Box::new(build_list(values)),
            Box::new(TreeValue::Leaf(0)),
        )),
    )
}

fn list_to_vec(tree: &TreeValue) -> Vec<u64> {
    let mut out = Vec::new();
    let mut current = tree;
    while let TreeValue::Pair(head, rest) = current {
        if let TreeValue::Leaf(x) = &**head {
            out.push(*x);
        }
        current = rest;
    }
    out
}

#[test]
fn test_hash_10_jet_functionality() {
    let test_input = [0u64; 10];
    let subject = build_subject(&test_input);

    let result = hash_10_jet(&subject);
    assert!(result.is_ok(), "hash-10 jet should succeed");

    let result_tree = result.unwrap();
    assert!(
        matches!(result_tree, TreeValue::Pair(_, _)),
        "Result should be a list"
    );

    let output = list_to_vec(&result_tree);
    assert_eq!(output.len(), 5, "Should output exactly 5 elements");

    println!("   Input: {:?}", test_input);
    println!("   Output: {:?}", output);
}

#[test]
fn test_hash_10_jet_performance() {
    let test_input: [u64; 10] = [1, 2, 3, 4, 5, 6, 7, 8, 9, 10];
    let subject = build_subject(&test_input);

    for _ in 0..10 {
        let _ = hash_10_jet(&subject);
    }

    let iterations: u32 = 1000;
    let start = Instant::now();
    for _ in 0..iterations {
        let result = hash_10_jet(&subject);
        assert!(result.is_ok());
    }
    let duration = start.elapsed();
    let avg_time = duration / iterations;

    println!("   Total time for {} iterations: {:?}", iterations, duration);
    println!("   Average time per call: {:?}", avg_time);

    assert!(avg_time.as_micros() < 1000, "Each hash-10 should take less than 1ms");
}

#[test]
fn test_tip5_permutation_jet_functionality() {
    let test_values: [u64; 16] = [1, 2, 3, 4, 5, 6, 7, 8, 9, 10, 11, 12, 13, 14, 15, 16];
    let subject = build_subject(&test_values);

    let result = permutation_jet(&subject);
    assert!(result.is_ok(), "TIP5 permutation jet should succeed");

    let result_tree = result.unwrap();
    assert!(
        matches!(result_tree, TreeValue::Pair(_, _)),
        "Result should be a list"
    );
}

#[test]
fn test_tip5_permutation_performance() {
    let test_values: [u64; 16] = [
        0x1234567890abcdef,
        0xfedcba0987654321,
        0x1111111111111111,
        0x2222222222222222,
        0x3333333333333333,
        0x4444444444444444,
        0x5555555555555555,
        0x6666666666666666,
        0x7777777777777777,
        0x8888888888888888,
        0x9999999999999999,
        0xaaaaaaaaaaaaaaaa,
        0xbbbbbbbbbbbbbbbb,
        0xcccccccccccccccc,
        0xdddddddddddddddd,
        0xeeeeeeeeeeeeeeee,
    ];
    let subject = build_subject(&test_values);

    for _ in 0..10 {
        let _ = permutation_jet(&subject);
    }

    let iterations: u32 = 1000;
    let start = Instant::now();
    for _ in 0..iterations {
        let result = permutation_jet(&subject);
        assert!(result.is_ok());
    }
    let duration = start.elapsed();
    let avg_time = duration / iterations;

    println!("   Total time for {} iterations: {:?}", iterations, duration);
    println!("   Average time per call: {:?}", avg_time);

    assert!(avg_time.as_micros() < 1000, "Each permutation should take less than 1ms");
}

#[test]
fn test_parity_on_pseudorandom_corpus() {
    // a fixed linear-congruential stream stands in for randomized inputs,
    // so the corpus is reproducible
    let mut seed: u64 = 0x2545f4914f6cdd1d;
    let mut next = || {
        seed = seed.wrapping_mul(6364136223846793005).wrapping_add(1442695040888963407);
        seed
    };

    for _ in 0..10 {
        let mut state = [0u64; 16];
        for word in state.iter_mut() {
            *word = next();
        }
        let mut direct = state;
        permute(&mut direct);
        let jet_tree = permutation_jet(&build_subject(&state)).unwrap();
        assert_eq!(direct.to_vec(), list_to_vec(&jet_tree));
    }

    for _ in 0..10 {
        let mut input = [0u64; 10];
        for word in input.iter_mut() {
            *word = next() % 4294967291;
        }
        let direct = tip5::sponge::hash10(&input).unwrap();
        let jet_tree = hash_10_jet(&build_subject(&input)).unwrap();
        assert_eq!(direct.to_vec(), list_to_vec(&jet_tree));
    }
}

#[test]
fn test_tip5_rust_vs_jet_consistency() {
    let test_cases: Vec<[u64; 16]> = vec![
        [0; 16],
        [1, 2, 3, 4, 5, 6, 7, 8, 9, 10, 11, 12, 13, 14, 15, 16],
        [0xffffffffffffffff; 16],
        [
            0x1234567890abcdef,
            0xfedcba0987654321,
            0x1111111111111111,
            0x2222222222222222,
            0x3333333333333333,
            0x4444444444444444,
            0x5555555555555555,
            0x6666666666666666,
            0x7777777777777777,
            0x8888888888888888,
            0x9999999999999999,
            0xaaaaaaaaaaaaaaaa,
            0xbbbbbbbbbbbbbbbb,
            0xcccccccccccccccc,
            0xdddddddddddddddd,
            0xeeeeeeeeeeeeeeee,
        ],
    ];

    for (i, test_input) in test_cases.iter().enumerate() {
        let mut rust_sponge = *test_input;
        permute(&mut rust_sponge);

        let subject = build_subject(test_input);
        let jet_result = permutation_jet(&subject).unwrap();

        let jet_sponge = list_to_vec(&jet_result);

        assert_eq!(
            rust_sponge.to_vec(),
            jet_sponge,
            "Test case {}: Rust and jet results should match",
            i
        );
    }
}
