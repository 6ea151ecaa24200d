use tip5::error::Error;
use tip5::field::PRIME;
use tip5::sponge::{hash10, init_tip5_state_fixed};

#[test]
fn test_init_tip5_state_fixed_layout() {
    let state = init_tip5_state_fixed();
    for i in 0..10 {
        assert_eq!(state[i], 0);
    }
    for i in 10..16 {
        assert_eq!(state[i], 5);
    }
}

#[test]
fn test_hash10_zero_digest() {
    let digest = hash10(&[0u64; 10]).unwrap();
    let expected: [u64; 5] = [1153082049, 2040747793, 2777540902, 758731985, 1255768945];
    assert_eq!(digest, expected);
}

#[test]
fn test_hash10_fixed_vector() {
    let input: [u64; 10] = [1, 2, 3, 4, 5, 6, 7, 8, 9, 10];
    let digest = hash10(&input).unwrap();
    let expected: [u64; 5] = [784332495, 3153716645, 1050006999, 501029941, 3708438813];
    assert_eq!(digest, expected);
}

#[test]
fn test_hash10_deterministic() {
    let input: [u64; 10] = [9, 8, 7, 6, 5, 4, 3, 2, 1, 0];
    assert_eq!(hash10(&input).unwrap(), hash10(&input).unwrap());
}

#[test]
fn test_hash10_rejects_word_at_modulus() {
    let mut input = [0u64; 10];
    input[3] = PRIME;
    assert_eq!(hash10(&input), Err(Error::OutOfRange));
}

#[test]
fn test_hash10_rejects_word_above_modulus() {
    let mut input = [1u64; 10];
    input[9] = PRIME + 1;
    assert_eq!(hash10(&input), Err(Error::OutOfRange));
    let all_max = [u64::MAX; 10];
    assert_eq!(hash10(&all_max), Err(Error::OutOfRange));
}

#[test]
fn test_hash10_accepts_largest_field_elements() {
    let input = [PRIME - 1; 10];
    let digest = hash10(&input).unwrap();
    for &word in digest.iter() {
        assert!(word < PRIME);
    }
}

#[test]
fn test_hash10_digest_in_field_range() {
    let corpus: [[u64; 10]; 3] = [
        [0; 10],
        [1, 2, 3, 4, 5, 6, 7, 8, 9, 10],
        [PRIME - 1, 0, PRIME - 2, 1, 12345, 99, 3, 4294967, 17, 2],
    ];
    for input in corpus.iter() {
        let digest = hash10(input).unwrap();
        for &word in digest.iter() {
            assert!(word < PRIME);
        }
    }
}
