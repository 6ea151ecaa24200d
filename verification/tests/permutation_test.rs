use tip5::field::PRIME;
use tip5::permutation::{linear_layer, permute, sbox_layer};

#[test]
fn test_permute_fixed_vector() {
    let mut state: [u64; 16] = [1, 2, 3, 4, 5, 6, 7, 8, 9, 10, 11, 12, 13, 14, 15, 16];
    permute(&mut state);
    let expected: [u64; 16] = [
        121834476, 3004567695, 261211696, 3099845283, 3884330927, 777654849, 4146498082,
        251268645, 93660371, 1742566118, 513621758, 2190553540, 1912549331, 1831193702,
        4079201858, 2930802970,
    ];
    assert_eq!(state, expected);
}

#[test]
fn test_permute_zero_vector() {
    let mut state = [0u64; 16];
    permute(&mut state);
    let expected: [u64; 16] = [
        2300679342, 4144173711, 3885141829, 2919746336, 4287136359, 1540844397, 1363883297,
        1745771256, 3287866837, 4283303908, 1994725385, 355449942, 4272264276, 3495331762,
        4163209717, 702476782,
    ];
    assert_eq!(state, expected);
}

#[test]
fn test_permute_all_max_vector() {
    let mut state = [u64::MAX; 16];
    permute(&mut state);
    let expected: [u64; 16] = [
        826355274, 1116950304, 874476745, 3512763041, 3133723710, 4220799602, 2577678949,
        2522236139, 2723701819, 4053312908, 1955148356, 3909718928, 4065567298, 2492172840,
        3629633374, 1725412945,
    ];
    assert_eq!(state, expected);
}

#[test]
fn test_permute_two_fresh_calls_agree_but_not_idempotent() {
    let input: [u64; 16] = [1, 2, 3, 4, 5, 6, 7, 8, 9, 10, 11, 12, 13, 14, 15, 16];

    let mut first = input;
    permute(&mut first);
    let mut second = input;
    permute(&mut second);
    assert_eq!(first, second);

    let mut twice = first;
    permute(&mut twice);
    assert!(twice != input, "applying the permutation twice must not return the input");
}

#[test]
fn test_permute_output_in_field_range() {
    let mut state = [u64::MAX; 16];
    permute(&mut state);
    for &word in state.iter() {
        assert!(word < PRIME);
    }
}

#[test]
fn test_diffusion_single_word_flip() {
    let base: [u64; 16] = [1, 2, 3, 4, 5, 6, 7, 8, 9, 10, 11, 12, 13, 14, 15, 16];
    let mut base_out = base;
    permute(&mut base_out);

    for i in 0..16 {
        let mut flipped = base;
        flipped[i] ^= 1;
        let mut flipped_out = flipped;
        permute(&mut flipped_out);
        for j in 0..16 {
            assert!(
                flipped_out[j] != base_out[j],
                "flipping input word {} left output word {} unchanged",
                i,
                j
            );
        }
    }
}

#[test]
fn test_layers_reduce_their_input_first() {
    let raw = [PRIME; 16];
    let zeros = [0u64; 16];
    assert_eq!(sbox_layer(&raw), sbox_layer(&zeros));
    assert_eq!(linear_layer(&raw), linear_layer(&zeros));
}

#[test]
fn test_sbox_layer_exact_value() {
    let mut state = [0u64; 16];
    state[0] = 2;
    let out = sbox_layer(&state);
    assert_eq!(out[0], 128);
    for i in 1..16 {
        assert_eq!(out[i], 0);
    }
}
