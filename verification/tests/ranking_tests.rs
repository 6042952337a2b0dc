use ranker::ranking::rank_keys;

#[test]
fn no_keys_give_no_order() {
    assert_eq!(rank_keys(&vec![]), Vec::<usize>::new());
}

#[test]
fn one_key_ranks_first() {
    assert_eq!(rank_keys(&vec![42]), vec![0]);
}

#[test]
fn larger_keys_rank_first() {
    assert_eq!(rank_keys(&vec![1, 3, 2]), vec![1, 2, 0]);
    assert_eq!(rank_keys(&vec![3, 2, 1]), vec![0, 1, 2]);
    assert_eq!(rank_keys(&vec![1, 2, 3]), vec![2, 1, 0]);
    assert_eq!(rank_keys(&vec![0, u32::MAX, 7]), vec![1, 2, 0]);
}

#[test]
fn equal_keys_keep_their_order() {
    assert_eq!(rank_keys(&vec![5, 5, 5]), vec![0, 1, 2]);
    assert_eq!(rank_keys(&vec![1, 2, 1, 2]), vec![1, 3, 0, 2]);
    assert_eq!(rank_keys(&vec![2, 1, 2, 1, 2]), vec![0, 2, 4, 1, 3]);
}

#[test]
fn ranking_is_the_stable_sort_by_descending_key() {
    let mut state: u32 = 12345;
    for len in 0..40 {
        let keys: Vec<u32> = (0..len)
            .map(|_| {
                state = state.wrapping_mul(1664525).wrapping_add(1013904223);
                (state >> 16) % 7
            })
            .collect();
        let mut expected: Vec<usize> = (0..keys.len()).collect();
        expected.sort_by(|a, b| keys[*b].cmp(&keys[*a]));
        assert_eq!(rank_keys(&keys), expected);
        assert_eq!(rank_keys(&keys), rank_keys(&keys));
    }
}

#[test]
fn score_bits_of_non_negative_floats_rank_like_the_floats() {
    let scores: Vec<f32> = vec![0.25, 0.0, 1.5, 0.125, f32::INFINITY, 1.5, 3.0e-30];
    let keys: Vec<u32> = scores.iter().map(|s| s.to_bits()).collect();
    let mut expected: Vec<usize> = (0..scores.len()).collect();
    expected.sort_by(|a, b| scores[*b].partial_cmp(&scores[*a]).unwrap());
    assert_eq!(rank_keys(&keys), expected);
    assert_eq!(rank_keys(&keys), vec![4, 2, 5, 0, 3, 6, 1]);
}
