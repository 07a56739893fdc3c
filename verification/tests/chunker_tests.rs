use stow::chunker::chunks_of;

#[test]
fn items_are_cut_in_order() {
    let items: Vec<u32> = vec![1, 2, 3, 4, 5];
    assert_eq!(chunks_of(&items, 2), vec![vec![1, 2], vec![3, 4], vec![5]]);
}

#[test]
fn an_exact_multiple_leaves_no_short_chunk() {
    let items: Vec<u32> = vec![1, 2, 3, 4, 5, 6];
    assert_eq!(chunks_of(&items, 3), vec![vec![1, 2, 3], vec![4, 5, 6]]);
    assert_eq!(chunks_of(&items, 6), vec![vec![1, 2, 3, 4, 5, 6]]);
}

#[test]
fn nothing_gives_no_chunk() {
    let items: Vec<u32> = Vec::new();
    assert_eq!(chunks_of(&items, 4), Vec::<Vec<u32>>::new());
}

#[test]
fn a_long_chunk_length_gives_one_chunk() {
    let items: Vec<u32> = vec![7, 8];
    assert_eq!(chunks_of(&items, 5), vec![vec![7, 8]]);
    assert_eq!(chunks_of(&items, usize::MAX), vec![vec![7, 8]]);
}

#[test]
fn chunks_of_one_are_singletons() {
    let items: Vec<u32> = vec![7, 8, 9];
    assert_eq!(chunks_of(&items, 1), vec![vec![7], vec![8], vec![9]]);
}

#[test]
fn the_count_is_the_quotient_rounded_up() {
    for n in 0usize..40 {
        let items: Vec<usize> = (0..n).collect();
        for k in 1usize..9 {
            let chunks = chunks_of(&items, k);
            assert_eq!(chunks.len(), (n + k - 1) / k);
            for (i, chunk) in chunks.iter().enumerate() {
                if i + 1 < chunks.len() {
                    assert_eq!(chunk.len(), k);
                } else {
                    assert_eq!(chunk.len(), n - i * k);
                    assert!(1 <= chunk.len() && chunk.len() <= k);
                }
            }
            assert_eq!(chunks.concat(), items);
        }
    }
}

#[test]
fn chunks_are_what_the_standard_library_cuts() {
    let items: Vec<u8> = (0..23).collect();
    for k in 1usize..30 {
        let expected: Vec<Vec<u8>> = items.chunks(k).map(|c| c.to_vec()).collect();
        assert_eq!(chunks_of(&items, k), expected);
    }
}
