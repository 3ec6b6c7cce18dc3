use rune_affine::{affine, candidates, quadgrams, rank, KEY_COUNT};

#[test]
fn no_window_below_four_symbols() {
    assert!(quadgrams(&[]).is_empty());
    assert!(quadgrams(&[1, 2, 3]).is_empty());
}

#[test]
fn overlapping_windows() {
    assert_eq!(quadgrams(&[1, 2, 3, 4]), vec![vec![1, 2, 3, 4]]);
    assert_eq!(quadgrams(&[1, 2, 3, 4, 5, 6]), vec![vec![1, 2, 3, 4], vec![2, 3, 4, 5], vec![3, 4, 5, 6]]);
}

#[test]
fn candidates_cover_the_key_space() {
    let ct = vec![3, 14, 15, 9, 26];
    let c = candidates(&ct);
    assert_eq!(c.len(), 812);
    assert_eq!(KEY_COUNT, 812);
    assert_eq!((c[0].a, c[0].b), (1, 0));
    assert_eq!((c[30].a, c[30].b), (2, 1));
    assert_eq!((c[811].a, c[811].b), (28, 28));
    for e in &c {
        assert_eq!(e.plaintext, affine(&ct, e.a, e.b));
    }
}

#[test]
fn rank_puts_the_best_first() {
    let mut scores = vec![10u64; 812];
    scores[500] = 99;
    scores[3] = 50;
    scores[0] = 1;
    let r = rank(&scores);
    assert_eq!(r.len(), 812);
    assert_eq!((r[0].a, r[0].b, r[0].score), (18, 7, 99));
    assert_eq!((r[1].a, r[1].b, r[1].score), (1, 3, 50));
    assert_eq!((r[2].a, r[2].b), (1, 1));
    assert_eq!((r[811].a, r[811].b, r[811].score), (1, 0, 1));
    assert!(r.windows(2).all(|w| w[0].score >= w[1].score));
    let mut keys: Vec<(u8, u8)> = r.iter().map(|e| (e.a, e.b)).collect();
    keys.sort();
    keys.dedup();
    assert_eq!(keys.len(), 812);
}

#[test]
fn equal_scores_keep_enumeration_order() {
    let r = rank(&vec![0u64; 812]);
    for (k, e) in r.iter().enumerate() {
        assert_eq!((e.a as usize, e.b as usize), (k / 29 + 1, k % 29));
    }
}

#[test]
fn single_symbol_ciphertext_scores_zero_everywhere() {
    let c = candidates(&[5]);
    assert_eq!(c.len(), 812);
    let scores: Vec<f64> = c.iter().map(|e| quadgrams(&e.plaintext).iter().map(|_| -13.0).sum()).collect();
    assert!(scores.iter().all(|&s| s == 0.0));
    let keys: Vec<u64> = scores.iter().map(|_| 0).collect();
    let r = rank(&keys);
    assert_eq!(r.len(), 812);
    assert!(r.iter().all(|e| e.score == 0));
}
