use rune_affine::{affine, do_math};

#[test]
fn one_symbol_transform() {
    assert_eq!(do_math(5, 3, 2), 21);
    assert_eq!(do_math(28, 28, 28), (28 * 56 % 29) as u8);
    assert_eq!(do_math(0, 1, 0), 0);
}

#[test]
fn identity_key_keeps_symbols() {
    let ct: Vec<u8> = (0..29).collect();
    assert_eq!(affine(&ct, 1, 0), ct);
}

#[test]
fn transform_keeps_length_and_range() {
    let ct = vec![0, 7, 28, 13, 255];
    for a in 1..29u8 {
        for b in 0..29u8 {
            let pt = affine(&ct, a, b);
            assert_eq!(pt.len(), ct.len());
            assert!(pt.iter().all(|&y| y < 29));
            assert_eq!(pt, affine(&ct, a, b));
        }
    }
}

#[test]
fn transform_is_a_bijection_for_every_key() {
    let all: Vec<u8> = (0..29).collect();
    for a in 1..29u8 {
        for b in 0..29u8 {
            let mut out = affine(&all, a, b);
            out.sort();
            assert_eq!(out, all);
        }
    }
}

#[test]
fn transform_of_empty_is_empty() {
    assert_eq!(affine(&[], 5, 5), Vec::<u8>::new());
}

#[test]
fn transform_formula() {
    assert_eq!(affine(&[1, 2, 3], 2, 1), vec![4, 6, 8]);
    assert_eq!(affine(&[27, 28], 3, 2), vec![0, 3]);
}
