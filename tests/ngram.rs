use rune_affine::{CountTable, Row, TableError};

fn table(lines: &[&str]) -> Result<CountTable, TableError> {
    let lines: Vec<String> = lines.iter().map(|l| l.to_string()).collect();
    CountTable::from_lines(&lines)
}

#[test]
fn row_of_a_good_line() {
    let row = Row::from_line("ab 3").unwrap();
    assert_eq!(row.ngram, "ab");
    assert_eq!(row.count, 3);
    let row = Row::from_line("  thEa\t+17  ").unwrap();
    assert_eq!(row.ngram, "thEa");
    assert_eq!(row.count, 17);
}

#[test]
fn row_of_a_malformed_line() {
    assert!(Row::from_line("ab").is_none());
    assert!(Row::from_line("").is_none());
    assert!(Row::from_line("ab 3 4").is_none());
    assert!(Row::from_line("ab x").is_none());
    assert!(Row::from_line("ab -1").is_none());
    assert!(Row::from_line("ab 18446744073709551616").is_none());
    assert_eq!(Row::from_line("ab 18446744073709551615").unwrap().count, u64::MAX);
}

#[test]
fn row_of_fields() {
    let row = Row::from_fields(vec!["ab", "3"]).unwrap();
    assert_eq!((row.ngram, row.count), ("ab", 3));
    assert!(Row::from_fields(vec!["ab"]).is_none());
    assert!(Row::from_fields(vec!["ab", "+"]).is_none());
}

#[test]
fn two_row_table() {
    let t = table(&["ab 3", "cd 1"]).unwrap();
    assert_eq!(t.total(), 4);
    // "c" is no letter of the alphabet and is dropped from the token.
    assert_eq!(t.lookup(&[24, 17]), Some(3));
    assert_eq!(t.lookup(&[23]), Some(1));
    assert_eq!(t.lookup(&[24, 23]), None);
    assert_eq!(t.lookup(&[0, 0]), None);
    let expected = [(vec![24u8, 17], 3u64), (vec![23u8], 1u64)];
    let mut entries = t.entries();
    entries.sort();
    let mut expected = expected.to_vec();
    expected.sort();
    assert_eq!(entries, expected);
    let p = (3 as f64 / t.total() as f64).log10();
    assert!((p - 0.75f64.log10()).abs() < 1e-9);
}

#[test]
fn stored_counts_add_up_to_total() {
    let t = table(&["fvTo 5", "rkgw 7", "hnij 11"]).unwrap();
    assert_eq!(t.total(), 23);
    let sum: u128 = t.entries().iter().map(|e| e.1 as u128).sum();
    assert_eq!(sum, t.total());
}

#[test]
fn absent_quadgram_has_no_count() {
    let t = table(&["fvTo 5"]).unwrap();
    assert_eq!(t.lookup(&[0, 1, 2, 3]), Some(5));
    assert_eq!(t.lookup(&[3, 2, 1, 0]), None);
}

#[test]
fn repeated_key_keeps_last_count() {
    let t = table(&["ab 3", "ab 1"]).unwrap();
    assert_eq!(t.lookup(&[24, 17]), Some(1));
    assert_eq!(t.total(), 4);
    assert_eq!(t.entries().len(), 1);
}

#[test]
fn malformed_line_fails_the_table() {
    assert_eq!(table(&["ab 3", "bad", "cd x"]).err(), Some(TableError::MalformedLine(1)));
    assert_eq!(table(&["ab -3"]).err(), Some(TableError::MalformedLine(0)));
}

#[test]
fn empty_table() {
    let t = table(&[]).unwrap();
    assert_eq!(t.total(), 0);
    assert!(t.entries().is_empty());
}

#[test]
fn large_counts_do_not_overflow() {
    let t = table(&["ab 18446744073709551615", "cd 18446744073709551615"]).unwrap();
    assert_eq!(t.total(), 2 * (u64::MAX as u128));
}
