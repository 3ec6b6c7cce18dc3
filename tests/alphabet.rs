use rune_affine::{encode_clusters_in, only_uppercase, r2v, symbol_of, v2e, Script};

#[test]
fn runes_encode_in_order() {
    let ct = String::from("ᚠᚢᚦ ᛠ");
    assert_eq!(r2v(&ct), vec![0, 1, 2, 28]);
}

#[test]
fn runes_drop_unrecognized_glyphs() {
    let ct = String::from("xᚩ-ᚱ\nᛡ?");
    assert_eq!(r2v(&ct), vec![3, 4, 27]);
    assert_eq!(r2v(&String::new()), Vec::<u8>::new());
}

#[test]
fn every_rune_has_its_code() {
    let runes = "ᚠᚢᚦᚩᚱᚳᚷᚹᚻᚾᛁᛂᛇᛈᛉᛋᛏᛒᛖᛗᛚᛝᛟᛞᚪᚫᚣᛡᛠ";
    let expected: Vec<u8> = (0..29).collect();
    assert_eq!(r2v(&runes.to_string()), expected);
}

#[test]
fn latin_letters_encode_in_order() {
    assert_eq!(only_uppercase("fvTX"), vec![0, 1, 2, 28]);
    assert_eq!(only_uppercase("the"), vec![16, 8, 18]);
}

#[test]
fn latin_encoding_drops_other_characters() {
    assert_eq!(only_uppercase("c-a b"), vec![24, 17]);
    assert_eq!(only_uppercase(""), Vec::<u8>::new());
}

#[test]
fn a_combined_cluster_is_not_a_letter() {
    // "f" with a combining acute accent is one grapheme cluster of two chars.
    assert_eq!(only_uppercase("f\u{301}v"), vec![1]);
    assert_eq!(r2v(&"ᚠ\u{301}ᚢ".to_string()), vec![1]);
}

#[test]
fn decode_writes_latin_letters() {
    assert_eq!(v2e(&[0, 1, 2, 28]), "fvTX");
    assert_eq!(v2e(&[]), "");
}

#[test]
fn latin_round_trip() {
    let all: Vec<u8> = (0..29).collect();
    let text = v2e(&all);
    assert_eq!(text, "fvTorkgwhnijEpxstbemlGOdaAyIX");
    assert_eq!(only_uppercase(&text), all);
    let word = "thEwOrld";
    assert_eq!(v2e(&only_uppercase(word)), word);
}

#[test]
fn single_clusters_map_to_codes() {
    assert_eq!(symbol_of("ᛞ", Script::Runic), Some(23));
    assert_eq!(symbol_of("d", Script::Latin), Some(23));
    assert_eq!(symbol_of("d", Script::Runic), None);
    assert_eq!(symbol_of("ᛞ", Script::Latin), None);
    assert_eq!(symbol_of("fv", Script::Latin), None);
    assert_eq!(symbol_of("", Script::Latin), None);
}

#[test]
fn clusters_encode_with_filtering() {
    let clusters = ["a", "zz", "b", "q", "X"];
    assert_eq!(encode_clusters_in(&clusters, Script::Latin), vec![24, 17, 28]);
}
