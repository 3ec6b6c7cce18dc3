//! The symbol alphabet: 29 runes, their codes `0..=28`, and the Latin
//! transliteration used by the language model's tables.

use vstd::prelude::*;
use unicode_segmentation::UnicodeSegmentation;

verus! {

/// The extended grapheme clusters of a text, in order.
pub uninterp spec fn grapheme_clusters(s: Seq<char>) -> Seq<Seq<char>>;

/// Relies on `UnicodeSegmentation::graphemes(s, true)` of unicode-segmentation:
/// the extended grapheme clusters of `s`, in order of appearance.
#[verifier::external_body]
fn graphemes_of(s: &str) -> (r: Vec<&str>)
    ensures
        r@.map_values(|g: &str| g@) == grapheme_clusters(s@),
{
    s.graphemes(true).collect()
}

/// The code of a rune, if `c` is one of the 29.
pub open spec fn rune_code(c: char) -> Option<u8> {
    match c {
        '\u{16A0}' => Some(0u8),  // ᚠ
        '\u{16A2}' => Some(1u8),  // ᚢ
        '\u{16A6}' => Some(2u8),  // ᚦ
        '\u{16A9}' => Some(3u8),  // ᚩ
        '\u{16B1}' => Some(4u8),  // ᚱ
        '\u{16B3}' => Some(5u8),  // ᚳ
        '\u{16B7}' => Some(6u8),  // ᚷ
        '\u{16B9}' => Some(7u8),  // ᚹ
        '\u{16BB}' => Some(8u8),  // ᚻ
        '\u{16BE}' => Some(9u8),  // ᚾ
        '\u{16C1}' => Some(10u8),  // ᛁ
        '\u{16C2}' => Some(11u8),  // ᛂ
        '\u{16C7}' => Some(12u8),  // ᛇ
        '\u{16C8}' => Some(13u8),  // ᛈ
        '\u{16C9}' => Some(14u8),  // ᛉ
        '\u{16CB}' => Some(15u8),  // ᛋ
        '\u{16CF}' => Some(16u8),  // ᛏ
        '\u{16D2}' => Some(17u8),  // ᛒ
        '\u{16D6}' => Some(18u8),  // ᛖ
        '\u{16D7}' => Some(19u8),  // ᛗ
        '\u{16DA}' => Some(20u8),  // ᛚ
        '\u{16DD}' => Some(21u8),  // ᛝ
        '\u{16DF}' => Some(22u8),  // ᛟ
        '\u{16DE}' => Some(23u8),  // ᛞ
        '\u{16AA}' => Some(24u8),  // ᚪ
        '\u{16AB}' => Some(25u8),  // ᚫ
        '\u{16A3}' => Some(26u8),  // ᚣ
        '\u{16E1}' => Some(27u8),  // ᛡ
        '\u{16E0}' => Some(28u8),  // ᛠ
        _ => None,
    }
}

/// The Latin letter that transliterates code `v` (in `[0, 28]`).
pub open spec fn latin_glyph(v: u8) -> char {
    match v {
        0 => 'f',
        1 => 'v',
        2 => 'T',
        3 => 'o',
        4 => 'r',
        5 => 'k',
        6 => 'g',
        7 => 'w',
        8 => 'h',
        9 => 'n',
        10 => 'i',
        11 => 'j',
        12 => 'E',
        13 => 'p',
        14 => 'x',
        15 => 's',
        16 => 't',
        17 => 'b',
        18 => 'e',
        19 => 'm',
        20 => 'l',
        21 => 'G',
        22 => 'O',
        23 => 'd',
        24 => 'a',
        25 => 'A',
        26 => 'y',
        27 => 'I',
        _ => 'X',
    }
}

/// The code of a Latin transliteration letter, if `c` is one of the 29.
pub open spec fn latin_code(c: char) -> Option<u8> {
    match c {
        'f' => Some(0u8),
        'v' => Some(1u8),
        'T' => Some(2u8),
        'o' => Some(3u8),
        'r' => Some(4u8),
        'k' => Some(5u8),
        'g' => Some(6u8),
        'w' => Some(7u8),
        'h' => Some(8u8),
        'n' => Some(9u8),
        'i' => Some(10u8),
        'j' => Some(11u8),
        'E' => Some(12u8),
        'p' => Some(13u8),
        'x' => Some(14u8),
        's' => Some(15u8),
        't' => Some(16u8),
        'b' => Some(17u8),
        'e' => Some(18u8),
        'm' => Some(19u8),
        'l' => Some(20u8),
        'G' => Some(21u8),
        'O' => Some(22u8),
        'd' => Some(23u8),
        'a' => Some(24u8),
        'A' => Some(25u8),
        'y' => Some(26u8),
        'I' => Some(27u8),
        'X' => Some(28u8),
        _ => None,
    }
}

/// The two scripts in which a symbol can be written.
#[derive(Clone, Copy, PartialEq, Eq, Debug)]
pub enum Script {
    Runic,
    Latin,
}

/// The code of one grapheme cluster in `script`: a cluster is recognized
/// when it is exactly one of the script's 29 letters.
pub open spec fn cluster_code(g: Seq<char>, script: Script) -> Option<u8> {
    if g.len() == 1 {
        match script {
            Script::Runic => rune_code(g[0]),
            Script::Latin => latin_code(g[0]),
        }
    } else {
        None
    }
}

/// The codes of the recognized clusters of `gs`, in order; the others are dropped.
pub open spec fn encode_clusters(gs: Seq<Seq<char>>, script: Script) -> Seq<u8>
    decreases gs.len(),
{
    if gs.len() == 0 {
        Seq::empty()
    } else {
        let rest = encode_clusters(gs.drop_last(), script);
        match cluster_code(gs.last(), script) {
            Some(v) => rest.push(v),
            None => rest,
        }
    }
}

/// The Latin transliteration of a code sequence, one letter per code.
pub open spec fn latin_text(v: Seq<u8>) -> Seq<char> {
    v.map_values(|x: u8| latin_glyph(x))
}

/// All codes of `v` are symbols.
pub open spec fn all_symbols(v: Seq<u8>) -> bool {
    forall|i: int| 0 <= i < v.len() ==> v[i] < 29
}

fn rune_symbol(c: char) -> (r: Option<u8>)
    ensures
        r == rune_code(c),
{
    match c {
        '\u{16A0}' => Some(0u8),  // ᚠ
        '\u{16A2}' => Some(1u8),  // ᚢ
        '\u{16A6}' => Some(2u8),  // ᚦ
        '\u{16A9}' => Some(3u8),  // ᚩ
        '\u{16B1}' => Some(4u8),  // ᚱ
        '\u{16B3}' => Some(5u8),  // ᚳ
        '\u{16B7}' => Some(6u8),  // ᚷ
        '\u{16B9}' => Some(7u8),  // ᚹ
        '\u{16BB}' => Some(8u8),  // ᚻ
        '\u{16BE}' => Some(9u8),  // ᚾ
        '\u{16C1}' => Some(10u8),  // ᛁ
        '\u{16C2}' => Some(11u8),  // ᛂ
        '\u{16C7}' => Some(12u8),  // ᛇ
        '\u{16C8}' => Some(13u8),  // ᛈ
        '\u{16C9}' => Some(14u8),  // ᛉ
        '\u{16CB}' => Some(15u8),  // ᛋ
        '\u{16CF}' => Some(16u8),  // ᛏ
        '\u{16D2}' => Some(17u8),  // ᛒ
        '\u{16D6}' => Some(18u8),  // ᛖ
        '\u{16D7}' => Some(19u8),  // ᛗ
        '\u{16DA}' => Some(20u8),  // ᛚ
        '\u{16DD}' => Some(21u8),  // ᛝ
        '\u{16DF}' => Some(22u8),  // ᛟ
        '\u{16DE}' => Some(23u8),  // ᛞ
        '\u{16AA}' => Some(24u8),  // ᚪ
        '\u{16AB}' => Some(25u8),  // ᚫ
        '\u{16A3}' => Some(26u8),  // ᚣ
        '\u{16E1}' => Some(27u8),  // ᛡ
        '\u{16E0}' => Some(28u8),  // ᛠ
        _ => None,
    }
}

fn latin_symbol(c: char) -> (r: Option<u8>)
    ensures
        r == latin_code(c),
{
    match c {
        'f' => Some(0u8),
        'v' => Some(1u8),
        'T' => Some(2u8),
        'o' => Some(3u8),
        'r' => Some(4u8),
        'k' => Some(5u8),
        'g' => Some(6u8),
        'w' => Some(7u8),
        'h' => Some(8u8),
        'n' => Some(9u8),
        'i' => Some(10u8),
        'j' => Some(11u8),
        'E' => Some(12u8),
        'p' => Some(13u8),
        'x' => Some(14u8),
        's' => Some(15u8),
        't' => Some(16u8),
        'b' => Some(17u8),
        'e' => Some(18u8),
        'm' => Some(19u8),
        'l' => Some(20u8),
        'G' => Some(21u8),
        'O' => Some(22u8),
        'd' => Some(23u8),
        'a' => Some(24u8),
        'A' => Some(25u8),
        'y' => Some(26u8),
        'I' => Some(27u8),
        'X' => Some(28u8),
        _ => None,
    }
}

fn latin_letter(v: u8) -> (s: &'static str)
    requires
        v < 29,
    ensures
        s@ == seq![latin_glyph(v)],
{
    match v {
        0 => {
            proof { reveal_strlit("f"); }
            "f"
        },
        1 => {
            proof { reveal_strlit("v"); }
            "v"
        },
        2 => {
            proof { reveal_strlit("T"); }
            "T"
        },
        3 => {
            proof { reveal_strlit("o"); }
            "o"
        },
        4 => {
            proof { reveal_strlit("r"); }
            "r"
        },
        5 => {
            proof { reveal_strlit("k"); }
            "k"
        },
        6 => {
            proof { reveal_strlit("g"); }
            "g"
        },
        7 => {
            proof { reveal_strlit("w"); }
            "w"
        },
        8 => {
            proof { reveal_strlit("h"); }
            "h"
        },
        9 => {
            proof { reveal_strlit("n"); }
            "n"
        },
        10 => {
            proof { reveal_strlit("i"); }
            "i"
        },
        11 => {
            proof { reveal_strlit("j"); }
            "j"
        },
        12 => {
            proof { reveal_strlit("E"); }
            "E"
        },
        13 => {
            proof { reveal_strlit("p"); }
            "p"
        },
        14 => {
            proof { reveal_strlit("x"); }
            "x"
        },
        15 => {
            proof { reveal_strlit("s"); }
            "s"
        },
        16 => {
            proof { reveal_strlit("t"); }
            "t"
        },
        17 => {
            proof { reveal_strlit("b"); }
            "b"
        },
        18 => {
            proof { reveal_strlit("e"); }
            "e"
        },
        19 => {
            proof { reveal_strlit("m"); }
            "m"
        },
        20 => {
            proof { reveal_strlit("l"); }
            "l"
        },
        21 => {
            proof { reveal_strlit("G"); }
            "G"
        },
        22 => {
            proof { reveal_strlit("O"); }
            "O"
        },
        23 => {
            proof { reveal_strlit("d"); }
            "d"
        },
        24 => {
            proof { reveal_strlit("a"); }
            "a"
        },
        25 => {
            proof { reveal_strlit("A"); }
            "A"
        },
        26 => {
            proof { reveal_strlit("y"); }
            "y"
        },
        27 => {
            proof { reveal_strlit("I"); }
            "I"
        },
        _ => {
            proof { reveal_strlit("X"); }
            "X"
        },
    }
}

/// The code of one cluster in `script`, or `None` when it is no letter of it.
pub fn symbol_of(g: &str, script: Script) -> (r: Option<u8>)
    ensures
        r == cluster_code(g@, script),
{
    if g.unicode_len() != 1 {
        return None;
    }
    let c = g.get_char(0);
    match script {
        Script::Runic => rune_symbol(c),
        Script::Latin => latin_symbol(c),
    }
}

/// Encodes a sequence of grapheme clusters in `script`, dropping every
/// cluster that is not one of its letters.
pub fn encode_clusters_in(clusters: &[&str], script: Script) -> (r: Vec<u8>)
    ensures
        r@ == encode_clusters(clusters@.map_values(|g: &str| g@), script),
        all_symbols(r@),
{
    let ghost gs = clusters@.map_values(|g: &str| g@);
    let mut r: Vec<u8> = Vec::new();
    let mut i: usize = 0;
    while i < clusters.len()
        invariant
            i <= clusters@.len(),
            gs == clusters@.map_values(|g: &str| g@),
            r@ == encode_clusters(gs.subrange(0, i as int), script),
            all_symbols(r@),
        decreases clusters@.len() - i,
    {
        let code = symbol_of(clusters[i], script);
        proof {
            let next = gs.subrange(0, i + 1);
            assert(next.drop_last() == gs.subrange(0, i as int));
            assert(next.last() == clusters@[i as int]@);
        }
        match code {
            Some(v) => {
                proof { lemma_cluster_code_symbol(gs[i as int], script); }
                r.push(v);
            },
            None => {},
        }
        i += 1;
    }
    assert(gs.subrange(0, clusters@.len() as int) == gs);
    r
}

proof fn lemma_cluster_code_symbol(g: Seq<char>, script: Script)
    ensures
        cluster_code(g, script) matches Some(v) ==> v < 29,
{
}

/// Encodes runic ciphertext: one code per recognized rune, in order; every
/// grapheme cluster that is no rune is dropped.
pub fn r2v(ct: &String) -> (r: Vec<u8>)
    ensures
        r@ == encode_clusters(grapheme_clusters(ct@), Script::Runic),
        all_symbols(r@),
{
    let clusters = graphemes_of(ct.as_str());
    encode_clusters_in(clusters.as_slice(), Script::Runic)
}

/// Encodes a Latin transliteration: one code per recognized letter, in
/// order; every grapheme cluster that is no letter of it is dropped.
pub fn only_uppercase(buf: &str) -> (r: Vec<u8>)
    ensures
        r@ == encode_clusters(grapheme_clusters(buf@), Script::Latin),
        all_symbols(r@),
{
    let clusters = graphemes_of(buf);
    encode_clusters_in(clusters.as_slice(), Script::Latin)
}

/// Writes a code sequence in the Latin transliteration, one letter per code.
pub fn v2e(v: &[u8]) -> (s: String)
    requires
        all_symbols(v@),
    ensures
        s@ == latin_text(v@),
{
    let mut s = String::new();
    let mut i: usize = 0;
    while i < v.len()
        invariant
            i <= v@.len(),
            all_symbols(v@),
            s@ == latin_text(v@.subrange(0, i as int)),
        decreases v@.len() - i,
    {
        let letter = latin_letter(v[i]);
        s.append(letter);
        i += 1;
        assert(latin_text(v@.subrange(0, i as int)) =~= latin_text(v@.subrange(0, i - 1)).push(latin_glyph(v@[i - 1])));
    }
    assert(v@.subrange(0, v@.len() as int) == v@);
    s
}

/// The Latin table is a bijection between the codes `[0, 28]` and its 29 letters.
pub proof fn lemma_latin_table(v: u8, c: char)
    ensures
        v < 29 ==> latin_code(latin_glyph(v)) == Some(v),
        latin_code(c) == Some(v) ==> latin_glyph(v) == c,
{
}

/// Transliterating a symbol sequence into Latin letters and encoding those
/// letters again gives the sequence back.
pub proof fn lemma_latin_round_trip(v: Seq<u8>)
    requires
        all_symbols(v),
    ensures
        encode_clusters(latin_text(v).map_values(|c: char| seq![c]), Script::Latin) == v,
    decreases v.len(),
{
    if v.len() > 0 {
        let gs = latin_text(v).map_values(|c: char| seq![c]);
        lemma_latin_round_trip(v.drop_last());
        assert(gs.drop_last() =~= latin_text(v.drop_last()).map_values(|c: char| seq![c]));
        lemma_latin_table(v.last(), latin_glyph(v.last()));
        assert(v.drop_last().push(v.last()) =~= v);
    }
}

/// Encoding a sequence of recognized Latin letters and transliterating the
/// codes back gives the letters back.
pub proof fn lemma_latin_encode_decode(gs: Seq<Seq<char>>)
    requires
        forall|i: int| 0 <= i < gs.len() ==> cluster_code(#[trigger] gs[i], Script::Latin) is Some,
    ensures
        latin_text(encode_clusters(gs, Script::Latin)).map_values(|c: char| seq![c]) == gs,
    decreases gs.len(),
{
    if gs.len() > 0 {
        let rest = gs.drop_last();
        let g = gs.last();
        assert(cluster_code(gs[gs.len() - 1], Script::Latin) is Some);
        lemma_latin_encode_decode(rest);
        let v = cluster_code(g, Script::Latin)->0;
        lemma_latin_table(v, g[0]);
        assert(g =~= seq![g[0]]);
        let e = encode_clusters(gs, Script::Latin);
        assert(e == encode_clusters(rest, Script::Latin).push(v));
        assert(latin_text(e).map_values(|c: char| seq![c]) =~= latin_text(encode_clusters(rest, Script::Latin)).map_values(|c: char| seq![c]).push(g));
        assert(rest.push(g) =~= gs);
    }
}

} // verus!
