//! The frequency table behind the language model: rows of a token and a
//! count, parsed and encoded into counts per symbol sequence.

use vstd::prelude::*;
use itertools::Itertools;
use crate::alphabet::{encode_clusters, grapheme_clusters, only_uppercase, Script};

verus! {

/// The whitespace-separated fields of a line, in order.
pub uninterp spec fn whitespace_fields(s: Seq<char>) -> Seq<Seq<char>>;

/// Relies on `str::split_whitespace`: the fields of `s` between runs of
/// whitespace, in order.
#[verifier::external_body]
fn fields_of<'a>(s: &'a str) -> (r: Vec<&'a str>)
    ensures
        r@.map_values(|f: &str| f@) == whitespace_fields(s@),
{
    s.split_whitespace().collect()
}

/// Relies on itertools' `Itertools::collect_tuple`: `Some` of the two items
/// exactly when the iterator yields two items.
#[verifier::external_body]
fn pair_of<'a>(fields: Vec<&'a str>) -> (r: Option<(&'a str, &'a str)>)
    ensures
        r is Some <==> fields@.len() == 2,
        r matches Some(p) ==> p.0 == fields@[0] && p.1 == fields@[1],
{
    fields.into_iter().collect_tuple()
}

/// The value of a nonempty run of ASCII digits.
pub open spec fn digits_value(d: Seq<char>) -> int
    decreases d.len(),
{
    if d.len() == 0 {
        0
    } else {
        digits_value(d.drop_last()) * 10 + (d.last() as u32 - '0' as u32)
    }
}

/// A nonempty run of ASCII digits.
pub open spec fn is_digits(d: Seq<char>) -> bool {
    d.len() > 0 && forall|i: int| 0 <= i < d.len() ==> '0' <= #[trigger] d[i] <= '9'
}

/// An unsigned decimal number: an optional `+`, then digits, with a value
/// that fits in a `u64`.
pub open spec fn decimal_u64(s: Seq<char>) -> Option<u64> {
    let d = if s.len() > 0 && s[0] == '+' { s.drop_first() } else { s };
    if is_digits(d) && digits_value(d) <= u64::MAX {
        Some(digits_value(d) as u64)
    } else {
        None
    }
}

/// Relies on `str::parse::<u64>`: an optional `+` followed by digits only,
/// whose value fits in a `u64`; anything else is an error.
#[verifier::external_body]
fn parse_count(s: &str) -> (r: Option<u64>)
    ensures
        r == decimal_u64(s@),
{
    s.parse::<u64>().ok()
}

/// The token and count of a table line made of exactly two fields, the
/// second an unsigned decimal count.
pub open spec fn fields_row(f: Seq<Seq<char>>) -> Option<(Seq<char>, u64)> {
    if f.len() == 2 && decimal_u64(f[1]) is Some {
        Some((f[0], decimal_u64(f[1])->0))
    } else {
        None
    }
}

/// The token and count of one line of a frequency table.
pub open spec fn line_row(s: Seq<char>) -> Option<(Seq<char>, u64)> {
    fields_row(whitespace_fields(s))
}

/// One row of a frequency table: a token and its count.
pub struct Row<'a> {
    pub ngram: &'a str,
    pub count: u64,
}

impl<'a> Row<'a> {
    /// The row of a line split into its fields.
    pub fn from_fields(fields: Vec<&'a str>) -> (r: Option<Row<'a>>)
        ensures
            r is Some <==> fields_row(fields@.map_values(|f: &str| f@)) is Some,
            r matches Some(row) ==> fields_row(fields@.map_values(|f: &str| f@)) == Some(
                (row.ngram@, row.count),
            ),
    {
        let ghost fs = fields@.map_values(|f: &str| f@);
        match pair_of(fields) {
            Some((ngram, count)) => {
                assert(fs[1] == count@);
                match parse_count(count) {
                    Some(count) => Some(Row { ngram, count }),
                    None => None,
                }
            },
            None => None,
        }
    }

    /// The row of one line: `None` unless the line holds exactly two fields,
    /// the second an unsigned decimal count.
    pub fn from_line(s: &'a str) -> (r: Option<Row<'a>>)
        ensures
            r is Some <==> line_row(s@) is Some,
            r matches Some(row) ==> line_row(s@) == Some((row.ngram@, row.count)),
    {
        Row::from_fields(fields_of(s))
    }
}

/// A hash map from symbol sequences to counts.
#[verifier::external_body]
pub struct CountMap {
    inner: hashbrown::HashMap<Vec<u8>, u64>,
}

/// What a `CountMap` holds.
pub uninterp spec fn count_map_contents(m: CountMap) -> Map<Seq<u8>, u64>;

/// Relies on `hashbrown::HashMap::new`: an empty map.
#[verifier::external_body]
fn count_map_new() -> (r: CountMap)
    ensures
        count_map_contents(r).is_empty(),
{
    CountMap { inner: hashbrown::HashMap::new() }
}

/// Relies on `hashbrown::HashMap::insert`: the key now maps to the value,
/// replacing an earlier value of the same key; other keys are untouched.
#[verifier::external_body]
fn count_map_insert(m: &mut CountMap, k: Vec<u8>, v: u64)
    ensures
        count_map_contents(*final(m)) == count_map_contents(*old(m)).insert(k@, v),
{
    m.inner.insert(k, v);
}

/// Relies on `hashbrown::HashMap::get`: the value stored under the key, if any.
#[verifier::external_body]
fn count_map_get(m: &CountMap, k: &[u8]) -> (r: Option<u64>)
    ensures
        r == (if count_map_contents(*m).contains_key(k@) {
            Some(count_map_contents(*m)[k@])
        } else {
            None
        }),
{
    m.inner.get(k).copied()
}

/// Relies on `hashbrown::HashMap::iter`: every entry once, in an order that
/// the map does not promise.
#[verifier::external_body]
fn count_map_entries(m: &CountMap) -> (r: Vec<(Vec<u8>, u64)>)
    ensures
        forall|i: int|
            0 <= i < r@.len() ==> count_map_contents(*m).contains_key(#[trigger] r@[i].0@)
                && count_map_contents(*m)[r@[i].0@] == r@[i].1,
        forall|i: int, j: int| 0 <= i < j < r@.len() ==> r@[i].0@ != r@[j].0@,
        forall|k: Seq<u8>|
            count_map_contents(*m).contains_key(k) ==> exists|i: int|
                0 <= i < r@.len() && #[trigger] r@[i].0@ == k,
{
    m.inner.iter().map(|(k, v)| (k.clone(), *v)).collect()
}

/// The symbol sequence that a table token stands for: its recognized Latin
/// letters, in order.
pub open spec fn token_key(token: Seq<char>) -> Seq<u8> {
    encode_clusters(grapheme_clusters(token), Script::Latin)
}

/// The rows of a table all of whose lines are well formed, each as its
/// token's key and its count.
pub open spec fn table_rows(lines: Seq<Seq<char>>) -> Seq<(Seq<u8>, u64)> {
    lines.map_values(|l: Seq<char>| (token_key((line_row(l)->0).0), (line_row(l)->0).1))
}

/// The counts that a sequence of rows leaves in a map: each row stores its
/// count under its key, a later row replacing an earlier one.
pub open spec fn rows_counts(rows: Seq<(Seq<u8>, u64)>) -> Map<Seq<u8>, u64>
    decreases rows.len(),
{
    if rows.len() == 0 {
        Map::empty()
    } else {
        rows_counts(rows.drop_last()).insert(rows.last().0, rows.last().1)
    }
}

/// The sum of a sequence of integers.
pub open spec fn seq_sum(s: Seq<int>) -> int
    decreases s.len(),
{
    if s.len() == 0 {
        0
    } else {
        seq_sum(s.drop_last()) + s.last()
    }
}

/// The sum of the counts of all rows, repeated keys included.
pub open spec fn rows_total(rows: Seq<(Seq<u8>, u64)>) -> int {
    seq_sum(rows.map_values(|r: (Seq<u8>, u64)| r.1 as int))
}

/// Every line of the table is well formed.
pub open spec fn well_formed(lines: Seq<Seq<char>>) -> bool {
    forall|i: int| 0 <= i < lines.len() ==> line_row(#[trigger] lines[i]) is Some
}

/// Why a frequency table cannot be read.
#[derive(Clone, Copy, PartialEq, Eq, Debug)]
pub enum TableError {
    /// The line at this index is not a token and a count.
    MalformedLine(usize),
}

/// The counts of a frequency table and the sum of all of its counts.
pub struct CountTable {
    counts: CountMap,
    total: u128,
}

impl CountTable {
    /// The count stored for each symbol sequence.
    pub closed spec fn counts(&self) -> Map<Seq<u8>, u64> {
        count_map_contents(self.counts)
    }

    /// The sum of the counts of all rows of the table.
    pub closed spec fn total_spec(&self) -> int {
        self.total as int
    }

    /// Builds the counts of a frequency table, one line per row. Each row's
    /// token is encoded through the Latin alphabet, dropping what is no
    /// letter of it; a later row with the same key replaces the count of an
    /// earlier one, while the total sums the counts of all rows. The first
    /// malformed line makes the whole table fail.
    pub fn from_lines(lines: &[String]) -> (r: Result<CountTable, TableError>)
        ensures
            r is Ok <==> well_formed(lines@.map_values(|l: String| l@)),
            r matches Ok(t) ==> t.counts() == rows_counts(
                table_rows(lines@.map_values(|l: String| l@)),
            ) && t.total_spec() == rows_total(table_rows(lines@.map_values(|l: String| l@))),
            r matches Err(TableError::MalformedLine(i)) ==> i < lines@.len() && line_row(
                lines@[i as int]@,
            ) is None && well_formed(lines@.subrange(0, i as int).map_values(|l: String| l@)),
    {
        let ghost ls = lines@.map_values(|l: String| l@);
        let mut counts = count_map_new();
        let mut total: u128 = 0;
        let mut i: usize = 0;
        while i < lines.len()
            invariant
                i <= lines@.len(),
                ls == lines@.map_values(|l: String| l@),
                well_formed(ls.subrange(0, i as int)),
                count_map_contents(counts) == rows_counts(table_rows(ls.subrange(0, i as int))),
                total as int == rows_total(table_rows(ls.subrange(0, i as int))),
                total as int <= i * (u64::MAX as int),
            decreases lines@.len() - i,
        {
            let line = lines[i].as_str();
            match Row::from_line(line) {
                Some(row) => {
                    let key = only_uppercase(row.ngram);
                    let ghost before = table_rows(ls.subrange(0, i as int));
                    let ghost after = table_rows(ls.subrange(0, i + 1));
                    proof {
                        assert(ls.subrange(0, i + 1).drop_last() =~= ls.subrange(0, i as int));
                        assert(after.drop_last() =~= before);
                        assert(after.last() == (key@, row.count));
                        assert(after.map_values(|r: (Seq<u8>, u64)| r.1 as int).drop_last()
                            =~= before.map_values(|r: (Seq<u8>, u64)| r.1 as int));
                        assert(total + row.count <= (i + 1) * (u64::MAX as int)) by (nonlinear_arith)
                            requires
                                total as int <= i * (u64::MAX as int),
                                row.count <= u64::MAX,
                        ;
                        assert((i + 1) * (u64::MAX as int) <= u128::MAX) by (nonlinear_arith)
                            requires
                                i + 1 <= usize::MAX,
                        ;
                    }
                    count_map_insert(&mut counts, key, row.count);
                    total = total + row.count as u128;
                },
                None => {
                    assert(lines@.subrange(0, i as int).map_values(|l: String| l@) =~= ls.subrange(
                        0,
                        i as int,
                    ));
                    return Err(TableError::MalformedLine(i));
                },
            }
            i += 1;
        }
        assert(ls.subrange(0, lines@.len() as int) =~= ls);
        Ok(CountTable { counts, total })
    }

    /// The sum of the counts of all rows of the table.
    pub fn total(&self) -> (r: u128)
        ensures
            r as int == self.total_spec(),
    {
        self.total
    }

    /// The count stored for `key`, or `None` when the table has no row for it.
    pub fn lookup(&self, key: &[u8]) -> (r: Option<u64>)
        ensures
            r == (if self.counts().contains_key(key@) {
                Some(self.counts()[key@])
            } else {
                None
            }),
    {
        count_map_get(&self.counts, key)
    }

    /// Every stored key with its count, each once, in no promised order.
    pub fn entries(&self) -> (r: Vec<(Vec<u8>, u64)>)
        ensures
            forall|i: int|
                0 <= i < r@.len() ==> self.counts().contains_key(#[trigger] r@[i].0@)
                    && self.counts()[r@[i].0@] == r@[i].1,
            forall|i: int, j: int| 0 <= i < j < r@.len() ==> r@[i].0@ != r@[j].0@,
            forall|k: Seq<u8>|
                self.counts().contains_key(k) ==> exists|i: int|
                    0 <= i < r@.len() && #[trigger] r@[i].0@ == k,
    {
        count_map_entries(&self.counts)
    }
}

/// Every key stored by a sequence of rows is the key of one of the rows.
proof fn lemma_rows_counts_keys(rows: Seq<(Seq<u8>, u64)>, k: Seq<u8>)
    requires
        rows_counts(rows).contains_key(k),
    ensures
        exists|i: int| 0 <= i < rows.len() && (#[trigger] rows[i]).0 == k,
    decreases rows.len(),
{
    if rows.last().0 != k {
        lemma_rows_counts_keys(rows.drop_last(), k);
        let i = choose|i: int| 0 <= i < rows.len() - 1 && (#[trigger] rows.drop_last()[i]).0 == k;
        assert(rows[i] == rows.drop_last()[i]);
    }
}

/// When no two rows of a table share a key, each row's count is stored
/// under its own key, every stored key is a row's, and the stored counts
/// add up to the total of all rows.
pub proof fn lemma_stored_counts_sum_to_total(rows: Seq<(Seq<u8>, u64)>)
    requires
        forall|i: int, j: int| 0 <= i < j < rows.len() ==> (#[trigger] rows[i]).0 != (#[trigger] rows[j]).0,
    ensures
        forall|i: int|
            0 <= i < rows.len() ==> rows_counts(rows).contains_key((#[trigger] rows[i]).0)
                && rows_counts(rows)[rows[i].0] == rows[i].1,
        forall|k: Seq<u8>|
            rows_counts(rows).contains_key(k) ==> exists|i: int| 0 <= i < rows.len() && (#[trigger] rows[i]).0 == k,
        seq_sum(rows.map_values(|r: (Seq<u8>, u64)| rows_counts(rows)[r.0] as int)) == rows_total(rows),
    decreases rows.len(),
{
    if rows.len() > 0 {
        let rest = rows.drop_last();
        lemma_stored_counts_sum_to_total(rest);
        assert forall|i: int|
            0 <= i < rows.len() implies rows_counts(rows).contains_key((#[trigger] rows[i]).0)
                && rows_counts(rows)[rows[i].0] == rows[i].1 by {
            if i < rows.len() - 1 {
                assert(rest[i] == rows[i]);
            }
        }
        assert forall|k: Seq<u8>| rows_counts(rows).contains_key(k) implies exists|i: int|
            0 <= i < rows.len() && (#[trigger] rows[i]).0 == k by {
            lemma_rows_counts_keys(rows, k);
        }
        assert(rows.map_values(|r: (Seq<u8>, u64)| rows_counts(rows)[r.0] as int)
            =~= rows.map_values(|r: (Seq<u8>, u64)| r.1 as int));
    }
}

} // verus!
