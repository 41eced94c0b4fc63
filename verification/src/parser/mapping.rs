//! Pairing a row's fields with the header's column names.

use vstd::prelude::*;
use vstd::hash_map::StringHashMap;

verus! {

/// The map that `map_rows` builds: column name to field, over the first
/// `min(header, row)` positions, a later column of the same name winning.
pub open spec fn zip_map(header: Seq<String>, row: Seq<String>) -> Map<Seq<char>, String>
    decreases header.len(),
{
    let n = if header.len() < row.len() { header.len() } else { row.len() };
    if n == 0 {
        Map::empty()
    } else {
        zip_map(header.take(n - 1), row.take(n - 1)).insert(header[n - 1]@, row[n - 1])
    }
}

/// The texts of a row of `String`s.
pub open spec fn texts(row: Seq<String>) -> Seq<Seq<char>> {
    row.map_values(|s: String| s@)
}

/// `zip_map` over texts: column name to field text.
pub open spec fn zip_text(header: Seq<Seq<char>>, row: Seq<Seq<char>>) -> Map<Seq<char>, Seq<char>>
    decreases header.len(),
{
    let n = if header.len() < row.len() { header.len() } else { row.len() };
    if n == 0 {
        Map::empty()
    } else {
        zip_text(header.take(n - 1), row.take(n - 1)).insert(header[n - 1], row[n - 1])
    }
}

/// The texts of the map that `zip_map` builds are what `zip_text` builds from the texts.
pub proof fn lemma_zip_text(header: Seq<String>, row: Seq<String>)
    ensures
        zip_map(header, row).map_values(|s: String| s@) == zip_text(texts(header), texts(row)),
    decreases header.len(),
{
    let n = if header.len() < row.len() { header.len() } else { row.len() };
    if n > 0 {
        lemma_zip_text(header.take(n - 1), row.take(n - 1));
        assert(texts(header.take(n - 1)) == texts(header).take(n - 1));
        assert(texts(row.take(n - 1)) == texts(row).take(n - 1));
        assert(zip_map(header, row).map_values(|s: String| s@) =~= zip_text(texts(header), texts(row)));
    } else {
        assert(zip_map(header, row).map_values(|s: String| s@) =~= zip_text(texts(header), texts(row)));
    }
}

/// Maps each column name of `header` to the field at the same position of
/// `row`; extra columns or fields on either side are left out.
pub fn map_rows(header: &Vec<String>, row: &Vec<String>) -> (map: StringHashMap<String>)
    ensures
        map@ == zip_map(header@, row@),
        map@.map_values(|s: String| s@) == zip_text(texts(header@), texts(row@)),
{
    let mut map: StringHashMap<String> = StringHashMap::new();
    let n = if header.len() < row.len() {
        header.len()
    } else {
        row.len()
    };
    for i in 0..n
        invariant
            n <= header@.len(),
            n <= row@.len(),
            map@ == zip_map(header@.take(i as int), row@.take(i as int)),
    {
        proof {
            let h = header@.take(i + 1);
            let r = row@.take(i + 1);
            assert(h.take(i as int) == header@.take(i as int));
            assert(r.take(i as int) == row@.take(i as int));
        }
        map.insert(header[i].clone(), row[i].clone());
    }
    proof {
        if header@.len() < row@.len() {
            assert(header@.take(n as int) == header@);
            assert(zip_map(header@, row@) == zip_map(header@, row@.take(n as int))) by {
                lemma_zip_map_trim(header@, row@);
            }
        } else {
            assert(row@.take(n as int) == row@);
            lemma_zip_map_trim(header@, row@);
        }
        lemma_zip_text(header@, row@);
    }
    map
}

/// Only the first `min(header, row)` positions count.
pub proof fn lemma_zip_map_trim(header: Seq<String>, row: Seq<String>)
    ensures
        ({
            let n = if header.len() < row.len() { header.len() } else { row.len() };
            zip_map(header, row) == zip_map(header.take(n as int), row.take(n as int))
        }),
{
    let n = if header.len() < row.len() { header.len() } else { row.len() };
    let h = header.take(n as int);
    let r = row.take(n as int);
    if n > 0 {
        assert(h.take(n - 1) == header.take(n - 1));
        assert(r.take(n - 1) == row.take(n - 1));
    }
}

/// A column name occurs in the map exactly when it names one of the first
/// `min(header, row)` columns, and then it maps to the field of its last
/// such column.
pub proof fn law_row_map_lookup(header: Seq<String>, row: Seq<String>, i: int)
    requires
        0 <= i < header.len(),
        i < row.len(),
        forall|j: int| i < j < header.len() && j < row.len() ==> (#[trigger] header[j])@ != header[i]@,
    ensures
        zip_map(header, row).contains_key(header[i]@),
        zip_map(header, row)[header[i]@] == row[i],
    decreases header.len(),
{
    let n = if header.len() < row.len() { header.len() } else { row.len() };
    let h = header.take(n - 1);
    let r = row.take(n - 1);
    if i < n - 1 {
        assert forall|j: int| i < j < h.len() && j < r.len() implies (#[trigger] h[j])@ != h[i]@ by {
            assert(h[j] == header[j]);
        }
        law_row_map_lookup(h, r, i);
        assert(header[n - 1]@ != header[i]@);
    }
}

/// Every key of the map is the name of one of the first `min(header, row)`
/// columns.
pub proof fn law_row_map_keys(header: Seq<String>, row: Seq<String>, k: Seq<char>)
    requires
        zip_map(header, row).contains_key(k),
    ensures
        exists|i: int| 0 <= i < header.len() && i < row.len() && (#[trigger] header[i])@ == k,
    decreases header.len(),
{
    let n = if header.len() < row.len() { header.len() } else { row.len() };
    let h = header.take(n - 1);
    let r = row.take(n - 1);
    if k != header[n - 1]@ {
        law_row_map_keys(h, r, k);
        let i = choose|i: int| 0 <= i < h.len() && i < r.len() && (#[trigger] h[i])@ == k;
        assert(header[i] == h[i]);
    } else {
        assert(header[n - 1]@ == k);
    }
}

} // verus!
