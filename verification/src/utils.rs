//! Splitting a CSV line into its fields.

use vstd::prelude::*;

pub use crate::config::detect_dataset;

use crate::text::{join, law_join_split, lemma_split_chars, lemma_without_absent, split, split_text, without, remove_char};

verus! {

/// The fields of a CSV line: the text between commas, each with its
/// line-feed characters removed.
pub open spec fn csv_fields(line: Seq<char>) -> Seq<Seq<char>> {
    split(line, ',').map_values(|f: Seq<char>| without(f, '\n'))
}

/// Splits a line (or passes on the error that reading it gave) into its
/// comma-separated fields, removing line feeds from each field.
pub fn string_to_vec<E>(value: Result<String, E>) -> (r: Result<Vec<String>, E>)
    ensures
        match value {
            Ok(line) => r matches Ok(fields) && fields@.len() == csv_fields(line@).len() && forall|k: int|
                0 <= k < fields@.len() ==> (#[trigger] fields@[k])@ == csv_fields(line@)[k],
            Err(e) => r matches Err(e2) && e2 == e,
        },
{
    let v = match value {
        Ok(v) => v,
        Err(e) => return Err(e),
    };
    let parts = split_text(v.as_str(), ',');
    let mut list: Vec<String> = Vec::new();
    for i in 0..parts.len()
        invariant
            parts@.len() == split(v@, ',').len(),
            forall|k: int| 0 <= k < parts@.len() ==> (#[trigger] parts@[k])@ == split(v@, ',')[k],
            list@.len() == i,
            forall|k: int| 0 <= k < i ==> (#[trigger] list@[k])@ == csv_fields(v@)[k],
    {
        let f = remove_char(parts[i].as_str(), '\n');
        list.push(f);
    }
    Ok(list)
}

/// A line without line feeds is its fields joined again with commas, and it
/// has one field more than it has commas.
pub proof fn law_fields_rejoin(line: Seq<char>)
    requires
        !line.contains('\n'),
    ensures
        join(csv_fields(line), ',') == line,
        csv_fields(line).len() == split(line, ',').len(),
{
    lemma_split_chars(line, ',', '\n');
    let parts = split(line, ',');
    assert forall|k: int| 0 <= k < parts.len() implies (#[trigger] csv_fields(line)[k]) == parts[k] by {
        lemma_without_absent(parts[k], '\n');
    }
    assert(csv_fields(line) =~= parts);
    law_join_split(line, ',');
}

} // verus!
