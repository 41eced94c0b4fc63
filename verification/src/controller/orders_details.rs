//! Reading the order-items file, whose rows are parsed with prices and
//! categories in mind.

use vstd::prelude::*;

use crate::config::{Cols, DatasetConfig, Value, ValueView};
use crate::dim_values::{room, DimensionStore};
use crate::parser::customers::{lemma_room_weaken, lines_locate_cities, row_maps, CsvError};
use crate::parser::mapping::{map_rows, texts};
use crate::parser::parse::{parse_values, value_cells};
use crate::parser::utils::{city_has_country, text_map};
use crate::utils::{csv_fields, string_to_vec};

verus! {

/// The parsed rows of the order-items file and the store after them.
pub open spec fn item_rows(
    cfg: Map<Seq<char>, Cols>,
    header: Seq<String>,
    rows: Seq<Map<Seq<char>, Seq<char>>>,
    store: Map<Seq<char>, Seq<Seq<char>>>,
) -> (Seq<Seq<ValueView>>, Map<Seq<char>, Seq<Seq<char>>>)
    decreases rows.len(),
{
    if rows.len() == 0 {
        (Seq::empty(), store)
    } else {
        let (done, st) = item_rows(cfg, header, rows.drop_last(), store);
        let (cells, st2) = value_cells(rows.last(), cfg, header, st);
        (done.push(cells), st2)
    }
}

/// Reads the data lines of a file whose rows are parsed by [`parse_values`]
/// (the order-items file): refused when the header does not have the
/// configured structure; else each line is split, paired with the header
/// and parsed.
pub fn process_order_items_csv(
    lines: &Vec<String>,
    config: &DatasetConfig,
    dims: &mut DimensionStore,
    header: &Vec<String>,
) -> (r: Result<Vec<Vec<Value>>, CsvError>)
    requires
        old(dims).wf(),
        old(dims).has_room((lines@.len() * header@.len()) as nat),
        lines_locate_cities(header@, lines@),
    ensures
        final(dims).wf(),
        !(config.cols@.len() == header@.len() && forall|i: int|
            0 <= i < header@.len() ==> config.cols@.contains_key(#[trigger] header@[i]@)) ==> r
            == Err::<Vec<Vec<Value>>, CsvError>(CsvError::HeaderMismatch) && final(dims)@ == old(dims)@,
        (config.cols@.len() == header@.len() && forall|i: int|
            0 <= i < header@.len() ==> config.cols@.contains_key(#[trigger] header@[i]@)) ==> r is Ok,
        r matches Ok(rows) ==> {
            let expected = item_rows(config.cols@, header@, row_maps(header@, lines@), old(dims)@);
            &&& rows@.len() == lines@.len()
            &&& forall|i: int, k: int|
                0 <= i < rows@.len() && 0 <= k < rows@[i]@.len() ==> (#[trigger] rows@[i]@[k])@
                    == expected.0[i][k]
            &&& forall|i: int| 0 <= i < rows@.len() ==> (#[trigger] rows@[i]@).len() == header@.len()
            &&& final(dims)@ == expected.1
        },
{
    if !config.has_same_structure(header) {
        return Err(CsvError::HeaderMismatch);
    }
    let ghost start = dims@;
    let ghost maps = row_maps(header@, lines@);
    let mut rows: Vec<Vec<Value>> = Vec::new();
    for i in 0..lines.len()
        invariant
            dims.wf(),
            lines_locate_cities(header@, lines@),
            maps == row_maps(header@, lines@),
            room(dims@, ((lines@.len() - i) * header@.len()) as nat),
            rows@.len() == i,
            forall|j: int, k: int|
                0 <= j < i && 0 <= k < rows@[j]@.len() ==> (#[trigger] rows@[j]@[k])@
                    == item_rows(config.cols@, header@, maps.take(i as int), start).0[j][k],
            forall|j: int| 0 <= j < i ==> (#[trigger] rows@[j]@).len() == header@.len(),
            dims@ == item_rows(config.cols@, header@, maps.take(i as int), start).1,
    {
        let ghost before = dims@;
        let fields = match string_to_vec::<()>(Ok(lines[i].clone())) {
            Ok(f) => f,
            Err(_) => Vec::new(),
        };
        let row_map = map_rows(header, &fields);
        proof {
            assert(texts(fields@) =~= csv_fields(lines@[i as int]@));
            assert(text_map(row_map@) == maps[i as int]);
            assert(city_has_country(maps[i as int], header@));
            assert(maps.take(i + 1).drop_last() == maps.take(i as int));
            assert(maps.take(i + 1).last() == maps[i as int]);
            let h = header@.len();
            let n = lines@.len();
            assert((n - i) * h == (n - i - 1) * h + h) by (nonlinear_arith);
            assert((n - i - 1) * h >= 0) by (nonlinear_arith)
                requires
                    n - i - 1 >= 0,
                    h >= 0,
            ;
            lemma_room_weaken(dims@, ((n - i) * h) as nat, h as nat);
            lemma_room_value_cells(text_map(row_map@), config.cols@, header@, before, ((n - i - 1) * h) as nat);
            crate::dim_values::lemma_room_within_limits(
                value_cells(text_map(row_map@), config.cols@, header@, before).1,
                ((n - i - 1) * h) as nat,
            );
        }
        let parsed = parse_values(&row_map, config, header.as_slice(), dims);
        proof {
            lemma_item_rows_len(config.cols@, header@, maps.take(i as int), start);
            assert(maps.take(i + 1).drop_last() == maps.take(i as int));
        }
        rows.push(parsed);
        proof {
            let prev = item_rows(config.cols@, header@, maps.take(i as int), start);
            let next = item_rows(config.cols@, header@, maps.take(i + 1), start);
            assert(next.0 == prev.0.push(value_cells(maps[i as int], config.cols@, header@, prev.1).0));
            assert(forall|j: int| 0 <= j < i ==> next.0[j] == prev.0[j]);
        }
    }
    assert(maps.take(lines@.len() as int) == maps);
    Ok(rows)
}


/// One parsed row per line.
pub proof fn lemma_item_rows_len(
    cfg: Map<Seq<char>, Cols>,
    header: Seq<String>,
    rows: Seq<Map<Seq<char>, Seq<char>>>,
    store: Map<Seq<char>, Seq<Seq<char>>>,
)
    ensures
        item_rows(cfg, header, rows, store).0.len() == rows.len(),
    decreases rows.len(),
{
    if rows.len() > 0 {
        lemma_item_rows_len(cfg, header, rows.drop_last(), store);
    }
}

/// A row of `header.len()` cells uses up at most that much room.
pub proof fn lemma_room_value_cells(
    row: Map<Seq<char>, Seq<char>>,
    cfg: Map<Seq<char>, Cols>,
    header: Seq<String>,
    store: Map<Seq<char>, Seq<Seq<char>>>,
    n: nat,
)
    requires
        room(store, n + header.len()),
    ensures
        room(value_cells(row, cfg, header, store).1, n),
    decreases header.len(),
{
    if header.len() > 0 {
        lemma_room_value_cells(row, cfg, header.drop_last(), store, n + 1);
        let st = value_cells(row, cfg, header.drop_last(), store).1;
        crate::parser::parse::lemma_room_value_step(header.last()@, row, cfg, st, n);
    }
}

} // verus!
