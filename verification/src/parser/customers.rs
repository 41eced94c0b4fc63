//! Reading whole files whose rows are parsed cell by cell: the customers
//! file and the order-items file.

use vstd::prelude::*;

use crate::config::{DatasetConfig, Value, ValueView};
use crate::dim_values::{room, DimensionStore};
use crate::parser::mapping::{map_rows, texts, zip_text};
use crate::parser::utils::{city_has_country, data_cells, has_column, parse_data, text_map};
use crate::text::same_text;
use crate::utils::{csv_fields, string_to_vec};

verus! {

/// Why a file is not read.
#[derive(Debug, Clone, Copy, PartialEq, Eq, Structural)]
pub enum CsvError {
    /// The header does not have the configured columns.
    HeaderMismatch,
}

impl CsvError {
    /// The message the loader reports.
    pub fn message(&self) -> (r: String)
        ensures
            r@ == "CSV header does not match expected structure"@,
    {
        "CSV header does not match expected structure".to_string()
    }
}

/// The row maps of the lines: column name to field text.
pub open spec fn row_maps(header: Seq<String>, lines: Seq<String>) -> Seq<Map<Seq<char>, Seq<char>>> {
    Seq::new(lines.len(), |i: int| zip_text(texts(header), csv_fields(lines[i]@)))
}

/// Every line that has a `City` field also has a `Country` field.
pub open spec fn lines_locate_cities(header: Seq<String>, lines: Seq<String>) -> bool {
    forall|i: int| 0 <= i < lines.len() ==> city_has_country(#[trigger] row_maps(header, lines)[i], header)
}

/// Whether every line that has a `City` field also has a `Country` field
/// (the parsers need a city's country to key it).
pub fn lines_locate_cities_check(header: &Vec<String>, lines: &Vec<String>) -> (r: bool)
    ensures
        r == lines_locate_cities(header@, lines@),
{
    let mut has_city = false;
    for i in 0..header.len()
        invariant
            has_city == exists|k: int| 0 <= k < i && (#[trigger] header@[k])@ == "City"@,
    {
        if same_text(header[i].as_str(), "City") {
            has_city = true;
        }
    }
    assert(has_city == has_column(header@, "City"@));
    for i in 0..lines.len()
        invariant
            has_city == has_column(header@, "City"@),
            forall|k: int| 0 <= k < i ==> city_has_country(#[trigger] row_maps(header@, lines@)[k], header@),
    {
        let fields = match string_to_vec::<()>(Ok(lines[i].clone())) {
            Ok(f) => f,
            Err(_) => Vec::new(),
        };
        let row_map = map_rows(header, &fields);
        proof {
            assert(texts(fields@) =~= csv_fields(lines@[i as int]@));
            assert(text_map(row_map@) == row_maps(header@, lines@)[i as int]);
        }
        if has_city && row_map.contains_key("City") && !row_map.contains_key("Country") {
            return false;
        }
    }
    true
}

/// The parsed rows of the customers file and the store after them.
pub open spec fn customer_rows(
    cfg: Map<Seq<char>, crate::config::Cols>,
    header: Seq<String>,
    rows: Seq<Map<Seq<char>, Seq<char>>>,
    store: Map<Seq<char>, Seq<Seq<char>>>,
) -> (Seq<Seq<ValueView>>, Map<Seq<char>, Seq<Seq<char>>>)
    decreases rows.len(),
{
    if rows.len() == 0 {
        (Seq::empty(), store)
    } else {
        let (done, st) = customer_rows(cfg, header, rows.drop_last(), store);
        let (cells, st2) = data_cells(rows.last(), cfg, header, st);
        (done.push(cells), st2)
    }
}


/// Reads the data lines of a file whose rows are parsed by [`parse_data`]:
/// refused when the header does not have the configured structure; else
/// each line is split into fields, paired with the header, and parsed,
/// the dimensions collecting the countries and cities on the way.
pub fn process_customers_csv(
    lines: &Vec<String>,
    config: &DatasetConfig,
    dims: &mut DimensionStore,
    header: &Vec<String>,
) -> (r: Result<Vec<Vec<Value>>, CsvError>)
    requires
        old(dims).wf(),
        old(dims).has_room((lines@.len() * header@.len()) as nat),
        lines_locate_cities(header@, lines@),
    ensures
        final(dims).wf(),
        !(config.cols@.len() == header@.len() && forall|i: int|
            0 <= i < header@.len() ==> config.cols@.contains_key(#[trigger] header@[i]@)) ==> r
            == Err::<Vec<Vec<Value>>, CsvError>(CsvError::HeaderMismatch) && final(dims)@ == old(dims)@,
        (config.cols@.len() == header@.len() && forall|i: int|
            0 <= i < header@.len() ==> config.cols@.contains_key(#[trigger] header@[i]@)) ==> r is Ok,
        r matches Ok(rows) ==> {
            let expected = customer_rows(config.cols@, header@, row_maps(header@, lines@), old(dims)@);
            &&& rows@.len() == lines@.len()
            &&& forall|i: int, k: int|
                0 <= i < rows@.len() && 0 <= k < rows@[i]@.len() ==> (#[trigger] rows@[i]@[k])@
                    == expected.0[i][k]
            &&& forall|i: int| 0 <= i < rows@.len() ==> (#[trigger] rows@[i]@).len() == header@.len()
            &&& final(dims)@ == expected.1
        },
{
    if !config.has_same_structure(header) {
        return Err(CsvError::HeaderMismatch);
    }
    let ghost start = dims@;
    let ghost maps = row_maps(header@, lines@);
    let mut rows: Vec<Vec<Value>> = Vec::new();
    for i in 0..lines.len()
        invariant
            dims.wf(),
            lines_locate_cities(header@, lines@),
            maps == row_maps(header@, lines@),
            room(dims@, ((lines@.len() - i) * header@.len()) as nat),
            rows@.len() == i,
            forall|j: int, k: int|
                0 <= j < i && 0 <= k < rows@[j]@.len() ==> (#[trigger] rows@[j]@[k])@
                    == customer_rows(config.cols@, header@, maps.take(i as int), start).0[j][k],
            forall|j: int| 0 <= j < i ==> (#[trigger] rows@[j]@).len() == header@.len(),
            dims@ == customer_rows(config.cols@, header@, maps.take(i as int), start).1,
    {
        let ghost before = dims@;
        let fields = match string_to_vec::<()>(Ok(lines[i].clone())) {
            Ok(f) => f,
            Err(_) => Vec::new(),
        };
        let row_map = map_rows(header, &fields);
        proof {
            assert(texts(fields@) =~= csv_fields(lines@[i as int]@));
            assert(text_map(row_map@) == maps[i as int]);
            assert(city_has_country(maps[i as int], header@));
            assert(maps.take(i + 1).drop_last() == maps.take(i as int));
            assert(maps.take(i + 1).last() == maps[i as int]);
            let h = header@.len();
            let n = lines@.len();
            assert((n - i) * h == (n - i - 1) * h + h) by (nonlinear_arith);
            assert((n - i - 1) * h >= 0) by (nonlinear_arith)
                requires
                    n - i - 1 >= 0,
                    h >= 0,
            ;
            lemma_room_weaken(dims@, ((n - i) * h) as nat, h as nat);
        }
        let parsed = parse_data(&row_map, config, header.as_slice(), dims);
        proof {
            lemma_room_data_cells(text_map(row_map@), config.cols@, header@, before, ((lines@.len() - i - 1) * header@.len()) as nat);
            lemma_customer_rows_len(config.cols@, header@, maps.take(i as int), start);
            assert(maps.take(i + 1).drop_last() == maps.take(i as int));
        }
        rows.push(parsed);
        proof {
            let prev = customer_rows(config.cols@, header@, maps.take(i as int), start);
            let next = customer_rows(config.cols@, header@, maps.take(i + 1), start);
            assert(next.0 == prev.0.push(data_cells(maps[i as int], config.cols@, header@, prev.1).0));
            assert(forall|j: int| 0 <= j < i ==> next.0[j] == prev.0[j]);
        }
    }
    assert(maps.take(lines@.len() as int) == maps);
    Ok(rows)
}

/// Less room is still room.
pub proof fn lemma_room_weaken(store: Map<Seq<char>, Seq<Seq<char>>>, n: nat, m: nat)
    requires
        room(store, n),
        m <= n,
    ensures
        room(store, m),
{
}

/// A row of `header.len()` cells uses up at most that much room.
proof fn lemma_room_data_cells(
    row: Map<Seq<char>, Seq<char>>,
    cfg: Map<Seq<char>, crate::config::Cols>,
    header: Seq<String>,
    store: Map<Seq<char>, Seq<Seq<char>>>,
    n: nat,
)
    requires
        room(store, n + header.len()),
    ensures
        room(data_cells(row, cfg, header, store).1, n),
    decreases header.len(),
{
    if header.len() > 0 {
        lemma_room_data_cells(row, cfg, header.drop_last(), store, n + 1);
        let st = data_cells(row, cfg, header.drop_last(), store).1;
        crate::parser::utils::lemma_room_data_cell(header.last()@, row, cfg, st, n);
    }
}


/// One parsed row per line.
pub proof fn lemma_customer_rows_len(
    cfg: Map<Seq<char>, crate::config::Cols>,
    header: Seq<String>,
    rows: Seq<Map<Seq<char>, Seq<char>>>,
    store: Map<Seq<char>, Seq<Seq<char>>>,
)
    ensures
        customer_rows(cfg, header, rows, store).0.len() == rows.len(),
    decreases rows.len(),
{
    if rows.len() > 0 {
        lemma_customer_rows_len(cfg, header, rows.drop_last(), store);
    }
}


} // verus!
