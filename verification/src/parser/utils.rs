//! Row parsing for the customers file: every column is read by its
//! configuration, and the `Country` and `City` columns become dimension ids.

use vstd::prelude::*;
use vstd::hash_map::StringHashMap;
use vstd::utf8::encode_utf8;

use crate::config::{apply_transformation, transformed, Cols, DataType, DatasetConfig, ValueView};
use crate::dim_values::{
    after_request, grow, id_for, keeps_keys, keys_of, lemma_room_allows_request, keys_distinct, lemma_keeps_keys_refl, lemma_keeps_keys_trans,
    lemma_request_grows, lemma_request_settles, room, DimensionStore,
};
use crate::text::{parse_usize, parse_usize_spec, push_char, same_text};

pub use crate::config::Value;
pub use crate::parser::mapping::map_rows;
pub use crate::utils::string_to_vec;

verus! {

/// `m[k]` when `m` has `k`.
pub open spec fn lookup<V>(m: Map<Seq<char>, V>, k: Seq<char>) -> Option<V> {
    if m.contains_key(k) {
        Some(m[k])
    } else {
        None
    }
}

/// Some column of `header` is called `name`.
pub open spec fn has_column(header: Seq<String>, name: Seq<char>) -> bool {
    exists|i: int| 0 <= i < header.len() && (#[trigger] header[i])@ == name
}

/// Where the header has a `City` column and the row a `City` field, the row
/// also has a `Country` field (a city is keyed by its country).
pub open spec fn city_has_country(row: Map<Seq<char>, Seq<char>>, header: Seq<String>) -> bool {
    has_column(header, "City"@) && row.contains_key("City"@) ==> row.contains_key("Country"@)
}

/// A text cell: kept when the column has no length limit or the text's UTF-8
/// length is within it, else null.
pub open spec fn text_cell(cfg: Cols, v: Seq<char>) -> ValueView {
    match cfg.length {
        Some(max) => if encode_utf8(v).len() <= max {
            ValueView::Text(v)
        } else {
            ValueView::Null
        },
        None => ValueView::Text(v),
    }
}

/// A number read as an unsigned integer, null when it does not read.
pub open spec fn number_cell(v: Seq<char>) -> ValueView {
    match parse_usize_spec(v) {
        Some(n) => ValueView::Number(n),
        None => ValueView::Null,
    }
}

/// The value of an ordinary column: its field rewritten by the column's
/// transformation, then read as the column's type; null without field or
/// without configuration.
pub open spec fn plain_cell(raw: Option<Seq<char>>, cfg: Option<Cols>) -> ValueView {
    match (raw, cfg) {
        (Some(s), Some(c)) => {
            let v = transformed(c.transformation, s);
            match c.data_type {
                DataType::Number => number_cell(v),
                DataType::String => text_cell(c, v),
            }
        },
        _ => ValueView::Null,
    }
}

/// The key under which a city is numbered: `city|country`.
pub open spec fn city_key(city: Seq<char>, country: Seq<char>) -> Seq<char> {
    city + seq!['|'] + country
}

/// A column whose field is numbered in dimension `dim`: the store after the
/// request, and the id (0 without field).
pub open spec fn dimension_cell(
    store: Map<Seq<char>, Seq<Seq<char>>>,
    dim: Seq<char>,
    key: Option<Seq<char>>,
) -> (Map<Seq<char>, Seq<Seq<char>>>, ValueView) {
    match key {
        Some(k) => (after_request(store, dim, k), ValueView::Number(id_for(store, dim, k) as usize)),
        None => (store, ValueView::Number(0)),
    }
}

/// One cell of a customers row, and the store after it.
pub open spec fn data_cell(
    col: Seq<char>,
    row: Map<Seq<char>, Seq<char>>,
    cfg: Map<Seq<char>, Cols>,
    store: Map<Seq<char>, Seq<Seq<char>>>,
) -> (Map<Seq<char>, Seq<Seq<char>>>, ValueView) {
    if col == "Country"@ {
        dimension_cell(
            store,
            "countries"@,
            if row.contains_key(col) { Some(row[col]) } else { None },
        )
    } else if col == "City"@ {
        dimension_cell(
            store,
            "cities"@,
            if row.contains_key(col) {
                Some(city_key(row[col], row["Country"@]))
            } else {
                None
            },
        )
    } else {
        (store, plain_cell(lookup(row, col), lookup(cfg, col)))
    }
}

/// The cells of a customers row for the columns of `header`, left to right,
/// and the store after them.
pub open spec fn data_cells(
    row: Map<Seq<char>, Seq<char>>,
    cfg: Map<Seq<char>, Cols>,
    header: Seq<String>,
    store: Map<Seq<char>, Seq<Seq<char>>>,
) -> (Seq<ValueView>, Map<Seq<char>, Seq<Seq<char>>>)
    decreases header.len(),
{
    if header.len() == 0 {
        (Seq::empty(), store)
    } else {
        let (cells, st) = data_cells(row, cfg, header.drop_last(), store);
        let (st2, v) = data_cell(header.last()@, row, cfg, st);
        (cells.push(v), st2)
    }
}

/// Keeps `v` when it fits the column's length limit, else null.
pub fn text_value(cfg: &Cols, v: String) -> (r: Value)
    ensures
        r@ == text_cell(*cfg, v@),
{
    match cfg.length {
        Some(max) => {
            if v.as_str().as_bytes().len() <= max {
                Value::String(v)
            } else {
                Value::Null
            }
        },
        None => Value::String(v),
    }
}

/// The id of `key` in dimension `dim`, as a cell.
pub fn dimension_value(dims: &mut DimensionStore, dim: &str, key: Option<String>) -> (r: Value)
    requires
        old(dims).wf(),
        key matches Some(k) ==> grow(keys_of(old(dims)@, dim@), k@).len() < usize::MAX,
    ensures
        final(dims).wf(),
        (final(dims)@, r@) == dimension_cell(
            old(dims)@,
            dim@,
            match key {
                Some(k) => Some(k@),
                None => None,
            },
        ),
{
    match key {
        Some(k) => Value::Number(dims.get_or_create(dim, k)),
        None => Value::Number(0),
    }
}

/// The text `city|country`.
pub fn city_key_text(city: &String, country: &String) -> (r: String)
    ensures
        r@ == city_key(city@, country@),
{
    let mut key = city.clone();
    push_char(&mut key, '|');
    key.append(country.as_str());
    key
}

/// The view of a map of texts.
pub open spec fn text_map(m: Map<Seq<char>, String>) -> Map<Seq<char>, Seq<char>> {
    m.map_values(|s: String| s@)
}

/// The field of column `col`, copied out of the row.
pub fn field_of(row: &StringHashMap<String>, col: &str) -> (r: Option<String>)
    ensures
        match r {
            Some(s) => text_map(row@).contains_key(col@) && s@ == text_map(row@)[col@],
            None => !text_map(row@).contains_key(col@),
        },
{
    match row.get(col) {
        Some(v) => Some(v.clone()),
        None => None,
    }
}

/// The configuration of column `col`.
pub fn config_of(config: &DatasetConfig, col: &str) -> (r: Option<Cols>)
    ensures
        r == lookup(config.cols@, col@),
{
    match config.cols.get(col) {
        Some(c) => Some(*c),
        None => None,
    }
}

/// Parses the cells of a customers row: `Country` and `City` become ids in
/// the `countries` and `cities` dimensions (0 when the field is missing),
/// every other column is read by its configuration.
pub fn parse_data(
    map_row: &StringHashMap<String>,
    config: &DatasetConfig,
    header: &[String],
    dims: &mut DimensionStore,
) -> (parsed_row: Vec<Value>)
    requires
        old(dims).wf(),
        old(dims).has_room(header@.len() as nat),
        city_has_country(text_map(map_row@), header@),
    ensures
        final(dims).wf(),
        parsed_row@.len() == header@.len(),
        forall|k: int| 0 <= k < parsed_row@.len() ==> (#[trigger] parsed_row@[k])@ == data_cells(
            text_map(map_row@),
            config.cols@,
            header@,
            old(dims)@,
        ).0[k],
        final(dims)@ == data_cells(text_map(map_row@), config.cols@, header@, old(dims)@).1,
{
    let ghost start = dims@;
    let mut parsed_row: Vec<Value> = Vec::new();
    for i in 0..header.len()
        invariant
            dims.wf(),
            city_has_country(text_map(map_row@), header@),
            room(dims@, (header@.len() - i) as nat),
            parsed_row@.len() == i,
            forall|k: int| 0 <= k < i ==> (#[trigger] parsed_row@[k])@ == data_cells(
                text_map(map_row@),
                config.cols@,
                header@.take(i as int),
                start,
            ).0[k],
            dims@ == data_cells(text_map(map_row@), config.cols@, header@.take(i as int), start).1,
    {
        let ghost prefix = header@.take(i as int);
        let ghost before = dims@;
        proof {
            assert(header@.take(i + 1).drop_last() == prefix);
            assert(header@.take(i + 1).last() == header@[i as int]);
            crate::dim_values::lemma_room_after_request(
                dims@,
                "countries"@,
                Seq::empty(),
                (header@.len() - i - 1) as nat,
            );
        }
        let col = &header[i];
        proof {
            let row = text_map(map_row@);
            let n = (header@.len() - i - 1) as nat;
            if row.contains_key(col@) {
                lemma_room_allows_request(dims@, "countries"@, row[col@], n);
                lemma_room_allows_request(dims@, "cities"@, city_key(row[col@], row["Country"@]), n);
            }
        }
        let v = if same_text(col.as_str(), "Country") {
            let raw = field_of(map_row, col.as_str());
            dimension_value(dims, "countries", raw)
        } else if same_text(col.as_str(), "City") {
            let key = match map_row.get(col.as_str()) {
                Some(city) => {
                    proof {
                        assert(has_column(header@, "City"@)) by {
                            assert(header@[i as int]@ == "City"@);
                        }
                    }
                    let country = map_row.get("Country").unwrap();
                    Some(city_key_text(city, country))
                },
                None => None,
            };
            dimension_value(dims, "cities", key)
        } else {
            let raw = field_of(map_row, col.as_str());
            let cfg = config_of(config, col.as_str());
            match (raw, cfg) {
                (Some(value), Some(c)) => {
                    let v = apply_transformation(c.transformation, &value);
                    match c.data_type {
                        DataType::Number => match parse_usize(v.as_str()) {
                            Some(num) => Value::Number(num),
                            None => Value::Null,
                        },
                        DataType::String => text_value(&c, v),
                    }
                },
                _ => Value::Null,
            }
        };
        proof {
            let (st2, cell) = data_cell(col@, text_map(map_row@), config.cols@, before);
            assert(v@ == cell);
            assert(dims@ == st2);
            lemma_room_data_cell(col@, text_map(map_row@), config.cols@, before, (header@.len() - i - 1) as nat);
            lemma_data_cells_len(text_map(map_row@), config.cols@, prefix, start);
        }
        parsed_row.push(v);
    }
    assert(header@.take(header@.len() as int) == header@);
    proof {
        lemma_data_cells_len(text_map(map_row@), config.cols@, header@, start);
    }
    parsed_row
}

/// One cell per column.
pub proof fn lemma_data_cells_len(
    row: Map<Seq<char>, Seq<char>>,
    cfg: Map<Seq<char>, Cols>,
    header: Seq<String>,
    store: Map<Seq<char>, Seq<Seq<char>>>,
)
    ensures
        data_cells(row, cfg, header, store).0.len() == header.len(),
    decreases header.len(),
{
    if header.len() > 0 {
        lemma_data_cells_len(row, cfg, header.drop_last(), store);
    }
}

/// A cell uses up at most one unit of room in the store.
pub proof fn lemma_room_data_cell(
    col: Seq<char>,
    row: Map<Seq<char>, Seq<char>>,
    cfg: Map<Seq<char>, Cols>,
    store: Map<Seq<char>, Seq<Seq<char>>>,
    n: nat,
)
    requires
        room(store, n + 1),
    ensures
        room(data_cell(col, row, cfg, store).0, n),
{
    crate::dim_values::lemma_room_after_request(store, "countries"@, Seq::empty(), n);
    if col == "Country"@ && row.contains_key(col) {
        crate::dim_values::lemma_room_after_request(store, "countries"@, row[col], n);
    } else if col == "City"@ && row.contains_key(col) {
        crate::dim_values::lemma_room_after_request(
            store,
            "cities"@,
            city_key(row[col], row["Country"@]),
            n,
        );
    }
}

/// The id a dimension cell holds names its key in the store after the
/// request: the key sits at position `id - 1` of its dimension, which still
/// holds no key twice.
pub proof fn law_dimension_cell_id(store: Map<Seq<char>, Seq<Seq<char>>>, dim: Seq<char>, key: Seq<char>)
    requires
        store.contains_key(dim) ==> store[dim].no_duplicates() && store[dim].len() < usize::MAX,
    ensures
        ({
            let (after, v) = dimension_cell(store, dim, Some(key));
            &&& after.contains_key(dim)
            &&& after[dim].no_duplicates()
            &&& v matches ValueView::Number(id) && 1 <= id <= after[dim].len() && after[dim][id - 1] == key
        }),
{
    let ks = crate::dim_values::keys_of(store, dim);
    crate::dim_values::law_next_id(ks, key);
    let g = crate::dim_values::grow(ks, key);
    if !ks.contains(key) {
        assert(g[ks.len() as int] == key);
    }
    assert(g.contains(key));
    crate::dim_values::law_ids_identify_keys(g, key, key);
}

/// A dimension cell keeps the keys already given and keeps them distinct.
pub proof fn lemma_dimension_cell_grows(
    store: Map<Seq<char>, Seq<Seq<char>>>,
    dim: Seq<char>,
    key: Option<Seq<char>>,
)
    requires
        keys_distinct(store),
    ensures
        keeps_keys(store, dimension_cell(store, dim, key).0),
        keys_distinct(dimension_cell(store, dim, key).0),
{
    match key {
        Some(k) => lemma_request_grows(store, dim, k),
        None => lemma_keeps_keys_refl(store),
    }
}

/// A store that keeps the keys present after a dimension cell gives the same
/// cell again, unchanged.
pub proof fn lemma_dimension_cell_settles(
    store: Map<Seq<char>, Seq<Seq<char>>>,
    dim: Seq<char>,
    key: Option<Seq<char>>,
    later: Map<Seq<char>, Seq<Seq<char>>>,
)
    requires
        keys_distinct(store),
        keys_distinct(later),
        keeps_keys(dimension_cell(store, dim, key).0, later),
    ensures
        dimension_cell(later, dim, key) == (later, dimension_cell(store, dim, key).1),
{
    if let Some(k) = key {
        lemma_request_settles(store, dim, k, later);
    }
}

/// A cell of a customers row keeps the keys already given and keeps them
/// distinct.
pub proof fn lemma_data_cell_grows(
    col: Seq<char>,
    row: Map<Seq<char>, Seq<char>>,
    cfg: Map<Seq<char>, Cols>,
    store: Map<Seq<char>, Seq<Seq<char>>>,
)
    requires
        keys_distinct(store),
    ensures
        keeps_keys(store, data_cell(col, row, cfg, store).0),
        keys_distinct(data_cell(col, row, cfg, store).0),
{
    let k = if row.contains_key(col) { Some(row[col]) } else { None };
    let ck = if row.contains_key(col) { Some(city_key(row[col], row["Country"@])) } else { None };
    lemma_dimension_cell_grows(store, "countries"@, k);
    lemma_dimension_cell_grows(store, "cities"@, ck);
    lemma_keeps_keys_refl(store);
}

/// The cells of a customers row keep the keys already given and keep them
/// distinct.
pub proof fn lemma_data_cells_grow(
    row: Map<Seq<char>, Seq<char>>,
    cfg: Map<Seq<char>, Cols>,
    header: Seq<String>,
    store: Map<Seq<char>, Seq<Seq<char>>>,
)
    requires
        keys_distinct(store),
    ensures
        keeps_keys(store, data_cells(row, cfg, header, store).1),
        keys_distinct(data_cells(row, cfg, header, store).1),
    decreases header.len(),
{
    if header.len() == 0 {
        lemma_keeps_keys_refl(store);
    } else {
        let (cells, st) = data_cells(row, cfg, header.drop_last(), store);
        lemma_data_cells_grow(row, cfg, header.drop_last(), store);
        lemma_data_cell_grows(header.last()@, row, cfg, st);
        lemma_keeps_keys_trans(store, st, data_cell(header.last()@, row, cfg, st).0);
    }
}

/// A store that keeps the keys present after a customers row gives the same
/// cells for that row again, unchanged.
pub proof fn lemma_data_cells_settle(
    row: Map<Seq<char>, Seq<char>>,
    cfg: Map<Seq<char>, Cols>,
    header: Seq<String>,
    store: Map<Seq<char>, Seq<Seq<char>>>,
    later: Map<Seq<char>, Seq<Seq<char>>>,
)
    requires
        keys_distinct(store),
        keys_distinct(later),
        keeps_keys(data_cells(row, cfg, header, store).1, later),
    ensures
        data_cells(row, cfg, header, later) == (data_cells(row, cfg, header, store).0, later),
    decreases header.len(),
{
    if header.len() > 0 {
        let (cells, st) = data_cells(row, cfg, header.drop_last(), store);
        let col = header.last()@;
        lemma_data_cells_grow(row, cfg, header.drop_last(), store);
        lemma_data_cell_grows(col, row, cfg, st);
        lemma_keeps_keys_trans(st, data_cell(col, row, cfg, st).0, later);
        lemma_data_cells_settle(row, cfg, header.drop_last(), store, later);
        let k = if row.contains_key(col) { Some(row[col]) } else { None };
        let ck = if row.contains_key(col) { Some(city_key(row[col], row["Country"@])) } else { None };
        if col == "Country"@ {
            lemma_dimension_cell_settles(st, "countries"@, k, later);
        } else if col == "City"@ {
            lemma_dimension_cell_settles(st, "cities"@, ck, later);
        }
    }
}

/// Parsing the same customers row a second time, on the store the first
/// parse left, gives the same cells and leaves the store as it was: no new
/// ids are handed out.
pub proof fn law_parse_data_twice(
    row: Map<Seq<char>, Seq<char>>,
    cfg: Map<Seq<char>, Cols>,
    header: Seq<String>,
    store: Map<Seq<char>, Seq<Seq<char>>>,
)
    requires
        keys_distinct(store),
    ensures
        ({
            let (cells, after) = data_cells(row, cfg, header, store);
            data_cells(row, cfg, header, after) == (cells, after)
        }),
{
    let after = data_cells(row, cfg, header, store).1;
    lemma_data_cells_grow(row, cfg, header, store);
    lemma_keeps_keys_refl(after);
    lemma_data_cells_settle(row, cfg, header, store, after);
}

/// The store after the first `i` cells of a row keeps its keys in the store
/// after the whole row.
pub proof fn lemma_data_cells_prefix_keeps(
    row: Map<Seq<char>, Seq<char>>,
    cfg: Map<Seq<char>, Cols>,
    header: Seq<String>,
    store: Map<Seq<char>, Seq<Seq<char>>>,
    i: int,
)
    requires
        keys_distinct(store),
        0 <= i <= header.len(),
    ensures
        keeps_keys(data_cells(row, cfg, header.take(i), store).1, data_cells(row, cfg, header, store).1),
    decreases header.len(),
{
    if i == header.len() {
        assert(header.take(i) == header);
        lemma_keeps_keys_refl(data_cells(row, cfg, header, store).1);
    } else {
        let init = header.drop_last();
        assert(init.take(i) == header.take(i));
        lemma_data_cells_prefix_keeps(row, cfg, init, store, i);
        let st = data_cells(row, cfg, init, store).1;
        lemma_data_cells_grow(row, cfg, init, store);
        lemma_data_cell_grows(header.last()@, row, cfg, st);
        lemma_keeps_keys_trans(
            data_cells(row, cfg, header.take(i), store).1,
            st,
            data_cells(row, cfg, header, store).1,
        );
    }
}

/// The first `i` cells of a row are the cells of its first `i` columns.
pub proof fn lemma_data_cells_prefix_cells(
    row: Map<Seq<char>, Seq<char>>,
    cfg: Map<Seq<char>, Cols>,
    header: Seq<String>,
    store: Map<Seq<char>, Seq<Seq<char>>>,
    i: int,
)
    requires
        0 <= i <= header.len(),
    ensures
        forall|k: int| 0 <= k < i ==> data_cells(row, cfg, header, store).0[k]
            == #[trigger] data_cells(row, cfg, header.take(i), store).0[k],
    decreases header.len(),
{
    if i == header.len() {
        assert(header.take(i) == header);
    } else {
        let init = header.drop_last();
        assert(init.take(i) == header.take(i));
        lemma_data_cells_prefix_cells(row, cfg, init, store, i);
        lemma_data_cells_len(row, cfg, init, store);
    }
}

/// In a customers row, a `Country` or `City` column numbers its field in
/// its own dimension (`countries`, `cities` keyed by `city|country`): its
/// cell is the id that dimension gives the key, the store after the row holds
/// the key at that id, and no other dimension changes for that field.
pub proof fn law_customer_dimension_columns(
    row: Map<Seq<char>, Seq<char>>,
    cfg: Map<Seq<char>, Cols>,
    header: Seq<String>,
    store: Map<Seq<char>, Seq<Seq<char>>>,
    i: int,
)
    requires
        keys_distinct(store),
        0 <= i < header.len(),
        row.contains_key(header[i]@),
        header[i]@ == "Country"@ || header[i]@ == "City"@,
    ensures
        ({
            let col = header[i]@;
            let dim = if col == "Country"@ {
                "countries"@
            } else {
                "cities"@
            };
            let key = if col == "City"@ {
                city_key(row[col], row["Country"@])
            } else {
                row[col]
            };
            let before = data_cells(row, cfg, header.take(i), store).1;
            let next = data_cells(row, cfg, header.take(i + 1), store).1;
            let after = data_cells(row, cfg, header, store).1;
            let id = crate::dim_values::id_for(before, dim, key);
            &&& data_cells(row, cfg, header, store).0[i] == ValueView::Number(id as usize)
            &&& after.contains_key(dim)
            &&& 1 <= id <= after[dim].len()
            &&& after[dim][id - 1] == key
            &&& forall|d: Seq<char>|
                d != dim ==> (#[trigger] next.contains_key(d) == before.contains_key(d) && (before.contains_key(d)
                    ==> next[d] == before[d]))
        }),
{
    let col = header[i]@;
    let dim = if col == "Country"@ {
        "countries"@
    } else {
        "cities"@
    };
    let key = if col == "City"@ {
        city_key(row[col], row["Country"@])
    } else {
        row[col]
    };
    let before = data_cells(row, cfg, header.take(i), store).1;
    let next = data_cells(row, cfg, header.take(i + 1), store).1;
    let after = data_cells(row, cfg, header, store).1;
    reveal_strlit("Country");
    reveal_strlit("City");
    assert("Country"@.len() != "City"@.len());
    assert(header.take(i + 1).drop_last() == header.take(i));
    assert(header.take(i + 1).last() == header[i]);
    lemma_data_cells_grow(row, cfg, header.take(i), store);
    lemma_data_cells_len(row, cfg, header.take(i), store);
    let step = data_cell(col, row, cfg, before);
    assert(data_cells(row, cfg, header.take(i + 1), store) == (
        data_cells(row, cfg, header.take(i), store).0.push(step.1),
        step.0,
    ));
    if col == "Country"@ {
        assert(dim == "countries"@ && key == row[col]);
        assert(step == dimension_cell(before, "countries"@, Some(row[col])));
    } else {
        assert(dim == "cities"@);
        assert(step == dimension_cell(before, "cities"@, Some(city_key(row[col], row["Country"@]))));
    }
    assert(step == dimension_cell(before, dim, Some(key)));
    assert(next == crate::dim_values::after_request(before, dim, key));
    lemma_data_cells_prefix_cells(row, cfg, header, store, i + 1);
    assert(data_cells(row, cfg, header.take(i + 1), store).0[i] == ValueView::Number(
        crate::dim_values::id_for(before, dim, key) as usize,
    ));
    let ks = crate::dim_values::keys_of(before, dim);
    crate::dim_values::law_next_id(ks, key);
    let g = crate::dim_values::grow(ks, key);
    if !ks.contains(key) {
        assert(g[ks.len() as int] == key);
    }
    assert(g.contains(key));
    crate::dim_values::law_ids_identify_keys(g, key, key);
    assert(next[dim] == g);
    lemma_data_cells_prefix_keeps(row, cfg, header, store, i + 1);
    assert(next.contains_key(dim));
    let id = crate::dim_values::id_for(before, dim, key);
    assert(after[dim][id - 1] == next[dim][id - 1]);
}

} // verus!
