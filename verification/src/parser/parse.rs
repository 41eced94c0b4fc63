//! Row parsing for the files with prices and categories: numbers are
//! cleaned of blanks and currency signs and kept as that text, for the
//! loader to read as floating-point numbers, and the `Country`, `City` and
//! `Category` columns become dimension ids.

use vstd::prelude::*;
use vstd::hash_map::StringHashMap;

use crate::config::{apply_transformation, transformed, Cols, DataType, DatasetConfig, Value, ValueView};
use crate::decimal_text::{float_text, is_float_text};
use crate::dim_values::{
    keeps_keys, keys_distinct, lemma_keeps_keys_refl, lemma_keeps_keys_trans, lemma_request_fits, room,
    within_limits, DimensionStore,
};
use crate::parser::utils::{
    city_has_country, city_key, city_key_text, config_of, dimension_cell, dimension_value,
    lemma_dimension_cell_grows, lemma_dimension_cell_settles,
    field_of, has_column, lookup, text_cell, text_map, text_value,
};
use crate::text::{remove_char, replace_char, replace_text, trim, trim_text, without, same_text};

verus! {

/// The text of a number field as it is read: trimmed, `,` turned into `.`,
/// and `$` signs removed.
pub open spec fn cleaned_number(v: Seq<char>) -> Seq<char> {
    without(replace_char(trim(v), ',', '.'), '$')
}

/// The value of an ordinary column of these files: a number column gives its
/// cleaned text as a decimal when that text reads as a floating-point number
/// and null otherwise, a text column its text within the length limit.
pub open spec fn value_cell(raw: Option<Seq<char>>, cfg: Option<Cols>) -> ValueView {
    match (raw, cfg) {
        (Some(s), Some(c)) => {
            let v = transformed(c.transformation, s);
            match c.data_type {
                DataType::Number => if is_float_text(cleaned_number(v)) {
                    ValueView::Decimal(cleaned_number(v))
                } else {
                    ValueView::Null
                },
                DataType::String => text_cell(c, v),
            }
        },
        _ => ValueView::Null,
    }
}

/// One cell of a row, and the store after it.
pub open spec fn value_step(
    col: Seq<char>,
    row: Map<Seq<char>, Seq<char>>,
    cfg: Map<Seq<char>, Cols>,
    store: Map<Seq<char>, Seq<Seq<char>>>,
) -> (Map<Seq<char>, Seq<Seq<char>>>, ValueView) {
    if col == "Country"@ {
        dimension_cell(
            store,
            "countries"@,
            if row.contains_key(col) { Some(row[col]) } else { None },
        )
    } else if col == "City"@ {
        dimension_cell(
            store,
            "cities"@,
            if row.contains_key(col) {
                Some(city_key(row[col], row["Country"@]))
            } else {
                None
            },
        )
    } else if col == "Category"@ {
        dimension_cell(
            store,
            "categories"@,
            if row.contains_key(col) { Some(row[col]) } else { None },
        )
    } else {
        (store, value_cell(lookup(row, col), lookup(cfg, col)))
    }
}

/// The cells of a row for the columns of `header`, left to right, and the
/// store after them.
pub open spec fn value_cells(
    row: Map<Seq<char>, Seq<char>>,
    cfg: Map<Seq<char>, Cols>,
    header: Seq<String>,
    store: Map<Seq<char>, Seq<Seq<char>>>,
) -> (Seq<ValueView>, Map<Seq<char>, Seq<Seq<char>>>)
    decreases header.len(),
{
    if header.len() == 0 {
        (Seq::empty(), store)
    } else {
        let (cells, st) = value_cells(row, cfg, header.drop_last(), store);
        let (st2, v) = value_step(header.last()@, row, cfg, st);
        (cells.push(v), st2)
    }
}

/// The text of a number field as it is read.
pub fn clean_number(v: &String) -> (r: String)
    ensures
        r@ == cleaned_number(v@),
{
    let t = trim_text(v.as_str());
    let d = replace_text(t.as_str(), ',', '.');
    remove_char(d.as_str(), '$')
}

/// Parses the cells of a row: `Country`, `City` and `Category` become ids in
/// the `countries`, `cities` and `categories` dimensions (0 when the field is
/// missing), every other column is read by its configuration; a number
/// column gives its cleaned text when that text reads as a floating-point
/// number (the loader does the reading), and null otherwise.
pub fn parse_values(
    map_row: &StringHashMap<String>,
    config: &DatasetConfig,
    header: &[String],
    dims: &mut DimensionStore,
) -> (parsed_row: Vec<Value>)
    requires
        old(dims).wf(),
        within_limits(value_cells(text_map(map_row@), config.cols@, header@, old(dims)@).1),
        city_has_country(text_map(map_row@), header@),
    ensures
        final(dims).wf(),
        parsed_row@.len() == header@.len(),
        forall|k: int| 0 <= k < parsed_row@.len() ==> (#[trigger] parsed_row@[k])@ == value_cells(
            text_map(map_row@),
            config.cols@,
            header@,
            old(dims)@,
        ).0[k],
        final(dims)@ == value_cells(text_map(map_row@), config.cols@, header@, old(dims)@).1,
{
    let ghost start = dims@;
    let ghost last = value_cells(text_map(map_row@), config.cols@, header@, start).1;
    proof {
        dims.lemma_view_keys_distinct();
    }
    let mut parsed_row: Vec<Value> = Vec::new();
    for i in 0..header.len()
        invariant
            dims.wf(),
            city_has_country(text_map(map_row@), header@),
            keys_distinct(start),
            last == value_cells(text_map(map_row@), config.cols@, header@, start).1,
            within_limits(last),
            parsed_row@.len() == i,
            forall|k: int| 0 <= k < i ==> (#[trigger] parsed_row@[k])@ == value_cells(
                text_map(map_row@),
                config.cols@,
                header@.take(i as int),
                start,
            ).0[k],
            dims@ == value_cells(text_map(map_row@), config.cols@, header@.take(i as int), start).1,
    {
        let ghost prefix = header@.take(i as int);
        let ghost before = dims@;
        let col = &header[i];
        proof {
            assert(header@.take(i + 1).drop_last() == prefix);
            assert(header@.take(i + 1).last() == header@[i as int]);
            let row = text_map(map_row@);
            lemma_value_cells_prefix_keeps(row, config.cols@, header@, start, i + 1);
            lemma_value_cells_grow(row, config.cols@, prefix, start);
            if row.contains_key(col@) {
                if col@ == "Country"@ {
                    lemma_request_fits(before, "countries"@, row[col@], last);
                } else if col@ == "City"@ {
                    lemma_request_fits(before, "cities"@, city_key(row[col@], row["Country"@]), last);
                } else if col@ == "Category"@ {
                    lemma_request_fits(before, "categories"@, row[col@], last);
                }
            }
        }
        let v = if same_text(col.as_str(), "Country") {
            let raw = field_of(map_row, col.as_str());
            dimension_value(dims, "countries", raw)
        } else if same_text(col.as_str(), "City") {
            let key = match map_row.get(col.as_str()) {
                Some(city) => {
                    proof {
                        assert(has_column(header@, "City"@)) by {
                            assert(header@[i as int]@ == "City"@);
                        }
                    }
                    let country = map_row.get("Country").unwrap();
                    Some(city_key_text(city, country))
                },
                None => None,
            };
            dimension_value(dims, "cities", key)
        } else if same_text(col.as_str(), "Category") {
            let raw = field_of(map_row, col.as_str());
            dimension_value(dims, "categories", raw)
        } else {
            let raw = field_of(map_row, col.as_str());
            let cfg = config_of(config, col.as_str());
            match (raw, cfg) {
                (Some(value), Some(c)) => {
                    let v = apply_transformation(c.transformation, &value);
                    match c.data_type {
                        DataType::Number => {
                            let cleaned = clean_number(&v);
                            if float_text(cleaned.as_str()) {
                                Value::Decimal(cleaned)
                            } else {
                                Value::Null
                            }
                        },
                        DataType::String => text_value(&c, v),
                    }
                },
                _ => Value::Null,
            }
        };
        proof {
            let (st2, cell) = value_step(col@, text_map(map_row@), config.cols@, before);
            assert(v@ == cell);
            assert(dims@ == st2);
            lemma_value_cells_len(text_map(map_row@), config.cols@, prefix, start);
        }
        parsed_row.push(v);
    }
    assert(header@.take(header@.len() as int) == header@);
    proof {
        lemma_value_cells_len(text_map(map_row@), config.cols@, header@, start);
    }
    parsed_row
}

/// One cell per column.
pub proof fn lemma_value_cells_len(
    row: Map<Seq<char>, Seq<char>>,
    cfg: Map<Seq<char>, Cols>,
    header: Seq<String>,
    store: Map<Seq<char>, Seq<Seq<char>>>,
)
    ensures
        value_cells(row, cfg, header, store).0.len() == header.len(),
    decreases header.len(),
{
    if header.len() > 0 {
        lemma_value_cells_len(row, cfg, header.drop_last(), store);
    }
}

/// A cell uses up at most one unit of room in the store.
pub proof fn lemma_room_value_step(
    col: Seq<char>,
    row: Map<Seq<char>, Seq<char>>,
    cfg: Map<Seq<char>, Cols>,
    store: Map<Seq<char>, Seq<Seq<char>>>,
    n: nat,
)
    requires
        room(store, n + 1),
    ensures
        room(value_step(col, row, cfg, store).0, n),
{
    crate::dim_values::lemma_room_after_request(store, "countries"@, Seq::empty(), n);
    if col == "Country"@ && row.contains_key(col) {
        crate::dim_values::lemma_room_after_request(store, "countries"@, row[col], n);
    } else if col == "City"@ && row.contains_key(col) {
        crate::dim_values::lemma_room_after_request(
            store,
            "cities"@,
            city_key(row[col], row["Country"@]),
            n,
        );
    } else if col == "Category"@ && row.contains_key(col) {
        crate::dim_values::lemma_room_after_request(store, "categories"@, row[col], n);
    }
}

/// A cell of these files keeps the keys already given and keeps them
/// distinct.
pub proof fn lemma_value_step_grows(
    col: Seq<char>,
    row: Map<Seq<char>, Seq<char>>,
    cfg: Map<Seq<char>, Cols>,
    store: Map<Seq<char>, Seq<Seq<char>>>,
)
    requires
        keys_distinct(store),
    ensures
        keeps_keys(store, value_step(col, row, cfg, store).0),
        keys_distinct(value_step(col, row, cfg, store).0),
{
    let k = if row.contains_key(col) { Some(row[col]) } else { None };
    let ck = if row.contains_key(col) { Some(city_key(row[col], row["Country"@])) } else { None };
    lemma_dimension_cell_grows(store, "countries"@, k);
    lemma_dimension_cell_grows(store, "cities"@, ck);
    lemma_dimension_cell_grows(store, "categories"@, k);
    lemma_keeps_keys_refl(store);
}

/// The cells of a row keep the keys already given and keep them distinct.
pub proof fn lemma_value_cells_grow(
    row: Map<Seq<char>, Seq<char>>,
    cfg: Map<Seq<char>, Cols>,
    header: Seq<String>,
    store: Map<Seq<char>, Seq<Seq<char>>>,
)
    requires
        keys_distinct(store),
    ensures
        keeps_keys(store, value_cells(row, cfg, header, store).1),
        keys_distinct(value_cells(row, cfg, header, store).1),
    decreases header.len(),
{
    if header.len() == 0 {
        lemma_keeps_keys_refl(store);
    } else {
        let (cells, st) = value_cells(row, cfg, header.drop_last(), store);
        lemma_value_cells_grow(row, cfg, header.drop_last(), store);
        lemma_value_step_grows(header.last()@, row, cfg, st);
        lemma_keeps_keys_trans(store, st, value_step(header.last()@, row, cfg, st).0);
    }
}

/// A store that keeps the keys present after a row gives the same cells for
/// that row again, unchanged.
pub proof fn lemma_value_cells_settle(
    row: Map<Seq<char>, Seq<char>>,
    cfg: Map<Seq<char>, Cols>,
    header: Seq<String>,
    store: Map<Seq<char>, Seq<Seq<char>>>,
    later: Map<Seq<char>, Seq<Seq<char>>>,
)
    requires
        keys_distinct(store),
        keys_distinct(later),
        keeps_keys(value_cells(row, cfg, header, store).1, later),
    ensures
        value_cells(row, cfg, header, later) == (value_cells(row, cfg, header, store).0, later),
    decreases header.len(),
{
    if header.len() > 0 {
        let (cells, st) = value_cells(row, cfg, header.drop_last(), store);
        let col = header.last()@;
        lemma_value_cells_grow(row, cfg, header.drop_last(), store);
        lemma_value_step_grows(col, row, cfg, st);
        lemma_keeps_keys_trans(st, value_step(col, row, cfg, st).0, later);
        lemma_value_cells_settle(row, cfg, header.drop_last(), store, later);
        let k = if row.contains_key(col) { Some(row[col]) } else { None };
        let ck = if row.contains_key(col) { Some(city_key(row[col], row["Country"@])) } else { None };
        if col == "Country"@ {
            lemma_dimension_cell_settles(st, "countries"@, k, later);
        } else if col == "City"@ {
            lemma_dimension_cell_settles(st, "cities"@, ck, later);
        } else if col == "Category"@ {
            lemma_dimension_cell_settles(st, "categories"@, k, later);
        }
    }
}

/// Parsing the same row a second time, on the store the first parse left,
/// gives the same cells and leaves the store as it was: no new ids are
/// handed out.
pub proof fn law_parse_values_twice(
    row: Map<Seq<char>, Seq<char>>,
    cfg: Map<Seq<char>, Cols>,
    header: Seq<String>,
    store: Map<Seq<char>, Seq<Seq<char>>>,
)
    requires
        keys_distinct(store),
    ensures
        ({
            let (cells, after) = value_cells(row, cfg, header, store);
            value_cells(row, cfg, header, after) == (cells, after)
        }),
{
    let after = value_cells(row, cfg, header, store).1;
    lemma_value_cells_grow(row, cfg, header, store);
    lemma_keeps_keys_refl(after);
    lemma_value_cells_settle(row, cfg, header, store, after);
}

/// The store after the first `i` cells of a row keeps its keys in the store
/// after the whole row.
pub proof fn lemma_value_cells_prefix_keeps(
    row: Map<Seq<char>, Seq<char>>,
    cfg: Map<Seq<char>, Cols>,
    header: Seq<String>,
    store: Map<Seq<char>, Seq<Seq<char>>>,
    i: int,
)
    requires
        keys_distinct(store),
        0 <= i <= header.len(),
    ensures
        keeps_keys(value_cells(row, cfg, header.take(i), store).1, value_cells(row, cfg, header, store).1),
    decreases header.len(),
{
    if i == header.len() {
        assert(header.take(i) == header);
        lemma_keeps_keys_refl(value_cells(row, cfg, header, store).1);
    } else {
        let init = header.drop_last();
        assert(init.take(i) == header.take(i));
        lemma_value_cells_prefix_keeps(row, cfg, init, store, i);
        let st = value_cells(row, cfg, init, store).1;
        lemma_value_cells_grow(row, cfg, init, store);
        lemma_value_step_grows(header.last()@, row, cfg, st);
        lemma_keeps_keys_trans(
            value_cells(row, cfg, header.take(i), store).1,
            st,
            value_cells(row, cfg, header, store).1,
        );
    }
}

/// The store that parsing a row left, when well formed, lets the same row be
/// parsed again with no further room: the second parse gives the same cells
/// and hands out no new id.
pub proof fn law_second_parse_needs_no_room(
    dims: &DimensionStore,
    row: Map<Seq<char>, Seq<char>>,
    cfg: Map<Seq<char>, Cols>,
    header: Seq<String>,
    store: Map<Seq<char>, Seq<Seq<char>>>,
)
    requires
        keys_distinct(store),
        dims.wf(),
        dims@ == value_cells(row, cfg, header, store).1,
    ensures
        within_limits(value_cells(row, cfg, header, dims@).1),
        value_cells(row, cfg, header, dims@) == (value_cells(row, cfg, header, store).0, dims@),
{
    law_parse_values_twice(row, cfg, header, store);
    dims.lemma_view_within_limits();
}

/// The first `i` cells of a row are the cells of its first `i` columns.
pub proof fn lemma_value_cells_prefix_cells(
    row: Map<Seq<char>, Seq<char>>,
    cfg: Map<Seq<char>, Cols>,
    header: Seq<String>,
    store: Map<Seq<char>, Seq<Seq<char>>>,
    i: int,
)
    requires
        0 <= i <= header.len(),
    ensures
        forall|k: int| 0 <= k < i ==> value_cells(row, cfg, header, store).0[k]
            == #[trigger] value_cells(row, cfg, header.take(i), store).0[k],
    decreases header.len(),
{
    if i == header.len() {
        assert(header.take(i) == header);
    } else {
        let init = header.drop_last();
        assert(init.take(i) == header.take(i));
        lemma_value_cells_prefix_cells(row, cfg, init, store, i);
        lemma_value_cells_len(row, cfg, init, store);
    }
}

/// A `Country`, `City` or `Category` column numbers its field in its own
/// dimension (`countries`, `cities` keyed by `city|country`, `categories`):
/// its cell is the id that dimension gives the key, the store after the row
/// holds the key at that id, and no other dimension changes for that field.
pub proof fn law_dimension_columns(
    row: Map<Seq<char>, Seq<char>>,
    cfg: Map<Seq<char>, Cols>,
    header: Seq<String>,
    store: Map<Seq<char>, Seq<Seq<char>>>,
    i: int,
)
    requires
        keys_distinct(store),
        0 <= i < header.len(),
        row.contains_key(header[i]@),
        header[i]@ == "Country"@ || header[i]@ == "City"@ || header[i]@ == "Category"@,
    ensures
        ({
            let col = header[i]@;
            let dim = if col == "Country"@ {
                "countries"@
            } else if col == "City"@ {
                "cities"@
            } else {
                "categories"@
            };
            let key = if col == "City"@ {
                city_key(row[col], row["Country"@])
            } else {
                row[col]
            };
            let before = value_cells(row, cfg, header.take(i), store).1;
            let next = value_cells(row, cfg, header.take(i + 1), store).1;
            let after = value_cells(row, cfg, header, store).1;
            let id = crate::dim_values::id_for(before, dim, key);
            &&& value_cells(row, cfg, header, store).0[i] == ValueView::Number(id as usize)
            &&& after.contains_key(dim)
            &&& 1 <= id <= after[dim].len()
            &&& after[dim][id - 1] == key
            &&& forall|d: Seq<char>|
                d != dim ==> (#[trigger] next.contains_key(d) == before.contains_key(d) && (before.contains_key(d)
                    ==> next[d] == before[d]))
        }),
{
    let col = header[i]@;
    let dim = if col == "Country"@ {
        "countries"@
    } else if col == "City"@ {
        "cities"@
    } else {
        "categories"@
    };
    let key = if col == "City"@ {
        city_key(row[col], row["Country"@])
    } else {
        row[col]
    };
    let before = value_cells(row, cfg, header.take(i), store).1;
    let next = value_cells(row, cfg, header.take(i + 1), store).1;
    let after = value_cells(row, cfg, header, store).1;
    reveal_strlit("Country");
    reveal_strlit("City");
    reveal_strlit("Category");
    assert("Country"@.len() != "City"@.len());
    assert("Category"@[1] != "City"@[1]);
    assert("Category"@[1] != "Country"@[1]);
    assert(header.take(i + 1).drop_last() == header.take(i));
    assert(header.take(i + 1).last() == header[i]);
    lemma_value_cells_grow(row, cfg, header.take(i), store);
    lemma_value_cells_len(row, cfg, header.take(i), store);
    let step = value_step(col, row, cfg, before);
    assert(value_cells(row, cfg, header.take(i + 1), store) == (
        value_cells(row, cfg, header.take(i), store).0.push(step.1),
        step.0,
    ));
    if col == "Country"@ {
        assert(dim == "countries"@ && key == row[col]);
        assert(step == dimension_cell(before, "countries"@, Some(row[col])));
    } else if col == "City"@ {
        assert(dim == "cities"@);
        assert(step == dimension_cell(before, "cities"@, Some(city_key(row[col], row["Country"@]))));
    } else {
        assert(dim == "categories"@ && key == row[col]);
        assert(step == dimension_cell(before, "categories"@, Some(row[col])));
    }
    assert(step == dimension_cell(before, dim, Some(key)));
    assert(next == crate::dim_values::after_request(before, dim, key));
    lemma_value_cells_prefix_cells(row, cfg, header, store, i + 1);
    assert(value_cells(row, cfg, header.take(i + 1), store).0[i] == ValueView::Number(
        crate::dim_values::id_for(before, dim, key) as usize,
    ));
    let ks = crate::dim_values::keys_of(before, dim);
    crate::dim_values::law_next_id(ks, key);
    let g = crate::dim_values::grow(ks, key);
    if !ks.contains(key) {
        assert(g[ks.len() as int] == key);
    }
    assert(g.contains(key));
    crate::dim_values::law_ids_identify_keys(g, key, key);
    assert(next[dim] == g);
    lemma_value_cells_prefix_keeps(row, cfg, header, store, i + 1);
    assert(next.contains_key(dim));
    let id = crate::dim_values::id_for(before, dim, key);
    assert(after[dim][id - 1] == next[dim][id - 1]);
}

} // verus!
