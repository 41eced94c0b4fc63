//! The rows that the loaders insert: which parsed rows and dimension
//! entries become database rows, and with which column values. The
//! statements themselves are run by the caller.

use vstd::prelude::*;
use std::collections::HashSet;

use crate::config::{value_text, Value, ValueView};
use crate::dates::{date_of, parse_date, CalendarDate};
use crate::dim_values::{id_in, DimensionStore};
use crate::parser::orders::has_id;
use crate::text::{split, split_text};

verus! {

/// An entry of a dimension as a row: its id and its name.
pub struct NamedId {
    pub id: i32,
    pub name: String,
}

/// A row of the `cities` table.
pub struct CityRow {
    pub city_id: i32,
    pub city_name: String,
    pub country_id: i32,
}

/// The mathematical content of a [`CityRow`].
pub struct CityRowView {
    pub city_id: i32,
    pub city_name: Seq<char>,
    pub country_id: i32,
}

impl View for CityRow {
    type V = CityRowView;

    open spec fn view(&self) -> CityRowView {
        CityRowView { city_id: self.city_id, city_name: self.city_name@, country_id: self.country_id }
    }
}

/// A row of the `customers` table.
pub struct CustomerRecord {
    pub customer_id: i32,
    pub first_name: String,
    pub last_name: String,
    pub email: String,
    pub phone: Option<String>,
    pub city_id: i32,
}

/// A row of the `products` table, but for the price, which the loader reads
/// as a floating-point number from the row's price cell.
pub struct ProductRecord {
    pub product_id: i32,
    pub product_name: String,
    pub category_id: i32,
    pub stock: i32,
}

/// A row of the `orders` table.
pub struct OrderRecord {
    pub order_id: i32,
    pub customer_id: i32,
    pub order_date: CalendarDate,
    pub status_id: i32,
}

/// A row of the `order_details` table, but for the total, which the loader
/// reads as a floating-point number from the row's total cell.
pub struct OrderItemRecord {
    pub order_id: i32,
    pub product_id: i32,
    pub quantity: i32,
}

/// The cell at position `i` of a row, if the row has one.
pub open spec fn cell(row: Seq<Value>, i: int) -> Option<ValueView> {
    if 0 <= i < row.len() {
        Some(row[i]@)
    } else {
        None
    }
}

/// The number in a cell, if it is a number.
pub open spec fn number_at(row: Seq<Value>, i: int) -> Option<usize> {
    match cell(row, i) {
        Some(ValueView::Number(n)) => Some(n),
        _ => None,
    }
}

/// The text in a cell, if it is text.
pub open spec fn text_at(row: Seq<Value>, i: int) -> Option<Seq<char>> {
    match cell(row, i) {
        Some(ValueView::Text(s)) => Some(s),
        _ => None,
    }
}

/// The whole number that the loader read from cell `i` of a row, if it read
/// one there. (A number cell is read as a floating-point number and cut to an
/// `i32`; that reading is done outside the library.)
pub open spec fn whole_at(numbers: Seq<Option<i32>>, i: int) -> Option<i32> {
    if 0 <= i < numbers.len() {
        numbers[i]
    } else {
        None
    }
}

/// The whole number read from cell `i`, if any.
pub fn whole_in(numbers: &Vec<Option<i32>>, i: usize) -> (r: Option<i32>)
    ensures
        r == whole_at(numbers@, i as int),
{
    if i < numbers.len() {
        numbers[i]
    } else {
        None
    }
}

/// The number at position `i` of a row, if that cell is a number.
pub fn number_in(row: &Vec<Value>, i: usize) -> (r: Option<usize>)
    ensures
        r == number_at(row@, i as int),
{
    if i < row.len() {
        match &row[i] {
            Value::Number(n) => Some(*n),
            _ => None,
        }
    } else {
        None
    }
}

/// The text at position `i` of a row, if that cell is text.
pub fn text_in(row: &Vec<Value>, i: usize) -> (r: Option<String>)
    ensures
        match r {
            Some(s) => text_at(row@, i as int) == Some(s@),
            None => text_at(row@, i as int) is None,
        },
{
    if i < row.len() {
        match &row[i] {
            Value::String(s) => Some(s.clone()),
            _ => None,
        }
    } else {
        None
    }
}

// ---------------------------------------------------------------------------
// Dimension tables
// ---------------------------------------------------------------------------

/// The rows of a dimension table: one per key, its id and its name, in id
/// order; none when the dimension does not exist.
pub fn dimension_rows(dims: &DimensionStore, dim: &str) -> (r: Vec<NamedId>)
    requires
        dims.wf(),
    ensures
        dims@.contains_key(dim@) ==> r@.len() == dims@[dim@].len() && forall|i: int|
            0 <= i < r@.len() ==> (#[trigger] r@[i]).id == (i + 1) as i32 && r@[i].name@
                == dims@[dim@][i],
        !dims@.contains_key(dim@) ==> r@.len() == 0,
{
    let mut out: Vec<NamedId> = Vec::new();
    match dims.get(dim) {
        Some(d) => {
            let entries = d.entries();
            for i in 0..entries.len()
                invariant
                    d@ == dims@[dim@],
                    entries@.len() == d@.len(),
                    forall|k: int| 0 <= k < entries@.len() ==> (#[trigger] entries@[k]).0@ == d@[k] && entries@[k].1 == k + 1,
                    out@.len() == i,
                    forall|k: int| 0 <= k < i ==> (#[trigger] out@[k]).id == (k + 1) as i32 && out@[k].name@ == d@[k],
            {
                let name = entries[i].0.clone();
                out.push(NamedId { id: entries[i].1 as i32, name });
            }
        },
        None => {},
    }
    out
}

/// The rows of the `countries` table.
pub fn country_rows(dims: &DimensionStore) -> (r: Vec<NamedId>)
    requires
        dims.wf(),
    ensures
        dims@.contains_key("countries"@) ==> r@.len() == dims@["countries"@].len() && forall|i: int|
            0 <= i < r@.len() ==> (#[trigger] r@[i]).id == (i + 1) as i32 && r@[i].name@
                == dims@["countries"@][i],
        !dims@.contains_key("countries"@) ==> r@.len() == 0,
{
    dimension_rows(dims, "countries")
}

/// The rows of the `categories` table (none when there is no category).
pub fn category_rows(dims: &DimensionStore) -> (r: Vec<NamedId>)
    requires
        dims.wf(),
    ensures
        dims@.contains_key("categories"@) ==> r@.len() == dims@["categories"@].len() && forall|i: int|
            0 <= i < r@.len() ==> (#[trigger] r@[i]).id == (i + 1) as i32 && r@[i].name@
                == dims@["categories"@][i],
        !dims@.contains_key("categories"@) ==> r@.len() == 0,
{
    dimension_rows(dims, "categories")
}

/// The rows of the `status` table.
pub fn status_rows(dims: &DimensionStore) -> (r: Vec<NamedId>)
    requires
        dims.wf(),
    ensures
        dims@.contains_key("status"@) ==> r@.len() == dims@["status"@].len() && forall|i: int|
            0 <= i < r@.len() ==> (#[trigger] r@[i]).id == (i + 1) as i32 && r@[i].name@
                == dims@["status"@][i],
        !dims@.contains_key("status"@) ==> r@.len() == 0,
{
    dimension_rows(dims, "status")
}

/// The city row for the key `city|country` with id `id`: none when the key
/// is not two names joined by `|`, or when the country has no id.
pub open spec fn city_row_of(
    key: Seq<char>,
    id: int,
    countries: Option<Seq<Seq<char>>>,
) -> Option<CityRowView> {
    let parts = split(key, '|');
    if parts.len() != 2 {
        None
    } else {
        match countries {
            Some(cs) => if cs.contains(parts[1]) {
                Some(
                    CityRowView {
                        city_id: id as i32,
                        city_name: parts[0],
                        country_id: id_in(cs, parts[1]) as i32,
                    },
                )
            } else {
                None
            },
            None => None,
        }
    }
}

/// The city rows of the keys of the `cities` dimension, in id order.
pub open spec fn city_rows_spec(cities: Seq<Seq<char>>, countries: Option<Seq<Seq<char>>>) -> Seq<
    CityRowView,
>
    decreases cities.len(),
{
    if cities.len() == 0 {
        Seq::empty()
    } else {
        let rest = city_rows_spec(cities.drop_last(), countries);
        match city_row_of(cities.last(), cities.len() as int, countries) {
            Some(r) => rest.push(r),
            None => rest,
        }
    }
}

/// The rows of the `cities` table: each city key `city|country` with the id
/// of its country; keys that are not of that form, or whose country has no
/// id, give no row.
pub fn city_rows(dims: &DimensionStore) -> (r: Vec<CityRow>)
    requires
        dims.wf(),
    ensures
        r@.map_values(|c: CityRow| c@) == city_rows_spec(
            if dims@.contains_key("cities"@) { dims@["cities"@] } else { Seq::empty() },
            if dims@.contains_key("countries"@) { Some(dims@["countries"@]) } else { None },
        ),
{
    let mut out: Vec<CityRow> = Vec::new();
    let ghost countries = if dims@.contains_key("countries"@) {
        Some(dims@["countries"@])
    } else {
        None
    };
    match dims.get("cities") {
        Some(cities) => {
            let entries = cities.entries();
            for i in 0..entries.len()
                invariant
                    dims.wf(),
                    cities@ == dims@["cities"@],
                    countries == if dims@.contains_key("countries"@) {
                        Some(dims@["countries"@])
                    } else {
                        None
                    },
                    entries@.len() == cities@.len(),
                    forall|k: int| 0 <= k < entries@.len() ==> (#[trigger] entries@[k]).0@ == cities@[k] && entries@[k].1 == k + 1,
                    out@.map_values(|c: CityRow| c@) == city_rows_spec(cities@.take(i as int), countries),
            {
                proof {
                    assert(cities@.take(i + 1).drop_last() == cities@.take(i as int));
                    assert(cities@.take(i + 1).last() == cities@[i as int]);
                }
                let key = &entries[i].0;
                let city_id = entries[i].1;
                let parts = split_text(key.as_str(), '|');
                if parts.len() == 2 {
                    match dims.get("countries") {
                        Some(country_map) => {
                            match country_map.id_of(parts[1].as_str()) {
                                Some(country_id) => {
                                    let ghost before = out@;
                                    out.push(
                                        CityRow {
                                            city_id: city_id as i32,
                                            city_name: parts[0].clone(),
                                            country_id: country_id as i32,
                                        },
                                    );
                                    assert(out@.map_values(|c: CityRow| c@) == before.map_values(
                                        |c: CityRow| c@,
                                    ).push(out@.last()@));
                                },
                                None => {},
                            }
                        },
                        None => {},
                    }
                }
            }
            assert(cities@.take(entries@.len() as int) == cities@);
        },
        None => {},
    }
    out
}

/// The id of the entry at position `j` of a dimension, as a database id.
pub open spec fn row_id(j: int) -> i32 {
    (j + 1) as i32
}

/// The row's country id is the id that [`country_rows`] gives some country.
pub open spec fn references_country(row: CityRowView, countries: Seq<Seq<char>>) -> bool {
    exists|j: int| 0 <= j < countries.len() && row.country_id == #[trigger] row_id(j)
}

/// Every city row points at a country row: its country id is the id
/// `j + 1` that [`country_rows`] gives the country at position `j`.
pub proof fn law_city_rows_reference_countries(cities: Seq<Seq<char>>, countries: Seq<Seq<char>>)
    requires
        countries.no_duplicates(),
    ensures
        forall|k: int|
            0 <= k < city_rows_spec(cities, Some(countries)).len() ==> references_country(
                #[trigger] city_rows_spec(cities, Some(countries))[k],
                countries,
            ),
    decreases cities.len(),
{
    if cities.len() > 0 {
        law_city_rows_reference_countries(cities.drop_last(), countries);
        let rest = city_rows_spec(cities.drop_last(), Some(countries));
        let all = city_rows_spec(cities, Some(countries));
        match city_row_of(cities.last(), cities.len() as int, Some(countries)) {
            Some(r) => {
                let parts = split(cities.last(), '|');
                let j = countries.index_of(parts[1]);
                assert(countries.contains(parts[1]));
                assert(countries[j] == parts[1]);
                assert(r.country_id == row_id(j));
                assert(references_country(r, countries));
                assert forall|k: int| 0 <= k < all.len() implies references_country(#[trigger] all[k], countries) by {
                    if k < rest.len() {
                        assert(all[k] == rest[k]);
                    } else {
                        assert(all[k] == r);
                    }
                }
            },
            None => {
                assert forall|k: int| 0 <= k < all.len() implies references_country(#[trigger] all[k], countries) by {
                    assert(all[k] == rest[k]);
                }
            },
        }
    }
}

// ---------------------------------------------------------------------------
// Rows parsed from the files
// ---------------------------------------------------------------------------

/// The customer a parsed customers row describes: none unless the id (cell
/// 0) and the city id (cell 5) are numbers; names and email are the text of
/// cells 1..=3, empty when not text; the phone is the text of cell 4, if any.
pub fn customer_record(row: &Vec<Value>) -> (r: Option<CustomerRecord>)
    ensures
        match r {
            Some(c) => {
                &&& number_at(row@, 0) matches Some(id) && c.customer_id == id as i32
                &&& number_at(row@, 5) matches Some(city) && c.city_id == city as i32
                &&& c.first_name@ == (match text_at(row@, 1) { Some(s) => s, None => Seq::empty() })
                &&& c.last_name@ == (match text_at(row@, 2) { Some(s) => s, None => Seq::empty() })
                &&& c.email@ == (match text_at(row@, 3) { Some(s) => s, None => Seq::empty() })
                &&& match c.phone {
                    Some(p) => text_at(row@, 4) == Some(p@),
                    None => text_at(row@, 4) is None,
                }
            },
            None => number_at(row@, 0) is None || number_at(row@, 5) is None,
        },
{
    let customer_id = match number_in(row, 0) {
        Some(n) => n as i32,
        None => return None,
    };
    let first_name = match text_in(row, 1) {
        Some(s) => s,
        None => String::new(),
    };
    let last_name = match text_in(row, 2) {
        Some(s) => s,
        None => String::new(),
    };
    let email = match text_in(row, 3) {
        Some(s) => s,
        None => String::new(),
    };
    let phone = text_in(row, 4);
    let city_id = match number_in(row, 5) {
        Some(n) => n as i32,
        None => return None,
    };
    Some(CustomerRecord { customer_id, first_name, last_name, email, phone, city_id })
}

/// The product a parsed products row describes, given the whole numbers
/// the loader read from its cells: none unless a whole number was read from
/// the id (cell 0) and the category id (cell 2) and the row has a name (cell
/// 1, as text); the stock (cell 4) is 0 when none was read there.
pub fn product_record(row: &Vec<Value>, numbers: &Vec<Option<i32>>) -> (r: Option<ProductRecord>)
    ensures
        match r {
            Some(p) => {
                &&& whole_at(numbers@, 0) == Some(p.product_id)
                &&& cell(row@, 1) matches Some(v) && p.product_name@ == value_text(v)
                &&& whole_at(numbers@, 2) == Some(p.category_id)
                &&& p.stock == (match whole_at(numbers@, 4) { Some(n) => n, None => 0 })
            },
            None => whole_at(numbers@, 0) is None || cell(row@, 1) is None || whole_at(numbers@, 2) is None,
        },
{
    let product_id = match whole_in(numbers, 0) {
        Some(n) => n,
        None => return None,
    };
    if row.len() < 2 {
        return None;
    }
    let product_name = row[1].as_string();
    let category_id = match whole_in(numbers, 2) {
        Some(n) => n,
        None => return None,
    };
    let stock = match whole_in(numbers, 4) {
        Some(n) => n,
        None => 0,
    };
    Some(ProductRecord { product_id, product_name, category_id, stock })
}

/// The order a parsed orders row describes: none unless the order id (cell
/// 0), customer id (cell 1) and status id (cell 3) are numbers, the text of
/// cell 2 reads as a `%Y-%m-%d` date, and the customer is known.
pub fn order_record(row: &Vec<Value>, customers: &HashSet<i32>) -> (r: Option<OrderRecord>)
    ensures
        match r {
            Some(o) => {
                &&& number_at(row@, 0) matches Some(id) && o.order_id == id as i32
                &&& number_at(row@, 1) matches Some(c) && o.customer_id == c as i32
                &&& cell(row@, 2) matches Some(v) && date_of(value_text(v)) == Some(o.order_date)
                &&& number_at(row@, 3) matches Some(s) && o.status_id == s as i32
                &&& customers@.contains(o.customer_id)
            },
            None => {
                ||| number_at(row@, 0) is None
                ||| number_at(row@, 1) is None
                ||| cell(row@, 2) is None
                ||| date_of(value_text(cell(row@, 2)->0)) is None
                ||| number_at(row@, 3) is None
                ||| !customers@.contains((number_at(row@, 1)->0) as i32)
            },
        },
{
    let order_id = match number_in(row, 0) {
        Some(n) => n as i32,
        None => return None,
    };
    let customer_id = match number_in(row, 1) {
        Some(n) => n as i32,
        None => return None,
    };
    if row.len() < 3 {
        return None;
    }
    let text = row[2].as_string();
    let order_date = match parse_date(text.as_str()) {
        Some(d) => d,
        None => return None,
    };
    let status_id = match number_in(row, 3) {
        Some(n) => n as i32,
        None => return None,
    };
    if !has_id(customers, customer_id) {
        return None;
    }
    Some(OrderRecord { order_id, customer_id, order_date, status_id })
}

/// The order item a parsed order-items row describes, given the whole
/// numbers the loader read from its cells: none unless whole numbers were
/// read from the order id (cell 0) and product id (cell 1) and both are
/// known; the quantity (cell 2) is 0 when none was read there.
pub fn order_item_record(
    numbers: &Vec<Option<i32>>,
    orders: &HashSet<i32>,
    products: &HashSet<i32>,
) -> (r: Option<OrderItemRecord>)
    ensures
        match r {
            Some(o) => {
                &&& whole_at(numbers@, 0) == Some(o.order_id)
                &&& whole_at(numbers@, 1) == Some(o.product_id)
                &&& o.quantity == (match whole_at(numbers@, 2) { Some(n) => n, None => 0 })
                &&& orders@.contains(o.order_id)
                &&& products@.contains(o.product_id)
            },
            None => {
                ||| whole_at(numbers@, 0) is None
                ||| whole_at(numbers@, 1) is None
                ||| !orders@.contains(whole_at(numbers@, 0)->0)
                ||| !products@.contains(whole_at(numbers@, 1)->0)
            },
        },
{
    let order_id = match whole_in(numbers, 0) {
        Some(n) => n,
        None => return None,
    };
    let product_id = match whole_in(numbers, 1) {
        Some(n) => n,
        None => return None,
    };
    let quantity = match whole_in(numbers, 2) {
        Some(n) => n,
        None => 0,
    };
    if !has_id(orders, order_id) {
        return None;
    }
    if !has_id(products, product_id) {
        return None;
    }
    Some(OrderItemRecord { order_id, product_id, quantity })
}

} // verus!
