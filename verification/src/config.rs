//! Dataset kinds, column configuration and header checks.

use vstd::prelude::*;
use vstd::hash_map::StringHashMap;

use crate::text::{digits_of, keep_digits};

verus! {

/// The kinds of CSV file the ETL knows, told apart by their header.
#[derive(Debug, Clone, Copy, PartialEq, Eq, Structural)]
pub enum DatasetType {
    Customers,
    OrderItems,
    Orders,
    Products,
    Unknown,
}

/// How a column's text is read.
#[derive(Debug, Clone, Copy, PartialEq, Eq, Structural)]
pub enum DataType {
    Number,
    String,
}

/// A parsed cell.
#[derive(Debug, Clone)]
pub enum Value {
    Number(usize),
    /// A number of the price-bearing files, kept as its cleaned text (see
    /// [`crate::parser::parse::cleaned_number`]), which reads as a
    /// floating-point number ([`crate::decimal_text::is_float_text`]); the
    /// loader does the reading.
    Decimal(String),
    String(String),
    Null,
}

/// The mathematical content of a [`Value`].
pub enum ValueView {
    Number(usize),
    Decimal(Seq<char>),
    Text(Seq<char>),
    Null,
}

impl View for Value {
    type V = ValueView;

    open spec fn view(&self) -> ValueView {
        match self {
            Value::Number(n) => ValueView::Number(*n),
            Value::Decimal(s) => ValueView::Decimal(s@),
            Value::String(s) => ValueView::Text(s@),
            Value::Null => ValueView::Null,
        }
    }
}

/// The text of a value: the decimal notation of a number, the kept text of
/// a decimal, the text itself, or nothing for null.
pub open spec fn value_text(v: ValueView) -> Seq<char> {
    match v {
        ValueView::Number(n) => crate::text::decimal(n as nat),
        ValueView::Decimal(s) => s,
        ValueView::Text(s) => s,
        ValueView::Null => Seq::empty(),
    }
}

impl Value {
    /// The value as text: the decimal notation of a number, the kept text of
    /// a decimal, the text itself, or the empty text for null.
    pub fn as_string(&self) -> (r: String)
        ensures
            r@ == value_text(self@),
    {
        match self {
            Value::Number(n) => crate::text::usize_text(*n),
            Value::Decimal(s) => s.clone(),
            Value::String(s) => s.clone(),
            Value::Null => String::new(),
        }
    }
}

/// A rewrite applied to a column's raw text before it is read.
#[derive(Debug, Clone, Copy, PartialEq, Eq, Structural)]
pub enum Transformation {
    /// Keep only the ASCII digits ([`remove_special_chars`]).
    RemoveSpecialChars,
}

/// The configuration of one column.
#[derive(Debug, Clone, Copy, PartialEq, Eq, Structural)]
pub struct Cols {
    pub data_type: DataType,
    /// Longest accepted text, in UTF-8 bytes.
    pub length: Option<usize>,
    pub transformation: Option<Transformation>,
}

/// Column configurations by column name.
pub struct DatasetConfig {
    pub cols: StringHashMap<Cols>,
}

/// The text that a transformation makes of `s`.
pub open spec fn transformed(t: Option<Transformation>, s: Seq<char>) -> Seq<char> {
    match t {
        Some(Transformation::RemoveSpecialChars) => digits_of(s),
        None => s,
    }
}

/// A column read as a number, with no length limit and no rewrite.
pub open spec fn number_col() -> Cols {
    Cols { data_type: DataType::Number, length: None, transformation: None }
}

/// A column read as text of at most `len` bytes, with rewrite `t`.
pub open spec fn text_col(len: usize, t: Option<Transformation>) -> Cols {
    Cols { data_type: DataType::String, length: Some(len), transformation: t }
}

/// The columns of the customers file.
pub open spec fn customer_columns() -> Map<Seq<char>, Cols> {
    map![
        "CustomerID"@ => number_col(),
        "FirstName"@ => text_col(50, None),
        "LastName"@ => text_col(50, None),
        "Email"@ => text_col(100, None),
        "Phone"@ => text_col(10, Some(Transformation::RemoveSpecialChars)),
        "City"@ => text_col(50, None),
        "Country"@ => text_col(50, None),
    ]
}

/// The set of names in a header.
pub open spec fn header_names(header: Seq<String>) -> Set<Seq<char>> {
    Set::new(|n: Seq<char>| exists|i: int| 0 <= i < header.len() && (#[trigger] header[i])@ == n)
}

/// The set of names in a list of literals.
pub open spec fn str_names(names: Seq<&str>) -> Set<Seq<char>> {
    Set::new(|n: Seq<char>| exists|i: int| 0 <= i < names.len() && (#[trigger] names[i])@ == n)
}

/// The header of the customers file.
pub open spec fn customers_header() -> Set<Seq<char>> {
    set![
        "CustomerID"@,
        "FirstName"@,
        "LastName"@,
        "Email"@,
        "Phone"@,
        "City"@,
        "Country"@,
    ]
}

/// The header of the order-items file.
pub open spec fn order_items_header() -> Set<Seq<char>> {
    set!["OrderID"@, "ProductID"@, "Quantity"@, "TotalPrice"@]
}

/// The header of the orders file.
pub open spec fn orders_header() -> Set<Seq<char>> {
    set!["OrderID"@, "CustomerID"@, "OrderDate"@, "Status"@]
}

/// The header of the products file.
pub open spec fn products_header() -> Set<Seq<char>> {
    set!["ProductID"@, "ProductName"@, "Category"@, "Price"@, "Stock"@]
}

/// The dataset that a header describes: the first known header whose name
/// set equals the header's, order and repetition aside.
pub open spec fn dataset_of(header: Seq<String>) -> DatasetType {
    let names = header_names(header);
    if names == customers_header() {
        DatasetType::Customers
    } else if names == order_items_header() {
        DatasetType::OrderItems
    } else if names == orders_header() {
        DatasetType::Orders
    } else if names == products_header() {
        DatasetType::Products
    } else {
        DatasetType::Unknown
    }
}

impl DatasetConfig {
    /// The configuration of the customers file.
    pub fn customer_config() -> (config: DatasetConfig)
        ensures
            config.cols@ == customer_columns(),
    {
        let mut cols: StringHashMap<Cols> = StringHashMap::new();
        cols.insert(
            "CustomerID".to_string(),
            Cols { data_type: DataType::Number, length: None, transformation: None },
        );
        cols.insert(
            "FirstName".to_string(),
            Cols { data_type: DataType::String, length: Some(50), transformation: None },
        );
        cols.insert(
            "LastName".to_string(),
            Cols { data_type: DataType::String, length: Some(50), transformation: None },
        );
        cols.insert(
            "Email".to_string(),
            Cols { data_type: DataType::String, length: Some(100), transformation: None },
        );
        cols.insert(
            "Phone".to_string(),
            Cols {
                data_type: DataType::String,
                length: Some(10),
                transformation: Some(Transformation::RemoveSpecialChars),
            },
        );
        cols.insert(
            "City".to_string(),
            Cols { data_type: DataType::String, length: Some(50), transformation: None },
        );
        cols.insert(
            "Country".to_string(),
            Cols { data_type: DataType::String, length: Some(50), transformation: None },
        );
        DatasetConfig { cols }
    }

    /// Whether `header` has exactly as many columns as the configuration and
    /// every one of them is configured.
    pub fn has_same_structure(&self, header: &Vec<String>) -> (r: bool)
        ensures
            r == (self.cols@.len() == header@.len() && forall|i: int|
                0 <= i < header@.len() ==> self.cols@.contains_key(#[trigger] header@[i]@)),
    {
        broadcast use vstd::hash_map::group_hash_map_axioms;

        let mut is_valid = true;
        if self.cols.len() != header.len() {
            is_valid = false;
        }
        for i in 0..header.len()
            invariant
                is_valid == (self.cols@.len() == header@.len() && forall|k: int|
                    0 <= k < i ==> self.cols@.contains_key(#[trigger] header@[k]@)),
        {
            if !self.cols.contains_key(header[i].as_str()) {
                return false;
            }
        }
        is_valid
    }
}

/// Keeps only the ASCII digits of `value` (the phone-number rewrite).
pub fn remove_special_chars(value: &String) -> (r: String)
    ensures
        r@ == digits_of(value@),
{
    keep_digits(value.as_str())
}

/// Applies a column's rewrite to its raw text.
pub fn apply_transformation(t: Option<Transformation>, value: &String) -> (r: String)
    ensures
        r@ == transformed(t, value@),
{
    match t {
        Some(Transformation::RemoveSpecialChars) => remove_special_chars(value),
        None => value.clone(),
    }
}

/// Whether some entry of `names` is `name`.
fn names_contain(names: &Vec<&str>, name: &str) -> (r: bool)
    ensures
        r == str_names(names@).contains(name@),
{
    for i in 0..names.len()
        invariant
            forall|k: int| 0 <= k < i ==> (#[trigger] names@[k])@ != name@,
    {
        if crate::text::same_text(names[i], name) {
            assert(str_names(names@).contains(name@));
            return true;
        }
    }
    false
}

/// Whether some column of `header` is named `name`.
fn header_contains(header: &Vec<String>, name: &str) -> (r: bool)
    ensures
        r == header_names(header@).contains(name@),
{
    for i in 0..header.len()
        invariant
            forall|k: int| 0 <= k < i ==> (#[trigger] header@[k])@ != name@,
    {
        if crate::text::same_text(header[i].as_str(), name) {
            assert(header_names(header@).contains(name@));
            return true;
        }
    }
    false
}

/// Whether the header's name set is exactly the set of `names`.
fn same_name_set(header: &Vec<String>, names: &Vec<&str>) -> (r: bool)
    ensures
        r == (header_names(header@) == str_names(names@)),
{
    for i in 0..header.len()
        invariant
            forall|k: int| 0 <= k < i ==> str_names(names@).contains(#[trigger] header@[k]@),
    {
        if !names_contain(names, header[i].as_str()) {
            assert(!str_names(names@).contains(header@[i as int]@));
            assert(header_names(header@).contains(header@[i as int]@));
            return false;
        }
    }
    for j in 0..names.len()
        invariant
            forall|k: int| 0 <= k < header@.len() ==> str_names(names@).contains(#[trigger] header@[k]@),
            forall|k: int| 0 <= k < j ==> header_names(header@).contains(#[trigger] names@[k]@),
    {
        if !header_contains(header, names[j]) {
            assert(str_names(names@).contains(names@[j as int]@));
            return false;
        }
    }
    assert(header_names(header@) =~= str_names(names@));
    true
}

/// Tells which dataset a header describes.
pub fn detect_dataset(header: &Vec<String>) -> (r: DatasetType)
    ensures
        r == dataset_of(header@),
{
    let customers: Vec<&str> = vec![
        "CustomerID",
        "FirstName",
        "LastName",
        "Email",
        "Phone",
        "City",
        "Country",
    ];
    let order_items: Vec<&str> = vec!["OrderID", "ProductID", "Quantity", "TotalPrice"];
    let orders: Vec<&str> = vec!["OrderID", "CustomerID", "OrderDate", "Status"];
    let products: Vec<&str> = vec!["ProductID", "ProductName", "Category", "Price", "Stock"];
    assert(str_names(customers@) =~= customers_header()) by {
        assert forall|n: Seq<char>| customers_header().contains(n) implies str_names(
            customers@,
        ).contains(n) by {
            if n == "CustomerID"@ { assert(customers@[0]@ == n); }
            else if n == "FirstName"@ { assert(customers@[1]@ == n); }
            else if n == "LastName"@ { assert(customers@[2]@ == n); }
            else if n == "Email"@ { assert(customers@[3]@ == n); }
            else if n == "Phone"@ { assert(customers@[4]@ == n); }
            else if n == "City"@ { assert(customers@[5]@ == n); }
            else { assert(customers@[6]@ == n); }
        }
    }
    assert(str_names(order_items@) =~= order_items_header()) by {
        assert forall|n: Seq<char>| order_items_header().contains(n) implies str_names(
            order_items@,
        ).contains(n) by {
            if n == "OrderID"@ { assert(order_items@[0]@ == n); }
            else if n == "ProductID"@ { assert(order_items@[1]@ == n); }
            else if n == "Quantity"@ { assert(order_items@[2]@ == n); }
            else { assert(order_items@[3]@ == n); }
        }
    }
    assert(str_names(orders@) =~= orders_header()) by {
        assert forall|n: Seq<char>| orders_header().contains(n) implies str_names(
            orders@,
        ).contains(n) by {
            if n == "OrderID"@ { assert(orders@[0]@ == n); }
            else if n == "CustomerID"@ { assert(orders@[1]@ == n); }
            else if n == "OrderDate"@ { assert(orders@[2]@ == n); }
            else { assert(orders@[3]@ == n); }
        }
    }
    assert(str_names(products@) =~= products_header()) by {
        assert forall|n: Seq<char>| products_header().contains(n) implies str_names(
            products@,
        ).contains(n) by {
            if n == "ProductID"@ { assert(products@[0]@ == n); }
            else if n == "ProductName"@ { assert(products@[1]@ == n); }
            else if n == "Category"@ { assert(products@[2]@ == n); }
            else if n == "Price"@ { assert(products@[3]@ == n); }
            else { assert(products@[4]@ == n); }
        }
    }
    if same_name_set(header, &customers) {
        DatasetType::Customers
    } else if same_name_set(header, &order_items) {
        DatasetType::OrderItems
    } else if same_name_set(header, &orders) {
        DatasetType::Orders
    } else if same_name_set(header, &products) {
        DatasetType::Products
    } else {
        DatasetType::Unknown
    }
}

/// The dataset depends on the set of column names alone: reordering or
/// repeating columns does not change it.
pub proof fn law_dataset_depends_on_names(h1: Seq<String>, h2: Seq<String>)
    requires
        header_names(h1) == header_names(h2),
    ensures
        dataset_of(h1) == dataset_of(h2),
{
}

/// On a header without repeated names, the customers configuration has the
/// header's structure exactly when the header is recognised as the customers
/// file.
pub proof fn law_customer_structure(header: Seq<String>)
    requires
        header.map_values(|s: String| s@).no_duplicates(),
    ensures
        (customer_columns().len() == header.len() && forall|i: int|
            0 <= i < header.len() ==> customer_columns().contains_key(#[trigger] header[i]@))
            == (dataset_of(header) == DatasetType::Customers),
{
    broadcast use vstd::set::group_set_axioms;
    let v = header.map_values(|s: String| s@);
    let dom = customer_columns().dom();
    assert(dom =~= customers_header());
    assert(header_names(header) =~= v.to_set()) by {
        assert forall|n: Seq<char>| header_names(header).contains(n) implies v.to_set().contains(n) by {
            let i = choose|i: int| 0 <= i < header.len() && (#[trigger] header[i])@ == n;
            assert(v[i] == n);
        }
        assert forall|n: Seq<char>| v.to_set().contains(n) implies header_names(header).contains(n) by {
            let i = choose|i: int| 0 <= i < v.len() && v[i] == n;
            assert(header[i]@ == n);
        }
    }
    v.unique_seq_to_set();
    vstd::seq_lib::seq_to_set_is_finite(v);
    let structure = customer_columns().len() == header.len() && forall|i: int|
        0 <= i < header.len() ==> customer_columns().contains_key(#[trigger] header[i]@);
    if structure {
        assert(header_names(header).subset_of(dom)) by {
            assert forall|n: Seq<char>| header_names(header).contains(n) implies dom.contains(n) by {
                let i = choose|i: int| 0 <= i < header.len() && (#[trigger] header[i])@ == n;
                assert(customer_columns().contains_key(header[i]@));
            }
        }
        vstd::set_lib::lemma_subset_equality(header_names(header), dom);
    }
    if dataset_of(header) == DatasetType::Customers {
        assert(header_names(header) == customers_header());
        assert forall|i: int| 0 <= i < header.len() implies customer_columns().contains_key(#[trigger] header[i]@) by {
            assert(header_names(header).contains(header[i]@));
        }
    }
}

/// Two names differ when their lengths or their first characters do.
proof fn lemma_names_differ(a: Seq<char>, b: Seq<char>)
    requires
        a.len() != b.len() || (a.len() > 0 && b.len() > 0 && a[0] != b[0]),
    ensures
        a != b,
{
}

/// Each of the four known headers is recognised as its own dataset.
pub proof fn law_known_headers(header: Seq<String>)
    ensures
        header_names(header) == customers_header() ==> dataset_of(header) == DatasetType::Customers,
        header_names(header) == order_items_header() ==> dataset_of(header) == DatasetType::OrderItems,
        header_names(header) == orders_header() ==> dataset_of(header) == DatasetType::Orders,
        header_names(header) == products_header() ==> dataset_of(header) == DatasetType::Products,
{
    reveal_strlit("CustomerID");
    reveal_strlit("FirstName");
    reveal_strlit("LastName");
    reveal_strlit("Email");
    reveal_strlit("Phone");
    reveal_strlit("City");
    reveal_strlit("Country");
    reveal_strlit("OrderID");
    reveal_strlit("ProductID");
    reveal_strlit("Quantity");
    reveal_strlit("TotalPrice");
    reveal_strlit("OrderDate");
    reveal_strlit("Status");
    reveal_strlit("ProductName");
    reveal_strlit("Category");
    reveal_strlit("Price");
    reveal_strlit("Stock");
    lemma_names_differ("OrderID"@, "CustomerID"@);
    lemma_names_differ("ProductID"@, "CustomerID"@);
    lemma_names_differ("OrderID"@, "FirstName"@);
    lemma_names_differ("ProductID"@, "FirstName"@);
    lemma_names_differ("OrderID"@, "LastName"@);
    lemma_names_differ("ProductID"@, "LastName"@);
    lemma_names_differ("OrderID"@, "Email"@);
    lemma_names_differ("ProductID"@, "Email"@);
    lemma_names_differ("OrderID"@, "Phone"@);
    lemma_names_differ("ProductID"@, "Phone"@);
    lemma_names_differ("OrderID"@, "City"@);
    lemma_names_differ("ProductID"@, "City"@);
    lemma_names_differ("OrderID"@, "Country"@);
    lemma_names_differ("ProductID"@, "Country"@);
    lemma_names_differ("CustomerID"@, "OrderID"@);
    lemma_names_differ("CustomerID"@, "ProductID"@);
    lemma_names_differ("CustomerID"@, "Quantity"@);
    lemma_names_differ("CustomerID"@, "TotalPrice"@);
    lemma_names_differ("ProductName"@, "OrderID"@);
    lemma_names_differ("ProductName"@, "ProductID"@);
    lemma_names_differ("ProductName"@, "Quantity"@);
    lemma_names_differ("ProductName"@, "TotalPrice"@);
    lemma_names_differ("ProductID"@, "OrderID"@);
    lemma_names_differ("ProductID"@, "CustomerID"@);
    lemma_names_differ("ProductID"@, "OrderDate"@);
    lemma_names_differ("ProductID"@, "Status"@);
    lemma_names_differ("FirstName"@, "OrderID"@);
    lemma_names_differ("FirstName"@, "CustomerID"@);
    lemma_names_differ("FirstName"@, "OrderDate"@);
    lemma_names_differ("FirstName"@, "Status"@);
    lemma_names_differ("OrderID"@, "ProductID"@);
    lemma_names_differ("CustomerID"@, "ProductID"@);
    lemma_names_differ("OrderID"@, "ProductName"@);
    lemma_names_differ("CustomerID"@, "ProductName"@);
    lemma_names_differ("OrderID"@, "Category"@);
    lemma_names_differ("CustomerID"@, "Category"@);
    lemma_names_differ("OrderID"@, "Price"@);
    lemma_names_differ("CustomerID"@, "Price"@);
    lemma_names_differ("OrderID"@, "Stock"@);
    lemma_names_differ("CustomerID"@, "Stock"@);
    lemma_names_differ("Status"@, "OrderID"@);
    lemma_names_differ("Status"@, "ProductID"@);
    lemma_names_differ("Status"@, "Quantity"@);
    lemma_names_differ("Status"@, "TotalPrice"@);
    assert(!customers_header().contains("OrderID"@));
    assert(!customers_header().contains("ProductID"@));
    assert(!order_items_header().contains("CustomerID"@));
    assert(!order_items_header().contains("ProductName"@));
    assert(!orders_header().contains("ProductID"@));
    assert(!orders_header().contains("FirstName"@));
    assert(!products_header().contains("OrderID"@));
    assert(!products_header().contains("CustomerID"@));
    assert(!order_items_header().contains("Status"@));
    assert(customers_header() != order_items_header());
    assert(customers_header() != orders_header());
    assert(customers_header() != products_header());
    assert(order_items_header() != orders_header());
    assert(order_items_header() != products_header());
    assert(orders_header() != products_header());
}

} // verus!
