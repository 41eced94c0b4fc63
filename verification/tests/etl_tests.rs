use std::collections::HashSet;

use etl_program::config::{detect_dataset, remove_special_chars, DataType, DatasetConfig, DatasetType, Transformation, Value};
use etl_program::controller::orders_details::process_order_items_csv;
use etl_program::database::inserts::{
    category_rows, city_rows, country_rows, customer_record, order_item_record, order_record,
    product_record, status_rows,
};
use etl_program::dates::{format_date, parse_date, CalendarDate};
use etl_program::dim_values::DimensionStore;
use etl_program::decimal_text::float_text;
use etl_program::etl::{finish_load, tally, Delivery, EtlStats, LineOutcome, Rejection};
use etl_program::parser::customers::{lines_locate_cities_check, process_customers_csv, CsvError};
use etl_program::parser::mapping::map_rows;
use etl_program::parser::orders::{collect_statuses, plan_order_line, plan_orders};
use etl_program::parser::orders_details::plan_order_details;
use etl_program::parser::parse::{clean_number, parse_values};
use etl_program::parser::products::{collect_categories, plan_product_line, plan_products};
use etl_program::parser::utils::parse_data;
use etl_program::text::{i32_text, parse_i32, parse_usize, split_text, trim_text, usize_text};
use etl_program::utils::string_to_vec;
use etl_program::validation::{validate_columns, validate_not_empty};
use etl_program::StringHashMap;

fn strings(items: &[&str]) -> Vec<String> {
    items.iter().map(|s| s.to_string()).collect()
}

fn customers_header() -> Vec<String> {
    strings(&["CustomerID", "FirstName", "LastName", "Email", "Phone", "City", "Country"])
}

fn status_map(pairs: &[(&str, i32)]) -> StringHashMap<i32> {
    let mut m = StringHashMap::new();
    for (k, v) in pairs {
        m.insert(k.to_string(), *v);
    }
    m
}

// ---------------------------------------------------------------------------
// Dataset detection and configuration
// ---------------------------------------------------------------------------

#[test]
fn detects_each_known_header() {
    assert_eq!(detect_dataset(&customers_header()), DatasetType::Customers);
    assert_eq!(
        detect_dataset(&strings(&["OrderID", "ProductID", "Quantity", "TotalPrice"])),
        DatasetType::OrderItems
    );
    assert_eq!(
        detect_dataset(&strings(&["OrderID", "CustomerID", "OrderDate", "Status"])),
        DatasetType::Orders
    );
    assert_eq!(
        detect_dataset(&strings(&["ProductID", "ProductName", "Category", "Price", "Stock"])),
        DatasetType::Products
    );
}

#[test]
fn detection_ignores_order_and_repeats() {
    let h = strings(&["Status", "OrderDate", "OrderID", "CustomerID", "Status"]);
    assert_eq!(detect_dataset(&h), DatasetType::Orders);
}

#[test]
fn detection_of_unknown_headers() {
    assert_eq!(detect_dataset(&strings(&["OrderID", "CustomerID", "OrderDate"])), DatasetType::Unknown);
    assert_eq!(detect_dataset(&strings(&[])), DatasetType::Unknown);
    assert_eq!(
        detect_dataset(&strings(&["OrderID", "CustomerID", "OrderDate", "Status", "Extra"])),
        DatasetType::Unknown
    );
    assert_eq!(
        detect_dataset(&strings(&["orderid", "customerid", "orderdate", "status"])),
        DatasetType::Unknown
    );
}

#[test]
fn customer_config_columns() {
    let c = DatasetConfig::customer_config();
    assert_eq!(c.cols.len(), 7);
    let phone = c.cols.get("Phone").unwrap();
    assert_eq!(phone.data_type, DataType::String);
    assert_eq!(phone.length, Some(10));
    assert_eq!(phone.transformation, Some(Transformation::RemoveSpecialChars));
    let id = c.cols.get("CustomerID").unwrap();
    assert_eq!(id.data_type, DataType::Number);
    assert_eq!(id.length, None);
    assert_eq!(c.cols.get("Email").unwrap().length, Some(100));
    assert!(c.cols.get("Status").is_none());
}

#[test]
fn same_structure_checks() {
    let c = DatasetConfig::customer_config();
    assert!(c.has_same_structure(&customers_header()));
    let shuffled = strings(&["Country", "City", "Phone", "Email", "LastName", "FirstName", "CustomerID"]);
    assert!(c.has_same_structure(&shuffled));
    let short = strings(&["CustomerID", "FirstName"]);
    assert!(!c.has_same_structure(&short));
    let wrong = strings(&["CustomerID", "FirstName", "LastName", "Email", "Phone", "City", "Nation"]);
    assert!(!c.has_same_structure(&wrong));
    let repeated = strings(&["CustomerID", "CustomerID", "LastName", "Email", "Phone", "City", "Country"]);
    assert!(c.has_same_structure(&repeated));
}

#[test]
fn phone_rewrite_keeps_digits() {
    assert_eq!(remove_special_chars(&"(555) 123-4567".to_string()), "5551234567");
    assert_eq!(remove_special_chars(&"no digits".to_string()), "");
    assert_eq!(remove_special_chars(&"+1.٣2".to_string()), "12");
}

// ---------------------------------------------------------------------------
// Splitting and mapping
// ---------------------------------------------------------------------------

#[test]
fn string_to_vec_splits_and_drops_line_feeds() {
    let r: Result<Vec<String>, ()> = string_to_vec(Ok("a,b\n,c".to_string()));
    assert_eq!(r.unwrap(), strings(&["a", "b", "c"]));
    let r: Result<Vec<String>, ()> = string_to_vec(Ok("".to_string()));
    assert_eq!(r.unwrap(), strings(&[""]));
    let r: Result<Vec<String>, ()> = string_to_vec(Ok(",,".to_string()));
    assert_eq!(r.unwrap(), strings(&["", "", ""]));
}

#[test]
fn string_to_vec_passes_errors_on() {
    let r: Result<Vec<String>, &str> = string_to_vec(Err("broken"));
    assert_eq!(r, Err("broken"));
}

#[test]
fn fields_rejoin_to_the_line() {
    let line = "1,John, Doe,,x";
    let r: Result<Vec<String>, ()> = string_to_vec(Ok(line.to_string()));
    let fields = r.unwrap();
    assert_eq!(fields.len(), 5);
    assert_eq!(fields.join(","), line);
}

#[test]
fn map_rows_pairs_columns_and_fields() {
    let header = strings(&["A", "B", "C"]);
    let row = strings(&["1", "2"]);
    let m = map_rows(&header, &row);
    assert_eq!(m.get("A"), Some(&"1".to_string()));
    assert_eq!(m.get("B"), Some(&"2".to_string()));
    assert_eq!(m.get("C"), None);
    let dup = strings(&["A", "A"]);
    let m = map_rows(&dup, &strings(&["x", "y", "z"]));
    assert_eq!(m.len(), 1);
    assert_eq!(m.get("A"), Some(&"y".to_string()));
}

// ---------------------------------------------------------------------------
// Dimensions
// ---------------------------------------------------------------------------

#[test]
fn dimension_ids_are_consecutive_and_stable() {
    let mut d = DimensionStore::new();
    assert!(d.get("countries").is_none());
    assert_eq!(d.get_or_create("countries", "AR".to_string()), 1);
    assert_eq!(d.get_or_create("countries", "BR".to_string()), 2);
    assert_eq!(d.get_or_create("countries", "AR".to_string()), 1);
    assert_eq!(d.get_or_create("countries", "CL".to_string()), 3);
    assert_eq!(d.get_or_create("cities", "Rosario|AR".to_string()), 1);
    let countries = d.get("countries").unwrap();
    assert_eq!(countries.len(), 3);
    assert_eq!(countries.id_of("BR"), Some(2));
    assert_eq!(countries.id_of("UY"), None);
    assert_eq!(countries.key_at(3), Some(&"CL".to_string()));
    assert_eq!(countries.key_at(0), None);
    let entries = countries.entries();
    assert_eq!(entries, vec![("AR".to_string(), 1), ("BR".to_string(), 2), ("CL".to_string(), 3)]);
    assert_eq!(d.get("cities").unwrap().len(), 1);
}

#[test]
fn asking_twice_changes_nothing() {
    let mut d = DimensionStore::new();
    let a = d.get_or_create("status", "Shipped".to_string());
    let before = d.get("status").unwrap().entries();
    let b = d.get_or_create("status", "Shipped".to_string());
    assert_eq!(a, b);
    assert_eq!(d.get("status").unwrap().entries(), before);
}

#[test]
fn room_check() {
    let mut d = DimensionStore::new();
    assert!(d.has_room_for(10));
    assert!(!d.has_room_for(usize::MAX));
    d.get_or_create("x", "k".to_string());
    assert!(d.has_room_for(usize::MAX - 2));
    assert!(!d.has_room_for(usize::MAX - 1));
}

// ---------------------------------------------------------------------------
// Row parsing
// ---------------------------------------------------------------------------

#[test]
fn parse_data_reads_a_customer_row() {
    let config = DatasetConfig::customer_config();
    let header = customers_header();
    let mut dims = DimensionStore::new();
    let row = strings(&["7", "Ana", "Diaz", "ana@x.com", "(341) 555-0101", "Rosario", "Argentina"]);
    let map = map_rows(&header, &row);
    let parsed = parse_data(&map, &config, &header, &mut dims);
    assert_eq!(parsed.len(), 7);
    assert!(matches!(parsed[0], Value::Number(7)));
    assert!(matches!(&parsed[1], Value::String(s) if s == "Ana"));
    assert!(matches!(&parsed[4], Value::String(s) if s == "3415550101"));
    assert!(matches!(parsed[5], Value::Number(1)));
    assert!(matches!(parsed[6], Value::Number(1)));
    assert_eq!(dims.get("cities").unwrap().id_of("Rosario|Argentina"), Some(1));
    assert_eq!(dims.get("countries").unwrap().id_of("Argentina"), Some(1));
}

#[test]
fn parse_data_nulls() {
    let config = DatasetConfig::customer_config();
    let header = customers_header();
    let mut dims = DimensionStore::new();
    let long_name = "x".repeat(51);
    let row = vec![
        "seven".to_string(),
        long_name,
        "Diaz".to_string(),
        "e".to_string(),
        "12345678901".to_string(),
    ];
    let map = map_rows(&header, &row);
    let parsed = parse_data(&map, &config, &header, &mut dims);
    assert!(matches!(parsed[0], Value::Null));
    assert!(matches!(parsed[1], Value::Null));
    assert!(matches!(parsed[4], Value::Null));
    assert!(matches!(parsed[5], Value::Number(0)));
    assert!(matches!(parsed[6], Value::Number(0)));
    assert!(dims.get("countries").is_none());
}

#[test]
fn parse_data_length_counts_bytes() {
    let config = DatasetConfig::customer_config();
    let header = customers_header();
    let mut dims = DimensionStore::new();
    // 25 two-byte characters are 50 bytes: accepted; 26 are 52: refused.
    let ok = "é".repeat(25);
    let too_long = "é".repeat(26);
    let row = vec!["1".to_string(), ok.clone(), too_long];
    let map = map_rows(&header, &row);
    let parsed = parse_data(&map, &config, &header, &mut dims);
    assert!(matches!(&parsed[1], Value::String(s) if *s == ok));
    assert!(matches!(parsed[2], Value::Null));
}

#[test]
fn parse_values_cleans_numbers_and_numbers_categories() {
    let mut cols = StringHashMap::new();
    cols.insert(
        "Price".to_string(),
        etl_program::config::Cols { data_type: DataType::Number, length: None, transformation: None },
    );
    cols.insert(
        "ProductName".to_string(),
        etl_program::config::Cols { data_type: DataType::String, length: Some(5), transformation: None },
    );
    let config = DatasetConfig { cols };
    let header = strings(&["ProductName", "Category", "Price", "Other"]);
    let mut dims = DimensionStore::new();
    let map = map_rows(&header, &strings(&["Mouse", "Tech", " $12 ", "z"]));
    let parsed = parse_values(&map, &config, &header, &mut dims);
    assert!(matches!(&parsed[0], Value::String(s) if s == "Mouse"));
    assert!(matches!(parsed[1], Value::Number(1)));
    assert!(matches!(&parsed[2], Value::Decimal(t) if t == "12"));
    assert!(matches!(parsed[3], Value::Null));
    let map = map_rows(&header, &strings(&["Keyboard", "Tech", "1.5"]));
    let parsed = parse_values(&map, &config, &header, &mut dims);
    assert!(matches!(parsed[0], Value::Null));
    assert!(matches!(parsed[1], Value::Number(1)));
    assert!(matches!(&parsed[2], Value::Decimal(t) if t == "1.5"));
    let map = map_rows(&header, &strings(&["Pen", "Office"]));
    let parsed = parse_values(&map, &config, &header, &mut dims);
    assert!(matches!(parsed[1], Value::Number(2)));
    assert!(matches!(parsed[2], Value::Null));
}

#[test]
fn parse_values_keeps_decimal_text() {
    let mut cols = StringHashMap::new();
    cols.insert(
        "CustomerID".to_string(),
        etl_program::config::Cols { data_type: DataType::Number, length: None, transformation: None },
    );
    let config = DatasetConfig { cols };
    let header = strings(&["CustomerID"]);
    let mut dims = DimensionStore::new();
    let map = map_rows(&header, &strings(&[" $1,5 "]));
    let parsed = parse_values(&map, &config, &header, &mut dims);
    assert!(matches!(&parsed[0], Value::Decimal(t) if t == "1.5"));
    assert_eq!(parsed[0].as_string(), "1.5");
    assert!(dims.get("countries").is_none());
}

#[test]
fn parsing_a_row_twice_gives_the_same_cells() {
    let config = DatasetConfig::customer_config();
    let header = customers_header();
    let mut dims = DimensionStore::new();
    let map = map_rows(&header, &strings(&["4", "Ana", "Diaz", "a@x", "555", "Rosario", "AR"]));
    let first = parse_values(&map, &config, &header, &mut dims);
    let ids_after_first = dims.get("cities").unwrap().len();
    let second = parse_values(&map, &config, &header, &mut dims);
    assert_eq!(dims.get("cities").unwrap().len(), ids_after_first);
    assert_eq!(dims.get("countries").unwrap().len(), 1);
    for (a, b) in first.iter().zip(second.iter()) {
        assert_eq!(a.as_string(), b.as_string());
    }
    let again = parse_data(&map, &config, &header, &mut dims);
    assert!(matches!(again[5], Value::Number(1)));
    assert!(matches!(again[6], Value::Number(1)));
}

#[test]
fn customer_structure_matches_detection() {
    let config = DatasetConfig::customer_config();
    let header = customers_header();
    assert!(config.has_same_structure(&header));
    assert_eq!(detect_dataset(&header), DatasetType::Customers);
    let orders = strings(&["OrderID", "CustomerID", "OrderDate", "Status"]);
    assert!(!config.has_same_structure(&orders));
    assert_ne!(detect_dataset(&orders), DatasetType::Customers);
    let reordered = strings(&["Country", "City", "Phone", "Email", "LastName", "FirstName", "CustomerID"]);
    assert!(config.has_same_structure(&reordered));
    assert_eq!(detect_dataset(&reordered), DatasetType::Customers);
}

#[test]
fn requested_dimensions_only() {
    let mut dims = DimensionStore::new();
    assert!(dims.get("countries").is_none());
    let id = dims.get_or_create("countries", "AR".to_string());
    let d = dims.get("countries").unwrap();
    assert_eq!(d.id_of("AR"), Some(id));
    assert!(dims.get("cities").is_none());
    assert!(dims.get("categories").is_none());
}

#[test]
fn float_text_agrees_with_std() {
    let samples = [
        "1", "1.5", ".5", "5.", "-2", "+3.25", "1e5", "1E-3", "2.5e+10", "inf", "-Infinity", "NaN",
        "iNf", "", ".", "e5", "1e", "1e+", "1.2.3", "+-1", "1 2", " 1", "abc", "x", "0x10", "1_000",
        "infin", "nana", "..5", "5..", "1e5.5", "-", "+", "1,5",
    ];
    for t in samples {
        assert_eq!(float_text(t), t.parse::<f64>().is_ok(), "text {:?}", t);
    }
}

#[test]
fn number_cell_that_does_not_read_is_null() {
    let mut cols = StringHashMap::new();
    cols.insert(
        "Price".to_string(),
        etl_program::config::Cols { data_type: DataType::Number, length: None, transformation: None },
    );
    let config = DatasetConfig { cols };
    let header = strings(&["Price"]);
    let mut dims = DimensionStore::new();
    for (raw, kept) in [("abc", None), (" $1,5 ", Some("1.5")), ("2e3", Some("2e3")), ("1.2.3", None), ("", None)] {
        let map = map_rows(&header, &strings(&[raw]));
        let parsed = parse_values(&map, &config, &header, &mut dims);
        match kept {
            Some(k) => assert!(matches!(&parsed[0], Value::Decimal(t) if t == k)),
            None => assert!(matches!(parsed[0], Value::Null)),
        }
    }
}

#[test]
fn load_totals_after_writes() {
    let outcomes = vec![
        LineOutcome::Header,
        LineOutcome::Row("a\n".to_string()),
        LineOutcome::Rejected(Rejection::ColumnCount),
        LineOutcome::Row("b\n".to_string()),
        LineOutcome::Row("c\n".to_string()),
    ];
    let plan = tally(outcomes);
    assert_eq!((plan.stats.processed, plan.stats.rejected), (4, 1));
    let deliveries = vec![
        Delivery::Written,
        Delivery::Unreadable("bad line".to_string()),
        Delivery::Failed(Some("broken pipe".to_string())),
        Delivery::Failed(None),
    ];
    let stats = finish_load(plan, deliveries);
    assert_eq!(stats.processed, 4);
    assert_eq!(stats.inserted, 1);
    assert_eq!(stats.rejected, 4);
    assert_eq!(stats.inserted + stats.rejected, stats.processed + 1);
    assert_eq!(stats.errors, vec!["bad line".to_string(), "broken pipe".to_string()]);
}

#[test]
fn clean_number_text() {
    assert_eq!(clean_number(&" $1,5 ".to_string()), "1.5");
    assert_eq!(clean_number(&"$$42".to_string()), "42");
}

#[test]
fn customers_file_is_read_or_refused() {
    let config = DatasetConfig::customer_config();
    let header = customers_header();
    let mut dims = DimensionStore::new();
    let lines = strings(&["1,Ana,Diaz,a@x,555,Rosario,AR", "2,Bo,Li,b@x,556,Lima,PE", "3,Cy,Ro,c@x,557,Rosario,AR"]);
    assert!(lines_locate_cities_check(&header, &lines));
    let rows = process_customers_csv(&lines, &config, &mut dims, &header).unwrap();
    assert_eq!(rows.len(), 3);
    assert!(matches!(rows[2][5], Value::Number(1)));
    assert!(matches!(rows[1][5], Value::Number(2)));
    assert!(matches!(rows[1][6], Value::Number(2)));
    let wrong = strings(&["CustomerID", "Name"]);
    let mut dims2 = DimensionStore::new();
    let r = process_customers_csv(&lines, &config, &mut dims2, &wrong);
    assert!(matches!(r, Err(CsvError::HeaderMismatch)));
    assert!(dims2.get("countries").is_none());
    assert_eq!(CsvError::HeaderMismatch.message(), "CSV header does not match expected structure");
}

#[test]
fn city_needs_country_check() {
    let header = strings(&["City", "Country"]);
    assert!(lines_locate_cities_check(&header, &strings(&["Lima,PE"])));
    // An empty line has an (empty) city field and no country field.
    assert!(!lines_locate_cities_check(&header, &strings(&["Lima,PE", ""])));
    let header = strings(&["Country", "City"]);
    assert!(lines_locate_cities_check(&header, &strings(&["PE,Lima"])));
    let header = strings(&["City", "X", "Country"]);
    assert!(!lines_locate_cities_check(&header, &strings(&["Lima,1"])));
}

#[test]
fn order_items_file_is_read() {
    let mut cols = StringHashMap::new();
    for name in ["OrderID", "ProductID", "Quantity", "TotalPrice"] {
        cols.insert(
            name.to_string(),
            etl_program::config::Cols { data_type: DataType::Number, length: None, transformation: None },
        );
    }
    let config = DatasetConfig { cols };
    let header = strings(&["OrderID", "ProductID", "Quantity", "TotalPrice"]);
    let mut dims = DimensionStore::new();
    let rows = process_order_items_csv(&strings(&["1,2,3,$40", "x,2,3,4"]), &config, &mut dims, &header).unwrap();
    assert!(matches!(&rows[0][3], Value::Decimal(t) if t == "40"));
    assert!(matches!(rows[1][0], Value::Null));
    let bad = strings(&["OrderID"]);
    assert!(matches!(process_order_items_csv(&strings(&[]), &config, &mut dims, &bad), Err(CsvError::HeaderMismatch)));
}

// ---------------------------------------------------------------------------
// Validation and statistics
// ---------------------------------------------------------------------------

#[test]
fn column_count_validation() {
    assert_eq!(validate_columns(&["a", "b"], 2), Ok(()));
    assert_eq!(
        validate_columns(&["a", "b", "c"], 4),
        Err("Invalid column count: expected 4, got 3".to_string())
    );
    assert_eq!(validate_columns(&[], 0), Ok(()));
}

#[test]
fn empty_field_validation() {
    assert_eq!(validate_not_empty(" x ", "Name"), Ok(()));
    assert_eq!(validate_not_empty(" \t\n", "Name"), Err("Field 'Name' is empty".to_string()));
    assert_eq!(validate_not_empty("", "Email"), Err("Field 'Email' is empty".to_string()));
}

#[test]
fn summary_lines_and_counters() {
    let mut s = EtlStats::default();
    s.processed = 3;
    s.record_write(true);
    s.record_write(false);
    assert_eq!(
        s.summary_lines("orders"),
        strings(&["\n=== ETL Summary: orders ===", "Processed: 3", "Inserted: 1", "Rejected: 1"])
    );
    s.record_error("broken line".to_string());
    assert_eq!(s.rejected, 2);
    assert_eq!(s.errors, strings(&["broken line"]));
    assert_eq!(s.summary_lines("x").last().unwrap(), "Errors: 1");
}

// ---------------------------------------------------------------------------
// Bulk-load plans
// ---------------------------------------------------------------------------

#[test]
fn order_lines() {
    let customers: HashSet<i32> = [5, 6].into_iter().collect();
    let statuses = status_map(&[("Shipped", 3)]);
    let row = |l: &str| plan_order_line(l, &customers, &statuses);
    assert!(matches!(row("OrderID,CustomerID,OrderDate,Status"), LineOutcome::Header));
    assert!(matches!(row("1,5,2024-01-09"), LineOutcome::Rejected(Rejection::ColumnCount)));
    assert!(matches!(row("1,x,2024-01-09,Shipped"), LineOutcome::Rejected(Rejection::InvalidCustomerId)));
    assert!(matches!(row("1,9,2024-01-09,Shipped"), LineOutcome::Rejected(Rejection::UnknownCustomer(9))));
    assert!(matches!(row("1,5,2024-13-09,Shipped"), LineOutcome::Rejected(Rejection::InvalidDate(d)) if d == "2024-13-09"));
    assert!(matches!(row("1,5,2024-01-09, Lost "), LineOutcome::Rejected(Rejection::MissingStatus(s)) if s == "Lost"));
    assert!(matches!(row("1, 5 , 2024-1-9 ,Shipped"), LineOutcome::Row(r) if r == "5,2024-01-09,3\n"));
}

#[test]
fn orders_plan_counts() {
    let customers: HashSet<i32> = [5].into_iter().collect();
    let statuses = status_map(&[("Shipped", 3), ("Pending", 4)]);
    let lines = strings(&[
        "OrderID,CustomerID,OrderDate,Status",
        "1,5,2024-01-09,Shipped",
        "2,7,2024-01-09,Shipped",
        "3,5,2024-02-10,Pending",
        "bad",
    ]);
    let plan = plan_orders(&lines, &customers, &statuses);
    assert_eq!(plan.outcomes.len(), 5);
    assert_eq!(plan.stats.processed, 4);
    assert_eq!(plan.stats.rejected, 2);
    assert_eq!(plan.stats.inserted, 0);
    assert_eq!(collect_statuses(&lines), strings(&["Shipped", "Pending"]));
}

#[test]
fn product_lines_and_plan() {
    let categories = status_map(&[("Tech", 2)]);
    assert!(matches!(plan_product_line("ProductID,ProductName,Category,Price,Stock", &categories), LineOutcome::Header));
    assert!(matches!(plan_product_line("1,Mouse,Tech,10", &categories), LineOutcome::Rejected(Rejection::ColumnCount)));
    assert!(matches!(plan_product_line("1,Mouse,Home,10,3", &categories), LineOutcome::Rejected(Rejection::MissingCategory(c)) if c == "Home"));
    assert!(matches!(plan_product_line("1,Mouse,Tech,10.5,3", &categories), LineOutcome::Row(r) if r == "Mouse,2,10.5,3\n"));
    let lines = strings(&["ProductID,ProductName,Category,Price,Stock", "1,Mouse,Tech,10,3", "2,Pen,Office,1,1", "3,x", "4,Cable,Tech,2,2"]);
    let scan = collect_categories(&lines);
    assert_eq!(scan.names, strings(&["Tech", "Office"]));
    assert_eq!(scan.rejected, 1);
    let plan = plan_products(&lines, &categories, &scan);
    assert_eq!(plan.stats.processed, 4);
    assert_eq!(plan.stats.rejected, 3);
}

#[test]
fn order_detail_lines_and_plan() {
    let orders: HashSet<i32> = [1].into_iter().collect();
    let products: HashSet<i32> = [10].into_iter().collect();
    let lines = strings(&["1,10,2,3", "1, 10 , 2 , 3.50 ", "2,10,1,1", "1,11,1,1", "a,10,1,1", "1,b,1,1", "1,10"]);
    let plan = plan_order_details(&lines, &orders, &products);
    assert!(matches!(plan.outcomes[0], LineOutcome::Header));
    assert!(matches!(&plan.outcomes[1], LineOutcome::Row(r) if r == "1,10,2,3.50\n"));
    assert!(matches!(plan.outcomes[2], LineOutcome::Rejected(Rejection::MissingOrder(2))));
    assert!(matches!(plan.outcomes[3], LineOutcome::Rejected(Rejection::MissingProduct(11))));
    assert!(matches!(plan.outcomes[4], LineOutcome::Rejected(Rejection::InvalidOrderId)));
    assert!(matches!(plan.outcomes[5], LineOutcome::Rejected(Rejection::InvalidProductId)));
    assert!(matches!(plan.outcomes[6], LineOutcome::Rejected(Rejection::ColumnCount)));
    assert_eq!(plan.stats.processed, 6);
    assert_eq!(plan.stats.rejected, 5);
}

// ---------------------------------------------------------------------------
// Insert rows
// ---------------------------------------------------------------------------

#[test]
fn dimension_table_rows() {
    let mut d = DimensionStore::new();
    d.get_or_create("countries", "AR".to_string());
    d.get_or_create("countries", "PE".to_string());
    d.get_or_create("cities", "Rosario|AR".to_string());
    d.get_or_create("cities", "bad key".to_string());
    d.get_or_create("cities", "Lima|PE".to_string());
    d.get_or_create("cities", "Quito|EC".to_string());
    d.get_or_create("cities", "a|b|c".to_string());
    let countries = country_rows(&d);
    assert_eq!(countries.len(), 2);
    assert_eq!((countries[1].id, countries[1].name.as_str()), (2, "PE"));
    let cities = city_rows(&d);
    assert_eq!(cities.len(), 2);
    assert_eq!((cities[0].city_id, cities[0].city_name.as_str(), cities[0].country_id), (1, "Rosario", 1));
    assert_eq!((cities[1].city_id, cities[1].city_name.as_str(), cities[1].country_id), (3, "Lima", 2));
    assert!(category_rows(&d).is_empty());
    assert!(status_rows(&d).is_empty());
}

#[test]
fn cities_without_countries_give_no_rows() {
    let mut d = DimensionStore::new();
    d.get_or_create("cities", "Lima|PE".to_string());
    assert!(city_rows(&d).is_empty());
}

#[test]
fn customer_records() {
    let row = vec![
        Value::Number(4),
        Value::String("Ana".to_string()),
        Value::Null,
        Value::Number(9),
        Value::String("555".to_string()),
        Value::Number(2),
    ];
    let c = customer_record(&row).unwrap();
    assert_eq!(c.customer_id, 4);
    assert_eq!(c.first_name, "Ana");
    assert_eq!(c.last_name, "");
    assert_eq!(c.email, "");
    assert_eq!(c.phone, Some("555".to_string()));
    assert_eq!(c.city_id, 2);
    assert!(customer_record(&row[..5].to_vec()).is_none());
    let mut no_id = row.clone();
    no_id[0] = Value::Null;
    assert!(customer_record(&no_id).is_none());
}

#[test]
fn product_records() {
    let row = vec![
        Value::Decimal("1".to_string()),
        Value::String("Mouse".to_string()),
        Value::Number(3),
        Value::Decimal("12.5".to_string()),
        Value::Null,
    ];
    let numbers = vec![Some(1), None, Some(3), Some(12), None];
    let p = product_record(&row, &numbers).unwrap();
    assert_eq!(p.product_id, 1);
    assert_eq!(p.product_name, "Mouse");
    assert_eq!(p.category_id, 3);
    assert_eq!(p.stock, 0);
    let p = product_record(&row, &vec![Some(1), None, Some(3), None, Some(7)]).unwrap();
    assert_eq!(p.stock, 7);
    assert!(product_record(&vec![Value::Number(1)], &vec![Some(1)]).is_none());
    assert!(product_record(&row, &vec![Some(1), None, None]).is_none());
    assert!(product_record(&row, &vec![None, None, Some(3)]).is_none());
}

#[test]
fn order_records() {
    let customers: HashSet<i32> = [8].into_iter().collect();
    let row = vec![Value::Number(1), Value::Number(8), Value::String("2023-12-31".to_string()), Value::Number(2)];
    let o = order_record(&row, &customers).unwrap();
    assert_eq!((o.order_id, o.customer_id, o.status_id), (1, 8, 2));
    assert_eq!(o.order_date, CalendarDate { year: 2023, month: 12, day: 31 });
    let bad_date = vec![Value::Number(1), Value::Number(8), Value::String("31/12/2023".to_string()), Value::Number(2)];
    assert!(order_record(&bad_date, &customers).is_none());
    let stranger = vec![Value::Number(1), Value::Number(9), Value::String("2023-12-31".to_string()), Value::Number(2)];
    assert!(order_record(&stranger, &customers).is_none());
}

#[test]
fn order_item_records() {
    let orders: HashSet<i32> = [1].into_iter().collect();
    let products: HashSet<i32> = [2].into_iter().collect();
    let r = order_item_record(&vec![Some(1), Some(2), None, Some(30)], &orders, &products).unwrap();
    assert_eq!((r.order_id, r.product_id, r.quantity), (1, 2, 0));
    let r = order_item_record(&vec![Some(1), Some(2), Some(4)], &orders, &products).unwrap();
    assert_eq!(r.quantity, 4);
    assert!(order_item_record(&vec![Some(1), Some(3)], &orders, &products).is_none());
    assert!(order_item_record(&vec![Some(5), Some(2)], &orders, &products).is_none());
    assert!(order_item_record(&vec![None, Some(2)], &orders, &products).is_none());
}

// ---------------------------------------------------------------------------
// Dates and numbers
// ---------------------------------------------------------------------------

#[test]
fn dates_read_and_write() {
    assert_eq!(parse_date("2024-02-29"), Some(CalendarDate { year: 2024, month: 2, day: 29 }));
    assert_eq!(parse_date("2023-02-29"), None);
    assert_eq!(parse_date("hello"), None);
    assert_eq!(format_date(&CalendarDate { year: 2024, month: 2, day: 9 }), "2024-02-09");
    assert_eq!(format_date(&CalendarDate { year: 5, month: 11, day: 30 }), "0005-11-30");
    assert_eq!(format_date(&CalendarDate { year: -5, month: 1, day: 2 }), "-0005-01-02");
    assert_eq!(format_date(&CalendarDate { year: 10000, month: 1, day: 2 }), "+10000-01-02");
}

#[test]
fn dates_match_chrono_formatting() {
    for (y, m, d) in [(2024, 2, 9), (5, 11, 30), (-5, 1, 2), (10000, 1, 2), (999, 12, 31), (-12345, 6, 7)] {
        let nd = chrono::NaiveDate::from_ymd_opt(y, m, d).unwrap();
        assert_eq!(format_date(&CalendarDate { year: y, month: m, day: d }), nd.format("%Y-%m-%d").to_string());
    }
}

#[test]
fn integer_texts() {
    assert_eq!(parse_usize("42"), Some(42));
    assert_eq!(parse_usize("+42"), Some(42));
    assert_eq!(parse_usize("-1"), None);
    assert_eq!(parse_usize(""), None);
    assert_eq!(parse_usize("+"), None);
    assert_eq!(parse_usize(" 4"), None);
    assert_eq!(parse_usize("18446744073709551615"), Some(usize::MAX));
    assert_eq!(parse_usize("18446744073709551616"), None);
    assert_eq!(parse_i32("-2147483648"), Some(i32::MIN));
    assert_eq!(parse_i32("2147483647"), Some(i32::MAX));
    assert_eq!(parse_i32("2147483648"), None);
    assert_eq!(parse_i32("-"), None);
    assert_eq!(parse_i32("+7"), Some(7));
    assert_eq!(usize_text(0), "0");
    assert_eq!(usize_text(1200), "1200");
    assert_eq!(i32_text(i32::MIN), "-2147483648");
    for n in ["0", "7", "-19", "2147483647"] {
        assert_eq!(i32_text(parse_i32(n).unwrap()), n);
        assert_eq!(n.parse::<i32>().ok(), parse_i32(n));
    }
}

#[test]
fn trims_and_splits() {
    assert_eq!(trim_text("\u{3000} a b \t"), "a b");
    assert_eq!(trim_text("   "), "");
    assert_eq!(split_text("a|b|", '|'), strings(&["a", "b", ""]));
    let decimal = usize_text(123456789);
    assert_eq!(parse_usize(&decimal), Some(123456789));
}
