//! Field-level checks on split CSV lines.

use vstd::prelude::*;

use crate::text::{decimal, trim, trim_text, usize_text};

verus! {

/// The message for a line with the wrong number of columns.
pub open spec fn column_count_message(expected: usize, got: usize) -> Seq<char> {
    "Invalid column count: expected "@ + decimal(expected as nat) + ", got "@ + decimal(got as nat)
}

/// The message for an empty field.
pub open spec fn empty_field_message(field: Seq<char>) -> Seq<char> {
    "Field '"@ + field + "' is empty"@
}

/// Accepts `cols` when it has exactly `expected` entries.
pub fn validate_columns(cols: &[&str], expected: usize) -> (r: Result<(), String>)
    ensures
        match r {
            Ok(()) => cols@.len() == expected,
            Err(msg) => cols@.len() != expected && msg@ == column_count_message(expected, cols@.len() as usize),
        },
{
    if cols.len() != expected {
        let mut msg = "Invalid column count: expected ".to_string();
        let e = usize_text(expected);
        msg.append(e.as_str());
        msg.append(", got ");
        let g = usize_text(cols.len());
        msg.append(g.as_str());
        return Err(msg);
    }
    Ok(())
}

/// Accepts `value` when something other than white space is left after trimming.
pub fn validate_not_empty(value: &str, field: &str) -> (r: Result<(), String>)
    ensures
        match r {
            Ok(()) => trim(value@).len() > 0,
            Err(msg) => trim(value@).len() == 0 && msg@ == empty_field_message(field@),
        },
{
    let t = trim_text(value);
    if t.as_str().is_empty() {
        let mut msg = "Field '".to_string();
        msg.append(field);
        msg.append("' is empty");
        return Err(msg);
    }
    Ok(())
}

} // verus!
