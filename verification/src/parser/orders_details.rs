//! The order-details file: the row each line becomes. A line is
//! `OrderID,ProductID,Quantity,TotalPrice`; the row sent to the database is
//! `order_id,product_id,quantity,total`. The first line is the header.

use vstd::prelude::*;
use std::collections::HashSet;

use crate::etl::{tally, LineOutcome, LoadPlan, OutcomeView, Rejection, RejectionView};
use crate::parser::orders::has_id;
use crate::text::{count_char, lemma_split_count, i32_text, parse_i32, parse_i32_spec, push_char, signed_decimal, split, split_text, trim, trim_text};

verus! {

/// What becomes of a line of the order-details file after the header.
pub open spec fn detail_line_spec(line: Seq<char>, orders: Set<i32>, products: Set<i32>) -> OutcomeView {
    let cols = split(line, ',');
    if cols.len() != 4 {
        OutcomeView::Rejected(RejectionView::ColumnCount)
    } else {
        match (parse_i32_spec(trim(cols[0])), parse_i32_spec(trim(cols[1]))) {
            (None, _) => OutcomeView::Rejected(RejectionView::InvalidOrderId),
            (Some(_), None) => OutcomeView::Rejected(RejectionView::InvalidProductId),
            (Some(o), Some(p)) => if !orders.contains(o) {
                OutcomeView::Rejected(RejectionView::MissingOrder(o))
            } else if !products.contains(p) {
                OutcomeView::Rejected(RejectionView::MissingProduct(p))
            } else {
                OutcomeView::Row(
                    signed_decimal(o as int) + seq![','] + signed_decimal(p as int) + seq![',']
                        + trim(cols[2]) + seq![','] + trim(cols[3]) + seq!['\n'],
                )
            },
        }
    }
}

/// The outcome of a line of the order-details file after the header, given
/// the known order and product ids.
pub fn plan_detail_line(line: &str, orders: &HashSet<i32>, products: &HashSet<i32>) -> (r: LineOutcome)
    ensures
        r@ == detail_line_spec(line@, orders@, products@),
{
    let cols = split_text(line, ',');
    if cols.len() != 4 {
        return LineOutcome::Rejected(Rejection::ColumnCount);
    }
    let o = trim_text(cols[0].as_str());
    let order_id = match parse_i32(o.as_str()) {
        Some(v) => v,
        None => {
            return LineOutcome::Rejected(Rejection::InvalidOrderId);
        },
    };
    let p = trim_text(cols[1].as_str());
    let product_id = match parse_i32(p.as_str()) {
        Some(v) => v,
        None => {
            return LineOutcome::Rejected(Rejection::InvalidProductId);
        },
    };
    if !has_id(orders, order_id) {
        return LineOutcome::Rejected(Rejection::MissingOrder(order_id));
    }
    if !has_id(products, product_id) {
        return LineOutcome::Rejected(Rejection::MissingProduct(product_id));
    }
    let mut row = i32_text(order_id);
    push_char(&mut row, ',');
    let pt = i32_text(product_id);
    row.append(pt.as_str());
    push_char(&mut row, ',');
    let q = trim_text(cols[2].as_str());
    row.append(q.as_str());
    push_char(&mut row, ',');
    let t = trim_text(cols[3].as_str());
    row.append(t.as_str());
    push_char(&mut row, '\n');
    assert(row@ =~= signed_decimal(order_id as int) + seq![','] + signed_decimal(product_id as int)
        + seq![','] + trim(cols@[2]@) + seq![','] + trim(cols@[3]@) + seq!['\n']);
    LineOutcome::Row(row)
}

/// The outcome of every line of the order-details file: the first line is
/// the header, every other one is read by [`plan_detail_line`].
pub fn plan_order_details(
    lines: &Vec<String>,
    orders: &HashSet<i32>,
    products: &HashSet<i32>,
) -> (plan: LoadPlan)
    ensures
        plan.outcomes@.len() == lines@.len(),
        lines@.len() > 0 ==> plan.outcomes@[0]@ == OutcomeView::Header,
        forall|i: int| 1 <= i < lines@.len() ==> (#[trigger] plan.outcomes@[i])@ == detail_line_spec(
            lines@[i]@,
            orders@,
            products@,
        ),
        plan.stats.processed == crate::etl::count_processed(plan.outcomes@.map_values(|o: LineOutcome| o@)),
        plan.stats.rejected == crate::etl::count_rejected(plan.outcomes@.map_values(|o: LineOutcome| o@)),
        plan.stats.inserted == 0,
        plan.stats.errors@.len() == 0,
{
    let mut outcomes: Vec<LineOutcome> = Vec::new();
    for i in 0..lines.len()
        invariant
            outcomes@.len() == i,
            i > 0 ==> outcomes@[0]@ == OutcomeView::Header,
            forall|k: int| 1 <= k < i ==> (#[trigger] outcomes@[k])@ == detail_line_spec(
                lines@[k]@,
                orders@,
                products@,
            ),
    {
        if i == 0 {
            outcomes.push(LineOutcome::Header);
        } else {
            outcomes.push(plan_detail_line(lines[i].as_str(), orders, products));
        }
    }
    let plan = tally(outcomes);
    assert(plan.outcomes@.map_values(|o: LineOutcome| o@) == outcomes@.map_values(|o: LineOutcome| o@));
    plan
}

/// A line of the order-details file gives a row only when it has exactly
/// four fields, that is three commas; with any other number of commas it is
/// rejected for its column count.
pub proof fn law_detail_line_columns(line: Seq<char>, orders: Set<i32>, products: Set<i32>)
    ensures
        count_char(line, ',') != 3 ==> detail_line_spec(line, orders, products) == OutcomeView::Rejected(
            RejectionView::ColumnCount,
        ),
        detail_line_spec(line, orders, products) is Row ==> count_char(line, ',') == 3,
{
    lemma_split_count(line, ',');
}

} // verus!
