//! The orders file: the statuses it names, and the row each line becomes.
//! A line is `OrderID,CustomerID,OrderDate,Status`; the row sent to the
//! database is `customer_id,date,status_id`.

use vstd::prelude::*;
use vstd::hash_map::StringHashMap;
use std::collections::HashSet;

use crate::dates::{date_of, format_date, iso_date, parse_date};
use crate::etl::{tally, LineOutcome, LoadPlan, OutcomeView, Rejection, RejectionView};
use crate::text::{
    i32_text, parse_i32, parse_i32_spec, push_char, same_text, signed_decimal,
    split, split_text, starts_with_text, trim, trim_text, count_char, is_trimmed, lemma_split_count,
    law_trim_is_trimmed,
};

verus! {

/// Whether `id` is in the set.
pub fn has_id(set: &HashSet<i32>, id: i32) -> (r: bool)
    ensures
        r == set@.contains(id),
{
    broadcast use vstd::std_specs::hash::group_hash_axioms;

    set.contains(&id)
}

/// What becomes of one line of the orders file.
pub open spec fn order_line_spec(
    line: Seq<char>,
    customers: Set<i32>,
    statuses: Map<Seq<char>, i32>,
) -> OutcomeView {
    let cols = split(line, ',');
    if "OrderID"@.is_prefix_of(line) {
        OutcomeView::Header
    } else if cols.len() != 4 {
        OutcomeView::Rejected(RejectionView::ColumnCount)
    } else {
        match parse_i32_spec(trim(cols[1])) {
            None => OutcomeView::Rejected(RejectionView::InvalidCustomerId),
            Some(c) => if !customers.contains(c) {
                OutcomeView::Rejected(RejectionView::UnknownCustomer(c))
            } else {
                match date_of(trim(cols[2])) {
                    None => OutcomeView::Rejected(RejectionView::InvalidDate(trim(cols[2]))),
                    Some(d) => {
                        let s = trim(cols[3]);
                        if !statuses.contains_key(s) {
                            OutcomeView::Rejected(RejectionView::MissingStatus(s))
                        } else {
                            OutcomeView::Row(
                                signed_decimal(c as int) + seq![','] + iso_date(d) + seq![',']
                                    + signed_decimal(statuses[s] as int) + seq!['\n'],
                            )
                        }
                    },
                }
            },
        }
    }
}

/// The outcome of one line of the orders file, given the known customer ids
/// and the status ids by name.
pub fn plan_order_line(
    line: &str,
    customers: &HashSet<i32>,
    statuses: &StringHashMap<i32>,
) -> (r: LineOutcome)
    ensures
        r@ == order_line_spec(line@, customers@, statuses@),
{
    if starts_with_text(line, "OrderID") {
        return LineOutcome::Header;
    }
    let cols = split_text(line, ',');
    if cols.len() != 4 {
        return LineOutcome::Rejected(Rejection::ColumnCount);
    }
    let customer_text = trim_text(cols[1].as_str());
    let customer_id = match parse_i32(customer_text.as_str()) {
        Some(v) => {
            if !has_id(customers, v) {
                return LineOutcome::Rejected(Rejection::UnknownCustomer(v));
            }
            v
        },
        None => {
            return LineOutcome::Rejected(Rejection::InvalidCustomerId);
        },
    };
    let raw_date = trim_text(cols[2].as_str());
    let order_date = match parse_date(raw_date.as_str()) {
        Some(d) => format_date(&d),
        None => {
            return LineOutcome::Rejected(Rejection::InvalidDate(raw_date));
        },
    };
    let status_name = trim_text(cols[3].as_str());
    let status_id = match statuses.get(status_name.as_str()) {
        Some(id) => *id,
        None => {
            return LineOutcome::Rejected(Rejection::MissingStatus(status_name));
        },
    };
    let mut row = i32_text(customer_id);
    push_char(&mut row, ',');
    row.append(order_date.as_str());
    push_char(&mut row, ',');
    let s = i32_text(status_id);
    row.append(s.as_str());
    push_char(&mut row, '\n');
    assert(row@ =~= signed_decimal(customer_id as int) + seq![','] + order_date@ + seq![',']
        + signed_decimal(status_id as int) + seq!['\n']);
    LineOutcome::Row(row)
}

/// The status named by a line of the orders file, when it is a data line
/// with four columns.
pub open spec fn status_of_line(line: Seq<char>) -> Option<Seq<char>> {
    let cols = split(line, ',');
    if "OrderID"@.is_prefix_of(line) || cols.len() != 4 {
        None
    } else {
        Some(trim(cols[3]))
    }
}

/// The statuses named by the lines, in order, repeats included.
pub open spec fn status_mentions(lines: Seq<String>) -> Seq<Seq<char>>
    decreases lines.len(),
{
    if lines.len() == 0 {
        Seq::empty()
    } else {
        let rest = status_mentions(lines.drop_last());
        match status_of_line(lines.last()@) {
            Some(s) => rest.push(s),
            None => rest,
        }
    }
}

/// The distinct elements of `s`, in the order of their first occurrence.
pub open spec fn distinct(s: Seq<Seq<char>>) -> Seq<Seq<char>>
    decreases s.len(),
{
    if s.len() == 0 {
        s
    } else {
        let rest = distinct(s.drop_last());
        if rest.contains(s.last()) {
            rest
        } else {
            rest.push(s.last())
        }
    }
}

/// `distinct` keeps every element once and nothing else.
pub proof fn law_distinct(s: Seq<Seq<char>>)
    ensures
        distinct(s).no_duplicates(),
        forall|x: Seq<char>| distinct(s).contains(x) <==> s.contains(x),
    decreases s.len(),
{
    if s.len() > 0 {
        let rest = distinct(s.drop_last());
        law_distinct(s.drop_last());
        assert forall|x: Seq<char>| distinct(s).contains(x) <==> s.contains(x) by {
            if s.contains(x) && x != s.last() {
                let i = choose|i: int| 0 <= i < s.len() && s[i] == x;
                assert(s.drop_last()[i] == x);
                assert(s.drop_last().contains(x));
                assert(rest.contains(x));
                let k = choose|k: int| 0 <= k < rest.len() && rest[k] == x;
                assert(distinct(s)[k] == x);
            }
            if distinct(s).contains(x) && x != s.last() {
                let i = choose|i: int| 0 <= i < distinct(s).len() && distinct(s)[i] == x;
                if !rest.contains(s.last()) {
                    assert(i < rest.len());
                    assert(rest[i] == x);
                }
                assert(rest.contains(x));
                assert(s.drop_last().contains(x));
                let j = choose|j: int| 0 <= j < s.drop_last().len() && s.drop_last()[j] == x;
                assert(s[j] == x);
            }
            if x == s.last() {
                assert(s[s.len() - 1] == x);
                if !rest.contains(x) {
                    assert(distinct(s)[rest.len() as int] == x);
                }
            }
        }
        if !rest.contains(s.last()) {
            let d = rest.push(s.last());
            assert forall|i: int, j: int| 0 <= i < j < d.len() implies d[i] != d[j] by {
                if j == rest.len() {
                    assert(rest.contains(rest[i]));
                }
            }
        }
    }
}

/// Whether `names` has `name`.
fn list_has(names: &Vec<String>, name: &str) -> (r: bool)
    ensures
        r == names@.map_values(|s: String| s@).contains(name@),
{
    let ghost v = names@.map_values(|s: String| s@);
    for i in 0..names.len()
        invariant
            v == names@.map_values(|s: String| s@),
            forall|k: int| 0 <= k < i ==> v[k] != name@,
    {
        if same_text(names[i].as_str(), name) {
            assert(v[i as int] == name@);
            return true;
        }
    }
    false
}

/// The distinct statuses that the data lines of the orders file name,
/// trimmed, in the order of their first mention.
pub fn collect_statuses(lines: &Vec<String>) -> (r: Vec<String>)
    ensures
        r@.map_values(|s: String| s@) == distinct(status_mentions(lines@)),
{
    let mut out: Vec<String> = Vec::new();
    for i in 0..lines.len()
        invariant
            out@.map_values(|s: String| s@) == distinct(status_mentions(lines@.take(i as int))),
    {
        proof {
            assert(lines@.take(i + 1).drop_last() == lines@.take(i as int));
            assert(lines@.take(i + 1).last() == lines@[i as int]);
        }
        let ghost m = status_mentions(lines@.take(i as int));
        let line = lines[i].as_str();
        if !starts_with_text(line, "OrderID") {
            let cols = split_text(line, ',');
            if cols.len() == 4 {
                let status = trim_text(cols[3].as_str());
                proof {
                    assert(status_of_line(line@) == Some(status@));
                    assert(status_mentions(lines@.take(i + 1)) == m.push(status@));
                    assert(m.push(status@).drop_last() == m);
                }
                if !list_has(&out, status.as_str()) {
                    let ghost before = out@;
                    out.push(status);
                    assert(out@.map_values(|s: String| s@) == before.map_values(|s: String| s@).push(
                        out@.last()@,
                    ));
                }
            } else {
                assert(status_of_line(line@) is None);
            }
        } else {
            assert(status_of_line(line@) is None);
        }
    }
    assert(lines@.take(lines@.len() as int) == lines@);
    out
}

/// The outcome of every line of the orders file, and the counters they give.
pub fn plan_orders(
    lines: &Vec<String>,
    customers: &HashSet<i32>,
    statuses: &StringHashMap<i32>,
) -> (plan: LoadPlan)
    ensures
        plan.outcomes@.len() == lines@.len(),
        forall|i: int| 0 <= i < lines@.len() ==> (#[trigger] plan.outcomes@[i])@ == order_line_spec(
            lines@[i]@,
            customers@,
            statuses@,
        ),
        plan.stats.processed == crate::etl::count_processed(plan.outcomes@.map_values(|o: LineOutcome| o@)),
        plan.stats.rejected == crate::etl::count_rejected(plan.outcomes@.map_values(|o: LineOutcome| o@)),
        plan.stats.inserted == 0,
        plan.stats.errors@.len() == 0,
{
    let mut outcomes: Vec<LineOutcome> = Vec::new();
    for i in 0..lines.len()
        invariant
            outcomes@.len() == i,
            forall|k: int| 0 <= k < i ==> (#[trigger] outcomes@[k])@ == order_line_spec(
                lines@[k]@,
                customers@,
                statuses@,
            ),
    {
        outcomes.push(plan_order_line(lines[i].as_str(), customers, statuses));
    }
    let plan = tally(outcomes);
    assert(plan.outcomes@.map_values(|o: LineOutcome| o@) == outcomes@.map_values(|o: LineOutcome| o@));
    plan
}

/// A line of the orders file other than the header gives a row only when it
/// has exactly four fields, that is three commas; with any other number of
/// commas it is rejected for its column count.
pub proof fn law_order_line_columns(line: Seq<char>, customers: Set<i32>, statuses: Map<Seq<char>, i32>)
    ensures
        !"OrderID"@.is_prefix_of(line) && count_char(line, ',') != 3 ==> order_line_spec(line, customers, statuses)
            == OutcomeView::Rejected(RejectionView::ColumnCount),
        order_line_spec(line, customers, statuses) is Row ==> count_char(line, ',') == 3,
{
    lemma_split_count(line, ',');
}

/// The statuses gathered from the orders file are exactly the fourth fields
/// of its data lines with three commas, each without white space at its
/// ends, each once.
pub proof fn law_statuses_trimmed(lines: Seq<String>)
    ensures
        distinct(status_mentions(lines)).no_duplicates(),
        forall|s: Seq<char>| #[trigger] distinct(status_mentions(lines)).contains(s) <==> exists|i: int|
            0 <= i < lines.len() && !"OrderID"@.is_prefix_of(lines[i]@) && count_char(lines[i]@, ',') == 3
                && s == trim(#[trigger] split(lines[i]@, ',')[3]),
        forall|s: Seq<char>| #[trigger] distinct(status_mentions(lines)).contains(s) ==> is_trimmed(s),
{
    law_distinct(status_mentions(lines));
    lemma_status_mentions(lines);
    assert forall|s: Seq<char>| #[trigger] distinct(status_mentions(lines)).contains(s) implies is_trimmed(s) by {
        assert(status_mentions(lines).contains(s));
        assert(exists|i: int| 0 <= i < lines.len() && status_of_line(#[trigger] lines[i]@) == Some(s));
        let i = choose|i: int| 0 <= i < lines.len() && status_of_line(lines[i]@) == Some(s);
        law_trim_is_trimmed(split(lines[i]@, ',')[3]);
    }
    assert forall|s: Seq<char>| #[trigger] distinct(status_mentions(lines)).contains(s) <==> exists|i: int|
        0 <= i < lines.len() && !"OrderID"@.is_prefix_of(lines[i]@) && count_char(lines[i]@, ',') == 3
            && s == trim(#[trigger] split(lines[i]@, ',')[3]) by {
        if distinct(status_mentions(lines)).contains(s) {
            assert(status_mentions(lines).contains(s));
            assert(exists|i: int| 0 <= i < lines.len() && status_of_line(#[trigger] lines[i]@) == Some(s));
            let i = choose|i: int| 0 <= i < lines.len() && status_of_line(lines[i]@) == Some(s);
            lemma_split_count(lines[i]@, ',');
        }
        if exists|i: int|
            0 <= i < lines.len() && !"OrderID"@.is_prefix_of(lines[i]@) && count_char(lines[i]@, ',') == 3
                && s == trim(#[trigger] split(lines[i]@, ',')[3]) {
            let i = choose|i: int|
                0 <= i < lines.len() && !"OrderID"@.is_prefix_of(lines[i]@) && count_char(lines[i]@, ',') == 3
                    && s == trim(#[trigger] split(lines[i]@, ',')[3]);
            lemma_split_count(lines[i]@, ',');
            assert(status_of_line(lines[i]@) == Some(s));
            assert(status_mentions(lines).contains(s));
        }
    }
}

/// A status is mentioned exactly when some line names it.
pub proof fn lemma_status_mentions(lines: Seq<String>)
    ensures
        forall|s: Seq<char>| status_mentions(lines).contains(s) <==> exists|i: int|
            0 <= i < lines.len() && status_of_line(#[trigger] lines[i]@) == Some(s),
    decreases lines.len(),
{
    if lines.len() > 0 {
        let init = lines.drop_last();
        lemma_status_mentions(init);
        let rest = status_mentions(init);
        assert forall|s: Seq<char>| status_mentions(lines).contains(s) <==> exists|i: int|
            0 <= i < lines.len() && status_of_line(#[trigger] lines[i]@) == Some(s) by {
            if status_mentions(lines).contains(s) {
                let k = choose|k: int| 0 <= k < status_mentions(lines).len() && status_mentions(lines)[k] == s;
                if k < rest.len() {
                    assert(rest[k] == s);
                    assert(rest.contains(s));
                    let i = choose|i: int| 0 <= i < init.len() && status_of_line(#[trigger] init[i]@) == Some(s);
                    assert(lines[i] == init[i]);
                } else {
                    assert(status_of_line(lines[lines.len() - 1]@) == Some(s));
                }
            }
            if exists|i: int| 0 <= i < lines.len() && status_of_line(#[trigger] lines[i]@) == Some(s) {
                let i = choose|i: int| 0 <= i < lines.len() && status_of_line(#[trigger] lines[i]@) == Some(s);
                if i < init.len() {
                    assert(init[i] == lines[i]);
                    assert(rest.contains(s));
                    let k = choose|k: int| 0 <= k < rest.len() && rest[k] == s;
                    assert(status_mentions(lines)[k] == s);
                } else {
                    assert(status_mentions(lines)[rest.len() as int] == s);
                }
            }
        }
    }
}

} // verus!
