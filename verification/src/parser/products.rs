//! The products file: the categories it names, and the row each line
//! becomes. A line is `ProductID,ProductName,Category,Price,Stock`; the row
//! sent to the database is `name,category_id,price,stock`.

use vstd::prelude::*;
use vstd::hash_map::StringHashMap;

use crate::etl::{count_rejected, tally, LineOutcome, LoadPlan, OutcomeView, Rejection, RejectionView};
use crate::parser::orders::distinct;
use crate::text::{count_char, lemma_split_count, contains_pattern, contains_text, i32_text, push_char, same_text, signed_decimal, split, split_text};

verus! {

/// A line of the products file is the header when it mentions `ProductID`.
pub open spec fn is_product_header(line: Seq<char>) -> bool {
    contains_text(line, "ProductID"@)
}

/// What becomes of one line of the products file, given the category ids by name.
pub open spec fn product_line_spec(line: Seq<char>, categories: Map<Seq<char>, i32>) -> OutcomeView {
    let cols = split(line, ',');
    if is_product_header(line) {
        OutcomeView::Header
    } else if cols.len() != 5 {
        OutcomeView::Rejected(RejectionView::ColumnCount)
    } else if !categories.contains_key(cols[2]) {
        OutcomeView::Rejected(RejectionView::MissingCategory(cols[2]))
    } else {
        OutcomeView::Row(
            cols[1] + seq![','] + signed_decimal(categories[cols[2]] as int) + seq![','] + cols[3]
                + seq![','] + cols[4] + seq!['\n'],
        )
    }
}

/// The outcome of one line of the products file.
pub fn plan_product_line(line: &str, categories: &StringHashMap<i32>) -> (r: LineOutcome)
    ensures
        r@ == product_line_spec(line@, categories@),
{
    if contains_pattern(line, "ProductID") {
        return LineOutcome::Header;
    }
    let cols = split_text(line, ',');
    if cols.len() != 5 {
        return LineOutcome::Rejected(Rejection::ColumnCount);
    }
    let category_id = match categories.get(cols[2].as_str()) {
        Some(v) => *v,
        None => {
            return LineOutcome::Rejected(Rejection::MissingCategory(cols[2].clone()));
        },
    };
    let mut row = cols[1].clone();
    push_char(&mut row, ',');
    let c = i32_text(category_id);
    row.append(c.as_str());
    push_char(&mut row, ',');
    row.append(cols[3].as_str());
    push_char(&mut row, ',');
    row.append(cols[4].as_str());
    push_char(&mut row, '\n');
    assert(row@ =~= cols@[1]@ + seq![','] + signed_decimal(category_id as int) + seq![','] + cols@[3]@
        + seq![','] + cols@[4]@ + seq!['\n']);
    LineOutcome::Row(row)
}

/// The category named by a data line with five columns.
pub open spec fn category_of_line(line: Seq<char>) -> Option<Seq<char>> {
    let cols = split(line, ',');
    if is_product_header(line) || cols.len() != 5 {
        None
    } else {
        Some(cols[2])
    }
}

/// The categories named by the lines, in order, repeats included.
pub open spec fn category_mentions(lines: Seq<String>) -> Seq<Seq<char>>
    decreases lines.len(),
{
    if lines.len() == 0 {
        Seq::empty()
    } else {
        let rest = category_mentions(lines.drop_last());
        match category_of_line(lines.last()@) {
            Some(s) => rest.push(s),
            None => rest,
        }
    }
}

/// Number of data lines that do not have five columns.
pub open spec fn malformed_product_lines(lines: Seq<String>) -> nat
    decreases lines.len(),
{
    if lines.len() == 0 {
        0
    } else {
        malformed_product_lines(lines.drop_last()) + if !is_product_header(lines.last()@) && split(
            lines.last()@,
            ',',
        ).len() != 5 {
            1nat
        } else {
            0nat
        }
    }
}

/// What the first reading of the products file finds: the distinct
/// categories, and how many data lines it rejected.
pub struct CategoryScan {
    pub names: Vec<String>,
    pub rejected: usize,
}

/// Whether `names` has `name`.
fn names_have(names: &Vec<String>, name: &str) -> (r: bool)
    ensures
        r == names@.map_values(|s: String| s@).contains(name@),
{
    let ghost v = names@.map_values(|s: String| s@);
    for i in 0..names.len()
        invariant
            v == names@.map_values(|s: String| s@),
            forall|k: int| 0 <= k < i ==> v[k] != name@,
    {
        if same_text(names[i].as_str(), name) {
            assert(v[i as int] == name@);
            return true;
        }
    }
    false
}

/// The first reading of the products file: the distinct categories of the
/// data lines with five columns, in the order of their first mention, and
/// the number of data lines without five columns.
pub fn collect_categories(lines: &Vec<String>) -> (scan: CategoryScan)
    ensures
        scan.names@.map_values(|s: String| s@) == distinct(category_mentions(lines@)),
        scan.rejected == malformed_product_lines(lines@),
        scan.rejected <= lines@.len(),
{
    let mut names: Vec<String> = Vec::new();
    let mut rejected: usize = 0;
    for i in 0..lines.len()
        invariant
            names@.map_values(|s: String| s@) == distinct(category_mentions(lines@.take(i as int))),
            rejected == malformed_product_lines(lines@.take(i as int)),
            rejected <= i,
    {
        proof {
            assert(lines@.take(i + 1).drop_last() == lines@.take(i as int));
            assert(lines@.take(i + 1).last() == lines@[i as int]);
        }
        let ghost m = category_mentions(lines@.take(i as int));
        let line = lines[i].as_str();
        if !contains_pattern(line, "ProductID") {
            let cols = split_text(line, ',');
            if cols.len() != 5 {
                rejected = rejected + 1;
                assert(category_of_line(line@) is None);
            } else {
                let category = cols[2].clone();
                proof {
                    assert(category_of_line(line@) == Some(category@));
                    assert(category_mentions(lines@.take(i + 1)) == m.push(category@));
                    assert(m.push(category@).drop_last() == m);
                }
                if !names_have(&names, category.as_str()) {
                    let ghost before = names@;
                    names.push(category);
                    assert(names@.map_values(|s: String| s@) == before.map_values(|s: String| s@).push(
                        names@.last()@,
                    ));
                }
            }
        } else {
            assert(category_of_line(line@) is None);
        }
    }
    assert(lines@.take(lines@.len() as int) == lines@);
    CategoryScan { names, rejected }
}

/// The outcome of every line of the products file, and the counters they
/// give; the lines that the first reading rejected count as rejected once more.
pub fn plan_products(
    lines: &Vec<String>,
    categories: &StringHashMap<i32>,
    scan: &CategoryScan,
) -> (plan: LoadPlan)
    requires
        scan.rejected <= lines@.len(),
        lines@.len() <= usize::MAX / 2,
    ensures
        plan.outcomes@.len() == lines@.len(),
        forall|i: int| 0 <= i < lines@.len() ==> (#[trigger] plan.outcomes@[i])@ == product_line_spec(
            lines@[i]@,
            categories@,
        ),
        plan.stats.processed == crate::etl::count_processed(plan.outcomes@.map_values(|o: LineOutcome| o@)),
        plan.stats.rejected == scan.rejected + count_rejected(plan.outcomes@.map_values(|o: LineOutcome| o@)),
        plan.stats.inserted == 0,
        plan.stats.errors@.len() == 0,
{
    let mut outcomes: Vec<LineOutcome> = Vec::new();
    for i in 0..lines.len()
        invariant
            outcomes@.len() == i,
            forall|k: int| 0 <= k < i ==> (#[trigger] outcomes@[k])@ == product_line_spec(
                lines@[k]@,
                categories@,
            ),
    {
        outcomes.push(plan_product_line(lines[i].as_str(), categories));
    }
    let mut plan = tally(outcomes);
    assert(plan.outcomes@.map_values(|o: LineOutcome| o@) == outcomes@.map_values(|o: LineOutcome| o@));
    proof {
        let views = outcomes@.map_values(|o: LineOutcome| o@);
        crate::etl::law_counted_lines(views);
    }
    plan.stats.rejected = plan.stats.rejected + scan.rejected;
    plan
}

/// A line of the products file that does not mention `ProductID` gives a
/// row only when it has exactly five fields, that is four commas; with any
/// other number of commas it is rejected for its column count.
pub proof fn law_product_line_columns(line: Seq<char>, categories: Map<Seq<char>, i32>)
    ensures
        !contains_text(line, "ProductID"@) && count_char(line, ',') != 4 ==> product_line_spec(line, categories)
            == OutcomeView::Rejected(RejectionView::ColumnCount),
        product_line_spec(line, categories) is Row ==> count_char(line, ',') == 4,
{
    lemma_split_count(line, ',');
}

/// The categories gathered from the products file are exactly the third
/// fields, as written, of its lines that do not mention `ProductID` and have
/// four commas, each once.
pub proof fn law_categories_fields(lines: Seq<String>)
    ensures
        distinct(category_mentions(lines)).no_duplicates(),
        forall|s: Seq<char>| #[trigger] distinct(category_mentions(lines)).contains(s) <==> exists|i: int|
            0 <= i < lines.len() && !contains_text(lines[i]@, "ProductID"@) && count_char(lines[i]@, ',') == 4
                && s == #[trigger] split(lines[i]@, ',')[2],
{
    crate::parser::orders::law_distinct(category_mentions(lines));
    lemma_category_mentions(lines);
    assert forall|s: Seq<char>| #[trigger] distinct(category_mentions(lines)).contains(s) <==> exists|i: int|
        0 <= i < lines.len() && !contains_text(lines[i]@, "ProductID"@) && count_char(lines[i]@, ',') == 4
            && s == #[trigger] split(lines[i]@, ',')[2] by {
        if distinct(category_mentions(lines)).contains(s) {
            assert(category_mentions(lines).contains(s));
            assert(exists|i: int| 0 <= i < lines.len() && category_of_line(#[trigger] lines[i]@) == Some(s));
            let i = choose|i: int| 0 <= i < lines.len() && category_of_line(lines[i]@) == Some(s);
            lemma_split_count(lines[i]@, ',');
        }
        if exists|i: int|
            0 <= i < lines.len() && !contains_text(lines[i]@, "ProductID"@) && count_char(lines[i]@, ',') == 4
                && s == #[trigger] split(lines[i]@, ',')[2] {
            let i = choose|i: int|
                0 <= i < lines.len() && !contains_text(lines[i]@, "ProductID"@) && count_char(lines[i]@, ',') == 4
                    && s == #[trigger] split(lines[i]@, ',')[2];
            lemma_split_count(lines[i]@, ',');
            assert(category_of_line(lines[i]@) == Some(s));
            assert(category_mentions(lines).contains(s));
        }
    }
}

/// A category is mentioned exactly when some line names it.
pub proof fn lemma_category_mentions(lines: Seq<String>)
    ensures
        forall|s: Seq<char>| category_mentions(lines).contains(s) <==> exists|i: int|
            0 <= i < lines.len() && category_of_line(#[trigger] lines[i]@) == Some(s),
    decreases lines.len(),
{
    if lines.len() > 0 {
        let init = lines.drop_last();
        lemma_category_mentions(init);
        let rest = category_mentions(init);
        assert forall|s: Seq<char>| category_mentions(lines).contains(s) <==> exists|i: int|
            0 <= i < lines.len() && category_of_line(#[trigger] lines[i]@) == Some(s) by {
            if category_mentions(lines).contains(s) {
                let k = choose|k: int| 0 <= k < category_mentions(lines).len() && category_mentions(lines)[k] == s;
                if k < rest.len() {
                    assert(rest[k] == s);
                    assert(rest.contains(s));
                    let i = choose|i: int| 0 <= i < init.len() && category_of_line(#[trigger] init[i]@) == Some(s);
                    assert(lines[i] == init[i]);
                } else {
                    assert(category_of_line(lines[lines.len() - 1]@) == Some(s));
                }
            }
            if exists|i: int| 0 <= i < lines.len() && category_of_line(#[trigger] lines[i]@) == Some(s) {
                let i = choose|i: int| 0 <= i < lines.len() && category_of_line(#[trigger] lines[i]@) == Some(s);
                if i < init.len() {
                    assert(init[i] == lines[i]);
                    assert(rest.contains(s));
                    let k = choose|k: int| 0 <= k < rest.len() && rest[k] == s;
                    assert(category_mentions(lines)[k] == s);
                } else {
                    assert(category_mentions(lines)[rest.len() as int] == s);
                }
            }
        }
    }
}

} // verus!
