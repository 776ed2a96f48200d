//! Text for people to read: the list of transactions with its totals, and a
//! report.

use crate::amount::{
    decimal_difference, decimal_text, difference_fits, difference_overflows, format_decimal, lemma_exact_difference,
    lemma_key_sign, max_scale, money_text, pow10, two_place_text, Amount,
};
use crate::order::{key_of, stable_sort, stably_sorted, SortKey};
use crate::period::{chrono_display_date, chrono_format_date, iso_date_text, long_date_text};
use crate::report::{
    abs_total, add_flow, amounts_fit, amounts_wf, flows_match, inflow_sum, inflow_total,
    lemma_flow_totals_exact, lemma_prefix_totals, lemma_sums_bounded, lemma_widest_scale,
    lemma_within_scale, outflow_sum, outflow_total, widest_scale, Report,
};
use crate::text::push_char;
use crate::transaction::Transaction;
use vstd::prelude::*;
use vstd::string::StrSliceExecFns;
use vstd::utf8::encode_utf8;

verus! {

/// `n` spaces (none where `n` is not above zero).
pub open spec fn spaces(n: int) -> Seq<char> {
    Seq::new(if n > 0 { n as nat } else { 0 }, |i: int| ' ')
}

/// `s` right-aligned in `width` characters: spaces in front where it is
/// shorter.
pub open spec fn pad_left(s: Seq<char>, width: int) -> Seq<char> {
    spaces(width - s.len()) + s
}

/// The number of bytes of a text in UTF-8.
pub open spec fn byte_len(s: Seq<char>) -> int {
    encode_utf8(s).len() as int
}

/// The most bytes any amount takes written with two places (0 for none).
pub open spec fn amount_width(ts: Seq<Transaction>) -> int
    decreases ts.len(),
{
    if ts.len() == 0 {
        0
    } else {
        let w = byte_len(two_place_text(ts.last().amount));
        let rest = amount_width(ts.drop_last());
        if w > rest {
            w
        } else {
            rest
        }
    }
}

/// The most bytes any category name takes (0 for none).
pub open spec fn category_width(ts: Seq<Transaction>) -> int
    decreases ts.len(),
{
    if ts.len() == 0 {
        0
    } else {
        let w = byte_len(ts.last().category@);
        let rest = category_width(ts.drop_last());
        if w > rest {
            w
        } else {
            rest
        }
    }
}

/// Every text whose length a listing measures has a length a `usize` holds.
pub open spec fn texts_measurable(ts: Seq<Transaction>) -> bool {
    forall|i: int|
        0 <= i < ts.len() ==> byte_len(two_place_text((#[trigger] ts[i]).amount)) <= usize::MAX
            && byte_len(ts[i].category@) <= usize::MAX
}

/// "Inflow" for an amount above zero, else "Outflow".
pub open spec fn flow_word(a: Amount) -> Seq<char> {
    if a.key() > 0 {
        "Inflow"@
    } else {
        "Outflow"@
    }
}

/// The line of one transaction: date, direction right-aligned in 10, amount
/// with two places right-aligned in the amount width, category right-aligned in
/// the category width, with " | " between them.
pub open spec fn listing_row(t: Transaction, amount_w: int, category_w: int) -> Seq<char> {
    iso_date_text(t.date) + " | "@ + pad_left(flow_word(t.amount), 10) + " | "@ + pad_left(
        two_place_text(t.amount),
        amount_w,
    ) + " | "@ + pad_left(t.category@, category_w)
}

/// The lines of the transactions whose amount is not zero, in order.
pub open spec fn listing_rows(ts: Seq<Transaction>, amount_w: int, category_w: int) -> Seq<Seq<char>>
    decreases ts.len(),
{
    if ts.len() == 0 {
        seq![]
    } else {
        let rest = listing_rows(ts.drop_last(), amount_w, category_w);
        if ts.last().amount.key() == 0 {
            rest
        } else {
            rest.push(listing_row(ts.last(), amount_w, category_w))
        }
    }
}

/// The money that went out, without its sign.
pub open spec fn outflow_without_sign(ts: Seq<Transaction>) -> Amount {
    Amount { negative: false, ..outflow_total(ts)->Some_0 }
}

/// rust_decimal adds up the money in and the money out without overflow, and
/// takes the second from the first without overflow.
pub open spec fn listing_defined(ts: Seq<Transaction>) -> bool {
    &&& inflow_total(ts) is Some
    &&& outflow_total(ts) is Some
    &&& !difference_overflows(inflow_total(ts)->Some_0, outflow_without_sign(ts))
}

/// The lines after the transactions: an empty one, then the money in, the
/// money out and what remains.
pub open spec fn listing_footer(ts: Seq<Transaction>) -> Seq<Seq<char>> {
    let total_in = inflow_total(ts)->Some_0;
    let total_out = outflow_without_sign(ts);
    seq![
        seq![],
        "Total In:  $"@ + money_text(total_in),
        "Total Out: $"@ + money_text(total_out) + seq![' '],
        "Remaining: $"@ + money_text(decimal_difference(total_in, total_out)),
    ]
}

/// The listing of transactions: a line for each whose amount is not zero, then
/// the totals.
pub open spec fn listing_lines(ts: Seq<Transaction>) -> Seq<Seq<char>> {
    listing_rows(ts, amount_width(ts), category_width(ts)) + listing_footer(ts)
}

/// Appends `s` right-aligned in `width` characters.
fn push_padded(out: &mut String, s: &str, width: usize)
    ensures
        final(out)@ == old(out)@ + pad_left(s@, width as int),
{
    let len = s.unicode_len();
    let mut k = len;
    while k < width
        invariant
            len == s@.len(),
            len <= k,
            k <= width || k == len,
            out@ == old(out)@ + Seq::new((k - len) as nat, |i: int| ' '),
        decreases width - k,
    {
        push_char(out, ' ');
        k = k + 1;
        assert(out@ =~= old(out)@ + Seq::new((k - len) as nat, |i: int| ' '));
    }
    assert(Seq::new((k - len) as nat, |i: int| ' ') =~= spaces(width - s@.len()));
    out.append(s);
    assert(out@ =~= old(out)@ + pad_left(s@, width as int));
}

/// The line of one transaction.
fn listing_row_text(t: &Transaction, amount_w: usize, category_w: usize) -> (r: String)
    requires
        t.date.wf(),
        t.amount.wf(),
    ensures
        r@ == listing_row(*t, amount_w as int, category_w as int),
{
    let mut s = chrono_display_date(t.date);
    s.append(" | ");
    let word = if t.amount.is_positive() {
        "Inflow"
    } else {
        "Outflow"
    };
    push_padded(&mut s, word, 10);
    s.append(" | ");
    let amount = t.amount.to_two_place_text();
    push_padded(&mut s, amount.as_str(), amount_w);
    s.append(" | ");
    push_padded(&mut s, t.category.as_str(), category_w);
    s
}

/// The widths of the amount and category columns.
fn column_widths(transactions: &Vec<Transaction>) -> (r: (usize, usize))
    requires
        forall|i: int| 0 <= i < transactions@.len() ==> (#[trigger] transactions@[i]).amount.wf(),
        texts_measurable(transactions@),
    ensures
        r.0 == amount_width(transactions@),
        r.1 == category_width(transactions@),
{
    let ghost ts = transactions@;
    let mut amount_w: usize = 0;
    let mut category_w: usize = 0;
    let n = transactions.len();
    for i in 0..n
        invariant
            n == ts.len(),
            ts == transactions@,
            forall|k: int| 0 <= k < ts.len() ==> (#[trigger] ts[k]).amount.wf(),
            texts_measurable(ts),
            amount_w == amount_width(ts.take(i as int)),
            category_w == category_width(ts.take(i as int)),
    {
        proof {
            assert(ts.take(i + 1).drop_last() =~= ts.take(i as int));
            assert(ts.take(i + 1).last() == ts[i as int]);
        }
        let amount = transactions[i].amount.to_two_place_text();
        let a = amount.as_str().len();
        if a > amount_w {
            amount_w = a;
        }
        let c = transactions[i].category.as_str().len();
        if c > category_w {
            category_w = c;
        }
    }
    proof {
        assert(ts.take(n as int) =~= ts);
    }
    (amount_w, category_w)
}

/// The listing of transactions (`listing_lines`), or `None` where rust_decimal
/// overflows on a total: a line for each transaction whose amount is not zero,
/// then an empty line, the money in, the money out and what remains, each as
/// rust_decimal adds them up.
pub fn try_transaction_lines(transactions: &Vec<Transaction>) -> (r: Option<Vec<String>>)
    requires
        forall|i: int| 0 <= i < transactions@.len() ==> (#[trigger] transactions@[i]).date.wf(),
        amounts_wf(transactions@),
        texts_measurable(transactions@),
    ensures
        r is Some <==> listing_defined(transactions@),
        r matches Some(lines) ==> lines@.len() == listing_lines(transactions@).len() && forall|i: int|
            0 <= i < lines@.len() ==> (#[trigger] lines@[i])@ == listing_lines(transactions@)[i],
{
    let ghost ts = transactions@;
    let (amount_w, category_w) = column_widths(transactions);
    let mut lines: Vec<String> = Vec::new();
    let mut inflow = Amount::zero();
    let mut outflow = Amount::zero();
    let n = transactions.len();
    proof {
        crate::amount::lemma_key_sign(Amount::zero_spec());
        assert(ts.take(0) =~= Seq::<Transaction>::empty());
    }
    for i in 0..n
        invariant
            n == ts.len(),
            ts == transactions@,
            forall|k: int| 0 <= k < ts.len() ==> (#[trigger] ts[k]).date.wf(),
            amounts_wf(ts),
            amount_w == amount_width(ts),
            category_w == category_width(ts),
            lines@.len() == listing_rows(ts.take(i as int), amount_w as int, category_w as int).len(),
            forall|j: int|
                0 <= j < lines@.len() ==> (#[trigger] lines@[j])@ == listing_rows(
                    ts.take(i as int),
                    amount_w as int,
                    category_w as int,
                )[j],
            flows_match(inflow, outflow, ts.take(i as int), false),
    {
        let t = &transactions[i];
        let ghost done = ts.take(i as int);
        let ghost rows = listing_rows(done, amount_w as int, category_w as int);
        proof {
            assert(ts.take(i + 1) =~= done.push(*t));
            assert(ts.take(i + 1).drop_last() =~= done);
            assert(t.amount.wf());
            lemma_prefix_totals(ts, i + 1, seq![]);
        }
        if !add_flow(&mut inflow, &mut outflow, t, Ghost(done), Ghost(false)) {
            return None;
        }
        if !t.amount.is_zero() {
            let line = listing_row_text(t, amount_w, category_w);
            let ghost before = lines@;
            lines.push(line);
            proof {
                assert forall|j: int| 0 <= j < lines@.len() implies (#[trigger] lines@[j])@
                    == rows.push(listing_row(*t, amount_w as int, category_w as int))[j] by {
                    if j < rows.len() {
                        assert(lines@[j] == before[j]);
                    }
                }
            }
        }
    }
    proof {
        assert(ts.take(n as int) =~= ts);
    }
    let out_abs = outflow.abs();
    let remaining = match inflow.checked_minus(&out_abs) {
        Some(x) => x,
        None => return None,
    };
    lines.push(String::new());
    let mut total_in = String::new();
    total_in.append("Total In:  $");
    total_in.append(format_decimal(inflow).as_str());
    lines.push(total_in);
    let mut total_out = String::new();
    total_out.append("Total Out: $");
    total_out.append(format_decimal(out_abs).as_str());
    push_char(&mut total_out, ' ');
    lines.push(total_out);
    let mut rest = String::new();
    rest.append("Remaining: $");
    rest.append(format_decimal(remaining).as_str());
    lines.push(rest);
    Some(lines)
}

/// The listing of transactions (`listing_lines`), where rust_decimal does not
/// overflow on its totals (see `try_transaction_lines`).
pub fn transaction_lines(transactions: &Vec<Transaction>) -> (r: Vec<String>)
    requires
        forall|i: int| 0 <= i < transactions@.len() ==> (#[trigger] transactions@[i]).date.wf(),
        amounts_wf(transactions@),
        texts_measurable(transactions@),
        listing_defined(transactions@),
    ensures
        r@.len() == listing_lines(transactions@).len(),
        forall|i: int| 0 <= i < r@.len() ==> (#[trigger] r@[i])@ == listing_lines(transactions@)[i],
{
    match try_transaction_lines(transactions) {
        Some(lines) => lines,
        None => {
            assert(false);
            Vec::new()
        },
    }
}

/// What remains is the money in less the money out: where the amounts fit, the
/// last line of the listing writes an amount whose value is the sum of all the
/// amounts above zero and all those below it, so it is below zero where more
/// went out than came in.
pub proof fn law_remaining_is_net(ts: Seq<Transaction>)
    requires
        amounts_fit(ts),
        listing_defined(ts),
    ensures
        exists|x: Amount|
            x.wf() && x.key() == inflow_sum(ts) + outflow_sum(ts) && listing_lines(ts).last()
                == "Remaining: $"@ + money_text(x),
{
    let total_in = inflow_total(ts)->Some_0;
    let total_out = outflow_total(ts)->Some_0;
    let out_abs = outflow_without_sign(ts);
    lemma_flow_totals_exact(ts);
    lemma_sums_bounded(ts, seq![]);
    lemma_widest_scale(ts);
    lemma_key_sign(total_out);
    lemma_key_sign(out_abs);
    let p = pow10(28 - total_out.scale);
    let v = total_out.magnitude as int;
    assert((-v) * p == -(v * p)) by (nonlinear_arith);
    assert(out_abs.key() == -outflow_sum(ts));
    lemma_within_scale(
        inflow_sum(ts) + outflow_sum(ts),
        abs_total(ts),
        max_scale(total_in.scale, out_abs.scale),
        widest_scale(ts),
    );
    lemma_exact_difference(total_in, out_abs);
    let x = decimal_difference(total_in, out_abs);
    let rows = listing_rows(ts, amount_width(ts), category_width(ts));
    assert(listing_lines(ts).last() == listing_footer(ts)[3]);
    assert(x.wf() && x.key() == inflow_sum(ts) + outflow_sum(ts));
}

/// A category total is ordered by its value.
pub open spec fn amount_key() -> spec_fn((String, Amount)) -> int {
    |c: (String, Amount)| c.1.key()
}

/// Category totals are ordered by their value.
impl SortKey for (String, Amount) {
    open spec fn sort_key(&self) -> int {
        self.1.key()
    }

    open spec fn comparable(&self) -> bool {
        self.1.wf()
    }

    fn key_below(&self, other: &Self) -> (r: bool) {
        self.1.less_than(&other.1)
    }
}

/// Orders category totals by value, keeping equal ones in their order.
pub fn sort_by_amount(cats: &mut Vec<(String, Amount)>)
    requires
        forall|i: int| 0 <= i < old(cats)@.len() ==> (#[trigger] old(cats)@[i]).1.wf(),
    ensures
        stably_sorted(old(cats)@, final(cats)@, amount_key()),
        final(cats)@.len() == old(cats)@.len(),
        forall|i: int| 0 <= i < final(cats)@.len() ==> (#[trigger] final(cats)@[i]).1.wf(),
{
    stable_sort(cats);
    assert(key_of::<(String, Amount)>() =~= amount_key());
}

/// The first lines of a report: its dates, the money in and out, and the
/// balance.
pub open spec fn report_header(r: Report) -> Seq<Seq<char>> {
    seq![
        "Report for "@ + long_date_text(r.start_date) + " to "@ + long_date_text(r.end_date),
        "Inflow  "@ + money_text(r.total_inflow),
        "Outflow "@ + money_text(r.total_outflow),
        "Balance "@ + money_text(decimal_difference(r.total_inflow, r.total_outflow)),
    ]
}

/// The balance of a report is its money in less its money out: where that
/// difference fits, the balance line writes an amount of exactly that value.
pub proof fn law_balance_is_difference(r: Report)
    requires
        r.wf(),
        difference_fits(r.total_inflow, r.total_outflow),
    ensures
        exists|x: Amount|
            x.wf() && x.key() == r.total_inflow.key() - r.total_outflow.key() && report_header(r)[3]
                == "Balance "@ + money_text(x),
{
    lemma_exact_difference(r.total_inflow, r.total_outflow);
    let x = decimal_difference(r.total_inflow, r.total_outflow);
    assert(report_header(r)[3] == "Balance "@ + money_text(x));
}

/// The line of a category total: indented name, colon, the total as
/// rust_decimal writes it.
pub open spec fn category_line(c: (String, Amount)) -> Seq<char> {
    "  "@ + c.0@ + ": "@ + decimal_text(c.1)
}

/// A report as text (see `report_lines`), or `None` where rust_decimal
/// overflows on the balance, money in less money out.
pub fn try_report_lines(report: &Report) -> (r: Option<Vec<String>>)
    requires
        report.wf(),
    ensures
        r is None <==> difference_overflows(report.total_inflow, report.total_outflow),
        r matches Some(lines) ==> lines@.len() == 4 + report.categories_total_flow@.len() && (forall|i: int|
            0 <= i < 4 ==> (#[trigger] lines@[i])@ == report_header(*report)[i]) && exists|
            sorted: Seq<(String, Amount)>,
        |
            stably_sorted(report.categories_total_flow@, sorted, amount_key()) && forall|j: int|
                0 <= j < sorted.len() ==> (#[trigger] lines@[4 + j])@ == category_line(sorted[j]),
{
    match report.total_inflow.checked_minus(&report.total_outflow) {
        Some(_) => Some(report_lines(report)),
        None => None,
    }
}

/// A report as text: `report_header`, then a line for each category, ordered by
/// total (equal totals keep the report's order). The balance is money in less
/// money out as rust_decimal's `-` gives it, which must not overflow.
pub fn report_lines(report: &Report) -> (r: Vec<String>)
    requires
        report.wf(),
        !difference_overflows(report.total_inflow, report.total_outflow),
    ensures
        r@.len() == 4 + report.categories_total_flow@.len(),
        forall|i: int| 0 <= i < 4 ==> (#[trigger] r@[i])@ == report_header(*report)[i],
        exists|sorted: Seq<(String, Amount)>|
            stably_sorted(report.categories_total_flow@, sorted, amount_key()) && forall|j: int|
                0 <= j < sorted.len() ==> (#[trigger] r@[4 + j])@ == category_line(sorted[j]),
{
    let mut lines: Vec<String> = Vec::new();
    let mut head = String::new();
    head.append("Report for ");
    head.append(chrono_format_date(report.start_date, "%B %d, %Y").as_str());
    head.append(" to ");
    head.append(chrono_format_date(report.end_date, "%B %d, %Y").as_str());
    lines.push(head);
    let mut inflow = String::new();
    inflow.append("Inflow  ");
    inflow.append(format_decimal(report.total_inflow).as_str());
    lines.push(inflow);
    let mut outflow = String::new();
    outflow.append("Outflow ");
    outflow.append(format_decimal(report.total_outflow).as_str());
    lines.push(outflow);
    let balance_amount = report.total_inflow.minus(&report.total_outflow);
    let mut balance = String::new();
    balance.append("Balance ");
    balance.append(format_decimal(balance_amount).as_str());
    lines.push(balance);
    let ghost head_lines = lines@;
    assert(head_lines.len() == 4);
    let mut cats: Vec<(String, Amount)> = Vec::new();
    let n = report.categories_total_flow.len();
    for i in 0..n
        invariant
            n == report.categories_total_flow@.len(),
            report.wf(),
            cats@ == report.categories_total_flow@.take(i as int),
    {
        let c = &report.categories_total_flow[i];
        cats.push((c.0.clone(), c.1));
        assert(cats@ =~= report.categories_total_flow@.take(i + 1));
    }
    assert(cats@ =~= report.categories_total_flow@);
    sort_by_amount(&mut cats);
    let ghost sorted = cats@;
    for j in 0..n
        invariant
            n == sorted.len(),
            sorted == cats@,
            forall|q: int| 0 <= q < n ==> (#[trigger] sorted[q]).1.wf(),
            lines@.len() == 4 + j,
            forall|i: int| 0 <= i < 4 ==> (#[trigger] lines@[i]) == head_lines[i],
            forall|q: int| 0 <= q < j ==> (#[trigger] lines@[4 + q])@ == category_line(sorted[q]),
    {
        let mut line = String::new();
        line.append("  ");
        line.append(cats[j].0.as_str());
        line.append(": ");
        line.append(cats[j].1.to_text().as_str());
        lines.push(line);
    }
    lines
}

} // verus!
