//! Reports over a list of transactions: the span of their dates, the money
//! that came in and went out, and the total of each category.

use crate::amount::{
    decimal_sum, lemma_key_sign, magnitude_limit, max_scale, pow10, sum_fits, sum_overflows, Amount,
};
use crate::calendar::Date;
use crate::transaction::Transaction;
use vstd::arithmetic::power::{lemma_pow_increases, lemma_pow_positive};
use vstd::prelude::*;

verus! {

// ---------------------------------------------------------------------------
// Sums over transactions, as numbers and as rust_decimal adds them up.

/// The value of an amount without its sign, as a key (value times 10^28).
pub open spec fn abs_key(a: Amount) -> int {
    if a.key() < 0 {
        -a.key()
    } else {
        a.key()
    }
}

/// The sum of the amounts' values without their signs, as a key.
pub open spec fn abs_total(ts: Seq<Transaction>) -> int
    decreases ts.len(),
{
    if ts.len() == 0 {
        0
    } else {
        abs_total(ts.drop_last()) + abs_key(ts.last().amount)
    }
}

/// The largest scale among the amounts (0 for none).
pub open spec fn widest_scale(ts: Seq<Transaction>) -> u32
    decreases ts.len(),
{
    if ts.len() == 0 {
        0
    } else {
        max_scale(widest_scale(ts.drop_last()), ts.last().amount.scale)
    }
}

/// Every amount is one rust_decimal holds, and the sum of all their values
/// without sign fits in rust_decimal's 96 bits at the largest of their scales:
/// then every sum of some of them is exact.
pub open spec fn amounts_fit(ts: Seq<Transaction>) -> bool {
    &&& forall|i: int| 0 <= i < ts.len() ==> (#[trigger] ts[i]).amount.wf()
    &&& abs_total(ts) < magnitude_limit() * pow10(28 - widest_scale(ts))
}

/// The sum of the values above zero, as a key.
pub open spec fn inflow_sum(ts: Seq<Transaction>) -> int
    decreases ts.len(),
{
    if ts.len() == 0 {
        0
    } else {
        let k = ts.last().amount.key();
        inflow_sum(ts.drop_last()) + if k > 0 {
            k
        } else {
            0
        }
    }
}

/// The sum of the values below zero, as a key.
pub open spec fn outflow_sum(ts: Seq<Transaction>) -> int
    decreases ts.len(),
{
    if ts.len() == 0 {
        0
    } else {
        let k = ts.last().amount.key();
        outflow_sum(ts.drop_last()) + if k < 0 {
            k
        } else {
            0
        }
    }
}

/// The sum of the values of the transactions of one category, as a key.
pub open spec fn category_sum(ts: Seq<Transaction>, name: Seq<char>) -> int
    decreases ts.len(),
{
    if ts.len() == 0 {
        0
    } else {
        category_sum(ts.drop_last(), name) + if ts.last().category@ == name {
            ts.last().amount.key()
        } else {
            0
        }
    }
}

/// One step of a running total as rust_decimal's `+` makes it: `None` once it
/// has overflowed.
pub open spec fn sum_step(acc: Option<Amount>, a: Amount) -> Option<Amount> {
    match acc {
        Some(x) => if sum_overflows(x, a) {
            None
        } else {
            Some(decimal_sum(x, a))
        },
        None => None,
    }
}

/// Zero, then each amount above zero added in turn by rust_decimal (`None`
/// where an addition overflows).
pub open spec fn inflow_total(ts: Seq<Transaction>) -> Option<Amount>
    decreases ts.len(),
{
    if ts.len() == 0 {
        Some(Amount::zero_spec())
    } else {
        let acc = inflow_total(ts.drop_last());
        if ts.last().amount.key() > 0 {
            sum_step(acc, ts.last().amount)
        } else {
            acc
        }
    }
}

/// Zero, then each amount below zero added in turn by rust_decimal (`None`
/// where an addition overflows).
pub open spec fn outflow_total(ts: Seq<Transaction>) -> Option<Amount>
    decreases ts.len(),
{
    if ts.len() == 0 {
        Some(Amount::zero_spec())
    } else {
        let acc = outflow_total(ts.drop_last());
        if ts.last().amount.key() < 0 {
            sum_step(acc, ts.last().amount)
        } else {
            acc
        }
    }
}

/// Zero, then each amount of the category added in turn by rust_decimal
/// (`None` where an addition overflows).
pub open spec fn category_total(ts: Seq<Transaction>, name: Seq<char>) -> Option<Amount>
    decreases ts.len(),
{
    if ts.len() == 0 {
        Some(Amount::zero_spec())
    } else {
        let acc = category_total(ts.drop_last(), name);
        if ts.last().category@ == name {
            sum_step(acc, ts.last().amount)
        } else {
            acc
        }
    }
}

/// The categories of the transactions, each once, in the order in which they
/// first occur.
pub open spec fn category_names(ts: Seq<Transaction>) -> Seq<Seq<char>>
    decreases ts.len(),
{
    if ts.len() == 0 {
        seq![]
    } else {
        let names = category_names(ts.drop_last());
        if names.contains(ts.last().category@) {
            names
        } else {
            names.push(ts.last().category@)
        }
    }
}

/// The earliest of the dates (meaningful for at least one transaction).
pub open spec fn earliest(ts: Seq<Transaction>) -> Date
    decreases ts.len(),
{
    if ts.len() <= 1 {
        ts[0].date
    } else {
        let e = earliest(ts.drop_last());
        if ts.last().date.number() < e.number() {
            ts.last().date
        } else {
            e
        }
    }
}

/// The latest of the dates (meaningful for at least one transaction).
pub open spec fn latest(ts: Seq<Transaction>) -> Date
    decreases ts.len(),
{
    if ts.len() <= 1 {
        ts[0].date
    } else {
        let e = latest(ts.drop_last());
        if ts.last().date.number() > e.number() {
            ts.last().date
        } else {
            e
        }
    }
}

// ---------------------------------------------------------------------------
// Facts about the sums.

/// A prefix of a list of transactions has no larger sum without signs and no
/// wider scale than the list.
pub proof fn lemma_prefix_bounds(ts: Seq<Transaction>, k: int)
    requires
        0 <= k <= ts.len(),
    ensures
        abs_total(ts.take(k)) <= abs_total(ts),
        widest_scale(ts.take(k)) <= widest_scale(ts),
    decreases ts.len(),
{
    if k < ts.len() {
        assert(ts.take(k) =~= ts.drop_last().take(k));
        lemma_prefix_bounds(ts.drop_last(), k);
        assert(abs_key(ts.last().amount) >= 0);
    } else {
        assert(ts.take(k) =~= ts);
    }
}

/// The widest scale is that of some amount, so at most 28 where all amounts
/// are ones rust_decimal holds, and no amount has a wider one.
pub proof fn lemma_widest_scale(ts: Seq<Transaction>)
    ensures
        (forall|i: int| 0 <= i < ts.len() ==> (#[trigger] ts[i]).amount.wf()) ==> widest_scale(ts)
            <= 28,
        forall|i: int| 0 <= i < ts.len() ==> (#[trigger] ts[i]).amount.scale <= widest_scale(ts),
    decreases ts.len(),
{
    if ts.len() > 0 {
        lemma_widest_scale(ts.drop_last());
        assert forall|i: int| 0 <= i < ts.len() implies (#[trigger] ts[i]).amount.scale
            <= widest_scale(ts) by {
            if i < ts.len() - 1 {
                assert(ts.drop_last()[i] == ts[i]);
            }
        }
        if forall|i: int| 0 <= i < ts.len() ==> (#[trigger] ts[i]).amount.wf() {
            assert forall|i: int| 0 <= i < ts.drop_last().len() implies (#[trigger] ts.drop_last()[i]).amount.wf() by {
                assert(ts.drop_last()[i] == ts[i]);
            }
            assert(ts[ts.len() - 1].amount.wf());
        }
    }
}

/// Each partial sum lies within the sum without signs.
pub proof fn lemma_sums_bounded(ts: Seq<Transaction>, name: Seq<char>)
    ensures
        0 <= inflow_sum(ts) <= abs_total(ts),
        -abs_total(ts) <= outflow_sum(ts) <= 0,
        -abs_total(ts) <= category_sum(ts, name) <= abs_total(ts),
        inflow_sum(ts) - outflow_sum(ts) <= abs_total(ts),
    decreases ts.len(),
{
    if ts.len() > 0 {
        lemma_sums_bounded(ts.drop_last(), name);
    }
}

/// No category is named twice.
pub proof fn lemma_names_distinct(ts: Seq<Transaction>)
    ensures
        forall|i: int, j: int|
            0 <= i < j < category_names(ts).len() ==> category_names(ts)[i]
                != category_names(ts)[j],
    decreases ts.len(),
{
    if ts.len() > 0 {
        lemma_names_distinct(ts.drop_last());
        let names = category_names(ts.drop_last());
        let c = ts.last().category@;
        if !names.contains(c) {
            assert forall|i: int, j: int| 0 <= i < j < names.push(c).len() implies names.push(c)[i]
                != names.push(c)[j] by {
                if j == names.len() {
                    assert(names.push(c)[i] == names[i]);
                }
            }
        }
    }
}

/// A category that does not occur has a zero total.
pub proof fn lemma_absent_category(ts: Seq<Transaction>, name: Seq<char>)
    requires
        !category_names(ts).contains(name),
    ensures
        category_total(ts, name) == Some(Amount::zero_spec()),
        category_sum(ts, name) == 0,
    decreases ts.len(),
{
    if ts.len() > 0 {
        let names = category_names(ts.drop_last());
        if names.contains(ts.last().category@) {
            lemma_absent_category(ts.drop_last(), name);
        } else {
            assert(names.push(ts.last().category@).last() == ts.last().category@);
            assert forall|i: int| 0 <= i < names.len() implies names[i] != name by {
                assert(names.push(ts.last().category@)[i] == names[i]);
            }
            lemma_absent_category(ts.drop_last(), name);
        }
    }
}

/// A value within the bound for the widest scale is within the bound for any
/// narrower one.
pub proof fn lemma_within_scale(x: int, total: int, narrow: u32, wide: u32)
    requires
        -total <= x <= total,
        total < magnitude_limit() * pow10(28 - wide),
        narrow <= wide <= 28,
    ensures
        -(magnitude_limit() * pow10(28 - narrow)) < x < magnitude_limit() * pow10(28 - narrow),
{
    lemma_pow_increases(10, (28 - wide) as nat, (28 - narrow) as nat);
    let a = pow10(28 - wide);
    let b = pow10(28 - narrow);
    let m = magnitude_limit();
    assert(m * a <= m * b) by (nonlinear_arith)
        requires
            a <= b,
            m > 0,
    ;
}

/// The sum of the totals of the named categories, as keys.
pub open spec fn names_total(ts: Seq<Transaction>, names: Seq<Seq<char>>) -> int
    decreases names.len(),
{
    if names.len() == 0 {
        0
    } else {
        names_total(ts, names.drop_last()) + category_sum(ts, names.last())
    }
}

/// Adding a transaction to the list adds its value to the total of the names
/// that hold its category once.
proof fn lemma_names_total_push(ts: Seq<Transaction>, t: Transaction, names: Seq<Seq<char>>)
    requires
        forall|i: int, j: int| 0 <= i < j < names.len() ==> names[i] != names[j],
    ensures
        names_total(ts.push(t), names) == names_total(ts, names) + if names.contains(t.category@) {
            t.amount.key()
        } else {
            0
        },
    decreases names.len(),
{
    assert(ts.push(t).drop_last() =~= ts);
    if names.len() > 0 {
        let init = names.drop_last();
        lemma_names_total_push(ts, t, init);
        if names.last() == t.category@ {
            assert(!init.contains(t.category@)) by {
                if init.contains(t.category@) {
                    let q = choose|q: int| 0 <= q < init.len() && init[q] == t.category@;
                    assert(names[q] == names[names.len() - 1]);
                }
            }
            assert(names.contains(t.category@)) by {
                assert(names[names.len() - 1] == t.category@);
            }
        } else {
            assert(names.contains(t.category@) == init.contains(t.category@)) by {
                if names.contains(t.category@) {
                    let q = choose|q: int| 0 <= q < names.len() && names[q] == t.category@;
                    assert(init[q] == t.category@);
                }
                if init.contains(t.category@) {
                    let q = choose|q: int| 0 <= q < init.len() && init[q] == t.category@;
                    assert(names[q] == t.category@);
                }
            }
        }
    }
}

/// The category totals add up to the money in plus the money out: every
/// transaction counts in exactly one category.
pub proof fn law_categories_add_up(ts: Seq<Transaction>)
    ensures
        names_total(ts, category_names(ts)) == inflow_sum(ts) + outflow_sum(ts),
    decreases ts.len(),
{
    if ts.len() > 0 {
        let init = ts.drop_last();
        let t = ts.last();
        let c = t.category@;
        let names = category_names(init);
        law_categories_add_up(init);
        lemma_names_distinct(init);
        assert(init.push(t) =~= ts);
        lemma_names_total_push(init, t, names);
        if !names.contains(c) {
            lemma_absent_category(init, c);
            assert(names.push(c).drop_last() =~= names);
            assert(category_sum(ts, c) == t.amount.key());
        }
    }
}

/// The categories of a report are exactly those that occur, each once.
pub proof fn law_categories_are_those_occurring(ts: Seq<Transaction>)
    ensures
        forall|c: Seq<char>|
            #[trigger] category_names(ts).contains(c) <==> exists|i: int|
                0 <= i < ts.len() && (#[trigger] ts[i]).category@ == c,
        forall|i: int, j: int|
            0 <= i < j < category_names(ts).len() ==> category_names(ts)[i] != category_names(ts)[j],
    decreases ts.len(),
{
    lemma_names_distinct(ts);
    if ts.len() > 0 {
        let init = ts.drop_last();
        law_categories_are_those_occurring(init);
        let names = category_names(init);
        let last = ts.last().category@;
        assert forall|c: Seq<char>|
            #[trigger] category_names(ts).contains(c) <==> exists|i: int|
                0 <= i < ts.len() && (#[trigger] ts[i]).category@ == c by {
            if category_names(ts).contains(c) {
                if c == last {
                    assert(ts[ts.len() - 1].category@ == c);
                } else {
                    if !names.contains(last) {
                        let q = choose|q: int|
                            0 <= q < names.push(last).len() && names.push(last)[q] == c;
                        assert(names[q] == c);
                    }
                    assert(names.contains(c));
                    let i = choose|i: int| 0 <= i < init.len() && (#[trigger] init[i]).category@ == c;
                    assert(ts[i] == init[i]);
                }
            }
            if exists|i: int| 0 <= i < ts.len() && (#[trigger] ts[i]).category@ == c {
                let i = choose|i: int| 0 <= i < ts.len() && (#[trigger] ts[i]).category@ == c;
                if i == ts.len() - 1 {
                    if !names.contains(last) {
                        assert(names.push(last)[names.len() as int] == c);
                    }
                } else {
                    assert(init[i] == ts[i]);
                    assert(names.contains(c));
                    let q = choose|q: int| 0 <= q < names.len() && names[q] == c;
                    if !names.contains(last) {
                        assert(names.push(last)[q] == c);
                    }
                }
            }
        }
    }
}

/// The first and last dates of a list of transactions are dates of it, and
/// every date of it lies between them.
pub proof fn law_span_covers_dates(ts: Seq<Transaction>)
    requires
        ts.len() > 0,
    ensures
        exists|i: int| 0 <= i < ts.len() && (#[trigger] ts[i]).date == earliest(ts),
        exists|i: int| 0 <= i < ts.len() && (#[trigger] ts[i]).date == latest(ts),
        forall|i: int|
            0 <= i < ts.len() ==> earliest(ts).number() <= (#[trigger] ts[i]).date.number()
                <= latest(ts).number(),
    decreases ts.len(),
{
    if ts.len() == 1 {
        assert(ts[0].date == earliest(ts));
    } else {
        let init = ts.drop_last();
        law_span_covers_dates(init);
        let n = ts.len() - 1;
        let a = choose|i: int| 0 <= i < init.len() && (#[trigger] init[i]).date == earliest(init);
        let b = choose|i: int| 0 <= i < init.len() && (#[trigger] init[i]).date == latest(init);
        assert(ts[a] == init[a]);
        assert(ts[b] == init[b]);
        assert(ts[n] == ts.last());
        assert forall|i: int|
            0 <= i < ts.len() implies earliest(ts).number() <= (#[trigger] ts[i]).date.number()
                <= latest(ts).number() by {
            if i < n {
                assert(ts[i] == init[i]);
            }
        }
    }
}

/// An overflowed running total stays overflowed as the list goes on, and a
/// category named early stays named.
pub proof fn lemma_prefix_totals(ts: Seq<Transaction>, k: int, name: Seq<char>)
    requires
        0 <= k <= ts.len(),
    ensures
        inflow_total(ts.take(k)) is None ==> inflow_total(ts) is None,
        outflow_total(ts.take(k)) is None ==> outflow_total(ts) is None,
        category_total(ts.take(k), name) is None ==> category_total(ts, name) is None,
        category_names(ts.take(k)).contains(name) ==> category_names(ts).contains(name),
    decreases ts.len(),
{
    if k < ts.len() {
        let init = ts.drop_last();
        assert(ts.take(k) =~= init.take(k));
        lemma_prefix_totals(init, k, name);
        let names = category_names(init);
        if names.contains(name) && !names.contains(ts.last().category@) {
            let q = choose|q: int| 0 <= q < names.len() && names[q] == name;
            assert(names.push(ts.last().category@)[q] == name);
        }
    } else {
        assert(ts.take(k) =~= ts);
    }
}

// ---------------------------------------------------------------------------
// The report.

/// A report: the first and last dates, the money that came in and went out,
/// and the total of each category, in the order in which the categories first
/// occur.
pub struct Report {
    pub start_date: Date,
    pub end_date: Date,
    pub total_inflow: Amount,
    pub total_outflow: Amount,
    pub categories_total_flow: Vec<(String, Amount)>,
}

/// The report of no transactions: 1 January 1970 for both dates, zero for
/// every total, no categories.
pub open spec fn empty_report(r: Report) -> bool {
    &&& r.start_date == (Date { year: 1970, month: 1, day: 1 })
    &&& r.end_date == (Date { year: 1970, month: 1, day: 1 })
    &&& r.total_inflow == Amount::zero_spec()
    &&& r.total_outflow == Amount::zero_spec()
    &&& r.categories_total_flow@.len() == 0
}

impl Report {
    /// Dates that exist and amounts rust_decimal holds.
    pub open spec fn wf(self) -> bool {
        &&& self.start_date.wf()
        &&& self.end_date.wf()
        &&& self.total_inflow.wf()
        &&& self.total_outflow.wf()
        &&& forall|j: int|
            0 <= j < self.categories_total_flow@.len() ==> (#[trigger] self.categories_total_flow@[j]).1.wf()
    }
}

impl Default for Report {
    fn default() -> (r: Report)
        ensures
            empty_report(r),
    {
        Report {
            start_date: Date::default(),
            end_date: Date::default(),
            total_inflow: Amount::zero(),
            total_outflow: Amount::zero(),
            categories_total_flow: Vec::new(),
        }
    }
}

/// Every running total of a report over `tail` is one rust_decimal can add up
/// without overflow.
pub open spec fn report_sums_defined(tail: Seq<Transaction>) -> bool {
    &&& inflow_total(tail) is Some
    &&& outflow_total(tail) is Some
    &&& forall|j: int|
        0 <= j < category_names(tail).len() ==> (#[trigger] category_total(
            tail,
            category_names(tail)[j],
        )) is Some
}

/// Every amount is one rust_decimal holds.
pub open spec fn amounts_wf(ts: Seq<Transaction>) -> bool {
    forall|i: int| 0 <= i < ts.len() ==> (#[trigger] ts[i]).amount.wf()
}

/// What `Report::new` makes of a list with at least one transaction: the dates
/// span all of them; the totals are rust_decimal's running totals over all but
/// the first, exact where the amounts fit.
pub open spec fn report_of(r: Report, ts: Seq<Transaction>) -> bool {
    let tail = ts.skip(1);
    let names = category_names(tail);
    &&& r.start_date == earliest(ts)
    &&& r.end_date == latest(ts)
    &&& inflow_total(tail) == Some(r.total_inflow)
    &&& outflow_total(tail) == Some(r.total_outflow)
    &&& r.categories_total_flow@.len() == names.len()
    &&& forall|j: int|
        0 <= j < names.len() ==> {
            &&& (#[trigger] r.categories_total_flow@[j]).0@ == names[j]
            &&& category_total(tail, names[j]) == Some(r.categories_total_flow@[j].1)
        }
    &&& amounts_fit(tail) ==> {
        &&& r.total_inflow.key() == inflow_sum(tail)
        &&& r.total_outflow.key() == outflow_sum(tail)
        &&& forall|j: int|
            0 <= j < names.len() ==> (#[trigger] r.categories_total_flow@[j]).1.key()
                == category_sum(tail, names[j])
    }
}

/// The running totals of money in and out match those of `done`; where the
/// whole list's amounts fit, they are exact.
pub open spec fn flows_match(inflow: Amount, outflow: Amount, done: Seq<Transaction>, exact: bool) -> bool {
    &&& inflow_total(done) == Some(inflow)
    &&& outflow_total(done) == Some(outflow)
    &&& inflow.wf()
    &&& outflow.wf()
    &&& exact ==> {
        &&& inflow.key() == inflow_sum(done)
        &&& inflow.scale <= widest_scale(done)
        &&& outflow.key() == outflow_sum(done)
        &&& outflow.scale <= widest_scale(done)
    }
}

/// The running category totals match those of `done`; where the whole list's
/// amounts fit, they are exact.
pub open spec fn categories_match(cats: Seq<(String, Amount)>, done: Seq<Transaction>, exact: bool) -> bool {
    let names = category_names(done);
    &&& cats.len() == names.len()
    &&& forall|j: int|
        0 <= j < names.len() ==> {
            &&& (#[trigger] cats[j]).0@ == names[j]
            &&& category_total(done, names[j]) == Some(cats[j].1)
            &&& cats[j].1.wf()
            &&& exact ==> cats[j].1.key() == category_sum(done, names[j]) && cats[j].1.scale
                <= widest_scale(done)
        }
}

/// A prefix of transactions whose amounts fit has amounts that fit.
pub proof fn lemma_prefix_fits(ts: Seq<Transaction>, k: int)
    requires
        0 <= k <= ts.len(),
        amounts_fit(ts),
    ensures
        amounts_fit(ts.take(k)),
{
    lemma_prefix_bounds(ts, k);
    lemma_widest_scale(ts);
    let p = ts.take(k);
    assert forall|i: int| 0 <= i < p.len() implies (#[trigger] p[i]).amount.wf() by {
        assert(p[i] == ts[i]);
    }
    lemma_sums_bounded(p, seq![]);
    lemma_within_scale(abs_total(p), abs_total(ts), widest_scale(p), widest_scale(ts));
}

/// Where the amounts fit, rust_decimal's running totals of the money in and
/// out, where they do not overflow, are exact.
pub proof fn lemma_flow_totals_exact(ts: Seq<Transaction>)
    requires
        amounts_fit(ts),
    ensures
        inflow_total(ts) matches Some(x) ==> x.key() == inflow_sum(ts) && x.wf() && x.scale
            <= widest_scale(ts),
        outflow_total(ts) matches Some(x) ==> x.key() == outflow_sum(ts) && x.wf() && x.scale
            <= widest_scale(ts),
    decreases ts.len(),
{
    if ts.len() == 0 {
        lemma_key_sign(Amount::zero_spec());
    } else {
        let init = ts.drop_last();
        lemma_prefix_fits(ts, ts.len() - 1);
        assert(ts.take(ts.len() - 1) =~= init);
        lemma_flow_totals_exact(init);
        lemma_widest_scale(ts);
        lemma_sums_bounded(ts, seq![]);
        let a = ts.last();
        assert(ts[ts.len() - 1] == a);
        let total = abs_total(ts);
        let wide = widest_scale(ts);
        if a.amount.key() > 0 {
            if let Some(x) = inflow_total(init) {
                lemma_within_scale(
                    inflow_sum(ts),
                    total,
                    max_scale(x.scale, a.amount.scale),
                    wide,
                );
                crate::amount::lemma_exact_sum(x, a.amount);
            }
        }
        if a.amount.key() < 0 {
            if let Some(x) = outflow_total(init) {
                lemma_within_scale(
                    outflow_sum(ts),
                    total,
                    max_scale(x.scale, a.amount.scale),
                    wide,
                );
                crate::amount::lemma_exact_sum(x, a.amount);
            }
        }
    }
}

/// Moves the first and last dates out to take in `d`.
fn widen_span(start: &mut Date, end: &mut Date, d: Date)
    requires
        old(start).wf(),
        old(end).wf(),
        d.wf(),
        old(start).number() <= old(end).number(),
    ensures
        *final(start) == (if d.number() < old(start).number() {
            d
        } else {
            *old(start)
        }),
        *final(end) == (if d.number() > old(end).number() {
            d
        } else {
            *old(end)
        }),
        final(start).wf(),
        final(end).wf(),
        final(start).number() <= final(end).number(),
{
    if !start.on_or_before(&d) {
        *start = d;
    } else if !d.on_or_before(end) {
        *end = d;
    }
}

/// Adds the amount of `t` to the money in or out, by its sign; `false` where
/// that addition overflows.
pub(crate) fn add_flow(
    inflow: &mut Amount,
    outflow: &mut Amount,
    t: &Transaction,
    Ghost(done): Ghost<Seq<Transaction>>,
    Ghost(exact): Ghost<bool>,
) -> (r: bool)
    requires
        flows_match(*old(inflow), *old(outflow), done, exact),
        t.amount.wf(),
        exact ==> amounts_fit(done.push(*t)),
    ensures
        r == (inflow_total(done.push(*t)) is Some && outflow_total(done.push(*t)) is Some),
        r ==> flows_match(*final(inflow), *final(outflow), done.push(*t), exact),
{
    let ghost next = done.push(*t);
    proof {
        assert(next.drop_last() =~= done);
        lemma_widest_scale(next);
        lemma_sums_bounded(done, seq![]);
        assert(next[next.len() - 1] == *t);
        if exact {
            lemma_within_scale(
                inflow.key() + t.amount.key(),
                abs_total(next),
                max_scale(inflow.scale, t.amount.scale),
                widest_scale(next),
            );
            lemma_within_scale(
                outflow.key() + t.amount.key(),
                abs_total(next),
                max_scale(outflow.scale, t.amount.scale),
                widest_scale(next),
            );
        }
    }
    if t.amount.is_positive() {
        match inflow.checked_plus(&t.amount) {
            Some(x) => *inflow = x,
            None => return false,
        }
    } else if t.amount.is_negative() {
        match outflow.checked_plus(&t.amount) {
            Some(x) => *outflow = x,
            None => return false,
        }
    }
    true
}

/// The position of the entry named `name`, if there is one.
fn find_category(cats: &Vec<(String, Amount)>, name: &String) -> (r: Option<usize>)
    ensures
        r matches Some(k) ==> k < cats@.len() && cats@[k as int].0@ == name@,
        r is None ==> forall|q: int| 0 <= q < cats@.len() ==> (#[trigger] cats@[q]).0@ != name@,
{
    let mut k: usize = 0;
    while k < cats.len()
        invariant
            k <= cats@.len(),
            forall|q: int| 0 <= q < k ==> (#[trigger] cats@[q]).0@ != name@,
        decreases cats@.len() - k,
    {
        if cats[k].0 == *name {
            return Some(k);
        }
        k = k + 1;
    }
    None
}

/// Adds the amount of `t` to the total of its category, making an entry for
/// the category where it has none; `false` where that addition overflows.
fn add_to_category(
    cats: &mut Vec<(String, Amount)>,
    t: &Transaction,
    Ghost(done): Ghost<Seq<Transaction>>,
    Ghost(exact): Ghost<bool>,
) -> (r: bool)
    requires
        categories_match(old(cats)@, done, exact),
        t.amount.wf(),
        exact ==> amounts_fit(done.push(*t)),
    ensures
        r == (category_total(done.push(*t), t.category@) is Some),
        r ==> categories_match(final(cats)@, done.push(*t), exact),
{
    let ghost next = done.push(*t);
    let ghost names = category_names(done);
    let ghost c = t.category@;
    let ghost old_cats = cats@;
    proof {
        assert(next.drop_last() =~= done);
        lemma_widest_scale(next);
        assert(next[next.len() - 1] == *t);
    }
    match find_category(cats, &t.category) {
        Some(k) => {
            let total = cats[k].1;
            proof {
                lemma_sums_bounded(done, c);
                if exact {
                    lemma_within_scale(
                        total.key() + t.amount.key(),
                        abs_total(next),
                        max_scale(total.scale, t.amount.scale),
                        widest_scale(next),
                    );
                }
                assert(names[k as int] == c);
            }
            let sum = match total.checked_plus(&t.amount) {
                Some(x) => x,
                None => return false,
            };
            let (name, _) = cats.remove(k);
            cats.insert(k, (name, sum));
            proof {
                assert(names.contains(c));
                assert(category_names(next) == names);
                lemma_names_distinct(done);
                assert forall|j: int| 0 <= j < names.len() implies {
                    &&& (#[trigger] cats@[j]).0@ == names[j]
                    &&& category_total(next, names[j]) == Some(cats@[j].1)
                    &&& cats@[j].1.wf()
                    &&& exact ==> cats@[j].1.key() == category_sum(next, names[j]) && cats@[j].1.scale
                        <= widest_scale(next)
                } by {
                    if j != k {
                        assert(cats@[j] == old_cats[j]);
                        assert(names[j] != c);
                    } else {
                        assert(cats@[j] == (name, sum));
                        assert(name == old_cats[j].0);
                    }
                }
            }
        },
        None => {
            proof {
                assert(!names.contains(c)) by {
                    if names.contains(c) {
                        let q = choose|q: int| 0 <= q < names.len() && names[q] == c;
                        assert(old_cats[q].0@ == c);
                    }
                }
                lemma_absent_category(done, c);
                lemma_key_sign(Amount::zero_spec());
                lemma_sums_bounded(next, c);
                if exact {
                    lemma_within_scale(
                        t.amount.key(),
                        abs_total(next),
                        max_scale(0, t.amount.scale),
                        widest_scale(next),
                    );
                }
            }
            let zero = Amount::zero();
            let sum = match zero.checked_plus(&t.amount) {
                Some(x) => x,
                None => return false,
            };
            cats.push((t.category.clone(), sum));
            proof {
                assert(category_names(next) == names.push(c));
                assert forall|j: int| 0 <= j < names.len() + 1 implies {
                    &&& (#[trigger] cats@[j]).0@ == names.push(c)[j]
                    &&& category_total(next, names.push(c)[j]) == Some(cats@[j].1)
                    &&& cats@[j].1.wf()
                    &&& exact ==> cats@[j].1.key() == category_sum(next, names.push(c)[j])
                        && cats@[j].1.scale <= widest_scale(next)
                } by {
                    if j < names.len() {
                        assert(cats@[j] == old_cats[j]);
                        assert(names.push(c)[j] == names[j]);
                        assert(names[j] != c);
                    }
                }
            }
        },
    }
    true
}

impl Report {
    /// The report of a list of transactions, or `None` where rust_decimal's
    /// `+` overflows on one of its running totals. With no transactions, the
    /// empty report. Otherwise the first and last of all the dates, and, over
    /// all the transactions but the first, the money that came in (values
    /// above zero), the money that went out (values below zero), and the total
    /// of each category, in the order in which the categories first occur, each
    /// added up as rust_decimal adds (exact where the amounts fit).
    #[verifier::rlimit(50)]
    #[verifier::spinoff_prover]
    pub fn try_new(transactions: Vec<Transaction>) -> (r: Option<Report>)
        requires
            forall|i: int| 0 <= i < transactions@.len() ==> (#[trigger] transactions@[i]).date.wf(),
            amounts_wf(transactions@),
        ensures
            transactions@.len() == 0 ==> (r matches Some(x) && empty_report(x)),
            transactions@.len() > 0 ==> (r is Some <==> report_sums_defined(transactions@.skip(1))),
            transactions@.len() > 0 ==> (r matches Some(x) ==> report_of(x, transactions@)),
            r matches Some(x) ==> x.wf(),
            r matches Some(x) ==> (amounts_fit(transactions@.skip(1)) ==> x.total_inflow.key() >= 0
                && x.total_outflow.key() <= 0),
    {
        let n = transactions.len();
        if n == 0 {
            let r = Report::default();
            proof {
                lemma_key_sign(Amount::zero_spec());
            }
            return Some(r);
        }
        let ghost ts = transactions@;
        let ghost tail = ts.skip(1);
        let ghost exact = amounts_fit(tail);
        let mut start = transactions[0].date;
        let mut end = start;
        let mut inflow = Amount::zero();
        let mut outflow = Amount::zero();
        let mut cats: Vec<(String, Amount)> = Vec::new();
        proof {
            lemma_key_sign(Amount::zero_spec());
            assert(tail.take(0) =~= Seq::<Transaction>::empty());
            assert(ts.take(1)[0] == ts[0]);
        }
        let mut i: usize = 1;
        while i < n
            invariant
                n == transactions@.len(),
                ts == transactions@,
                tail == ts.skip(1),
                1 <= i <= n,
                forall|k: int| 0 <= k < ts.len() ==> (#[trigger] ts[k]).date.wf(),
                amounts_wf(ts),
                exact == amounts_fit(tail),
                start == earliest(ts.take(i as int)),
                end == latest(ts.take(i as int)),
                start.wf(),
                end.wf(),
                start.number() <= end.number(),
                flows_match(inflow, outflow, tail.take(i - 1), exact),
                categories_match(cats@, tail.take(i - 1), exact),
            decreases n - i,
        {
            let t = &transactions[i];
            let ghost done = tail.take(i - 1);
            proof {
                assert(tail.take(i as int) =~= done.push(*t));
                assert(ts.take(i + 1).drop_last() =~= ts.take(i as int));
                assert(ts.take(i + 1).last() == ts[i as int]);
                assert(t.amount.wf());
                if exact {
                    lemma_prefix_fits(tail, i as int);
                }
                lemma_prefix_totals(tail, i as int, t.category@);
                assert(category_names(tail.take(i as int)).contains(t.category@)) by {
                    let next = tail.take(i as int);
                    assert(next.drop_last() =~= done);
                    let nm = category_names(done);
                    if nm.contains(t.category@) {
                    } else {
                        assert(nm.push(t.category@)[nm.len() as int] == t.category@);
                    }
                }
            }
            widen_span(&mut start, &mut end, t.date);
            if !add_flow(&mut inflow, &mut outflow, t, Ghost(done), Ghost(exact)) {
                return None;
            }
            if !add_to_category(&mut cats, t, Ghost(done), Ghost(exact)) {
                proof {
                    let q = choose|q: int|
                        0 <= q < category_names(tail).len() && category_names(tail)[q] == t.category@;
                    assert(category_total(tail, category_names(tail)[q]) is None);
                }
                return None;
            }
            i = i + 1;
        }
        proof {
            assert(ts.take(n as int) =~= ts);
            assert(tail.take(n - 1) =~= tail);
            lemma_sums_bounded(tail, seq![]);
            let names = category_names(tail);
            assert forall|j: int| 0 <= j < names.len() implies (#[trigger] category_total(
                tail,
                names[j],
            )) is Some by {
                assert(cats@[j].0@ == names[j]);
            }
        }
        Some(
            Report {
                start_date: start,
                end_date: end,
                total_inflow: inflow,
                total_outflow: outflow,
                categories_total_flow: cats,
            },
        )
    }

    /// The report of a list of transactions (see `try_new`), where none of its
    /// running totals overflows in rust_decimal.
    pub fn new(transactions: Vec<Transaction>) -> (r: Report)
        requires
            forall|i: int| 0 <= i < transactions@.len() ==> (#[trigger] transactions@[i]).date.wf(),
            amounts_wf(transactions@),
            transactions@.len() > 0 ==> report_sums_defined(transactions@.skip(1)),
        ensures
            transactions@.len() == 0 ==> empty_report(r),
            transactions@.len() > 0 ==> report_of(r, transactions@),
            r.wf(),
            amounts_fit(transactions@.skip(1)) ==> r.total_inflow.key() >= 0 && r.total_outflow.key()
                <= 0,
    {
        let ghost ts = transactions@;
        match Report::try_new(transactions) {
            Some(r) => r,
            None => {
                assert(false);
                Report::default()
            },
        }
    }
}

} // verus!
