//! Progress of a build, as whole percentages of the bytes that the sizing pass counted.

use vstd::arithmetic::div_mod::lemma_div_is_ordered;
use vstd::prelude::*;

verus! {

/// Percentage of `total` that `processed` bytes make, rounded down and clamped
/// to 100; an empty total counts as done.
pub open spec fn spec_percent(processed: int, total: int) -> int {
    if total <= 0 {
        100
    } else if processed * 100 / total > 100 {
        100
    } else {
        processed * 100 / total
    }
}

/// `a + b`, saturated at the largest 64-bit value.
pub open spec fn saturating_sum(a: int, b: int) -> int {
    if a + b > u64::MAX {
        u64::MAX as int
    } else {
        a + b
    }
}

/// Every report is at most 100 and none is smaller than one before it.
pub open spec fn reports_ordered(reports: Seq<u8>) -> bool {
    &&& forall|i: int| 0 <= i < reports.len() ==> #[trigger] reports[i] <= 100
    &&& forall|i: int, j: int| 0 <= i <= j < reports.len() ==> reports[i] <= reports[j]
}

/// Percentage of `total` that `processed` bytes make, clamped to 100.
pub fn progress_percent(processed: u64, total: u64) -> (r: u8)
    ensures
        r == spec_percent(processed as int, total as int),
{
    if total == 0 {
        return 100;
    }
    let scaled: u128 = processed as u128 * 100;
    let p: u128 = scaled / total as u128;
    if p > 100 {
        100
    } else {
        p as u8
    }
}

/// Having processed the whole total is 100 percent.
pub proof fn lemma_percent_complete(total: nat)
    ensures
        spec_percent(total as int, total as int) == 100,
{
    if total > 0 {
        assert(total * 100 / total == 100) by (nonlinear_arith)
            requires
                total > 0,
        ;
    }
}

/// More bytes processed never lowers the percentage, and it never exceeds 100.
pub proof fn lemma_percent_monotone(a: nat, b: nat, total: nat)
    requires
        a <= b,
    ensures
        spec_percent(a as int, total as int) <= spec_percent(b as int, total as int),
        spec_percent(b as int, total as int) <= 100,
        0 <= spec_percent(a as int, total as int),
{
    if total > 0 {
        assert(a * 100 <= b * 100) by (nonlinear_arith)
            requires
                a <= b,
        ;
        lemma_div_is_ordered(a as int * 100, b as int * 100, total as int);
        assert(a * 100 / total >= 0) by (nonlinear_arith)
            requires
                total > 0,
        ;
    }
}

/// The running count of bytes written and the percentages reported so far.
pub struct ProgressLog {
    processed: u64,
    total: u64,
    reports: Vec<u8>,
}

impl ProgressLog {
    /// Bytes written so far.
    pub closed spec fn processed(&self) -> nat {
        self.processed as nat
    }

    /// The count of bytes written fits in 64 bits.
    pub proof fn lemma_processed_bounded(&self)
        ensures
            self.processed() <= u64::MAX,
    {
    }

    /// Bytes that the sizing pass counted.
    pub closed spec fn total(&self) -> nat {
        self.total as nat
    }

    /// Percentages reported so far, oldest first.
    pub closed spec fn reports(&self) -> Seq<u8> {
        self.reports@
    }

    /// The reports are ordered and the last one is the current percentage.
    pub closed spec fn wf(&self) -> bool {
        &&& reports_ordered(self.reports@)
        &&& self.reports@.len() > 0 ==> self.reports@.last() == spec_percent(
            self.processed as int,
            self.total as int,
        )
    }

    /// A log with nothing processed of `total` bytes.
    pub fn new(total: u64) -> (r: Self)
        ensures
            r.wf(),
            r.processed() == 0,
            r.total() == total,
            r.reports() == Seq::<u8>::empty(),
    {
        ProgressLog { processed: 0, total, reports: Vec::new() }
    }

    /// Records that `n` more bytes were written and reports the new percentage.
    pub fn advance(&mut self, n: u64)
        requires
            old(self).wf(),
        ensures
            final(self).wf(),
            final(self).total() == old(self).total(),
            final(self).processed() == saturating_sum(old(self).processed() as int, n as int),
            final(self).reports() == old(self).reports().push(
                spec_percent(final(self).processed() as int, old(self).total() as int) as u8,
            ),
    {
        let processed = if n > u64::MAX - self.processed {
            u64::MAX
        } else {
            self.processed + n
        };
        let p = progress_percent(processed, self.total);
        proof {
            lemma_percent_monotone(self.processed as nat, processed as nat, self.total as nat);
        }
        self.processed = processed;
        self.reports.push(p);
    }

    /// The percentages reported so far, oldest first.
    pub fn report_list(&self) -> (r: &Vec<u8>)
        ensures
            r@ == self.reports(),
    {
        &self.reports
    }

    /// Gives up the log for the percentages it reported.
    pub fn into_reports(self) -> (r: Vec<u8>)
        requires
            self.wf(),
        ensures
            r@ == self.reports(),
            reports_ordered(r@),
            r@.len() > 0 ==> r@.last() == spec_percent(self.processed() as int, self.total() as int),
    {
        self.reports
    }
}

} // verus!
