//! The terminal stage: per-record latency and the cycle's percentiles.
use vstd::prelude::*;
use vstd::relations::{sorted_by, total_ordering};

use crate::codec::TimingRecord;

verus! {

/// Integer division rounding toward zero, as Rust's `/` does.
pub open spec fn trunc_div(a: int, d: int) -> int {
    if a >= 0 {
        a / d
    } else {
        -((-a) / d)
    }
}

/// Ascending order on samples.
pub open spec fn ascending() -> spec_fn(i64, i64) -> bool {
    |a: i64, b: i64| a <= b
}

/// Percentiles of one completed cycle, in microseconds.
#[derive(Debug, Clone, Copy, PartialEq, Eq, Structural)]
pub struct Report {
    pub p50_us: i64,
    pub p90_us: i64,
}

/// The report read from an ascending buffer: the elements at `len / 2` and
/// `len * 9 / 10`, each divided by 1000.
pub open spec fn report_of(sorted: Seq<i64>) -> Report
    recommends
        sorted.len() > 0,
{
    Report {
        p50_us: trunc_div(sorted[sorted.len() as int / 2] as int, 1000) as i64,
        p90_us: trunc_div(sorted[sorted.len() as int * 9 / 10] as int, 1000) as i64,
    }
}

/// The report of a cycle whose samples are `samples`, in any order.
pub open spec fn cycle_report(samples: Seq<i64>) -> Report {
    report_of(samples.sort_by(ascending()))
}

/// Transit time per stage: the elapsed time divided by the number of stages
/// (`hops` relays plus the sink).
pub fn latency(now: i64, origin: i64, hops: u32) -> (r: i64)
    requires
        i64::MIN <= now - origin <= i64::MAX,
    ensures
        r as int == trunc_div(now - origin, hops + 1),
{
    let d: i128 = now as i128 - origin as i128;
    let h: i128 = hops as i128 + 1;
    if d >= 0 {
        assert(d / h <= d) by (nonlinear_arith)
            requires
                d >= 0,
                h >= 1,
        ;
        (d / h) as i64
    } else {
        let m: i128 = -d;
        assert(0 <= m / h <= m) by (nonlinear_arith)
            requires
                m >= 0,
                h >= 1,
        ;
        (-(m / h)) as i64
    }
}

/// Reads the percentiles from an ascending buffer.
pub fn percentiles(sorted: &Vec<i64>) -> (r: Report)
    requires
        sorted@.len() > 0,
        sorted@.len() <= usize::MAX / 9,
    ensures
        r == report_of(sorted@),
{
    let n = sorted.len();
    let a = sorted[n / 2];
    let b = sorted[n * 9 / 10];
    Report { p50_us: a / 1000, p90_us: b / 1000 }
}

/// Relies on `slice::sort`: the same values, in ascending order.
#[verifier::external_body]
fn sort_ascending(v: &mut Vec<i64>)
    ensures
        final(v)@.to_multiset() == old(v)@.to_multiset(),
        sorted_by(final(v)@, ascending()),
{
    v.sort()
}

proof fn lemma_ascending_total()
    ensures
        total_ordering(ascending()),
{
}

/// A buffer sorted ascending is the sorted form of any buffer with the same
/// values.
proof fn lemma_is_sort_of(sorted: Seq<i64>, samples: Seq<i64>)
    requires
        sorted.to_multiset() == samples.to_multiset(),
        sorted_by(sorted, ascending()),
    ensures
        sorted == samples.sort_by(ascending()),
{
    lemma_ascending_total();
    samples.lemma_sort_by_ensures(ascending());
    vstd::seq_lib::lemma_sorted_unique(sorted, samples.sort_by(ascending()), ascending());
}

/// The report does not depend on the order in which samples arrived: two
/// buffers holding the same values give the same percentiles.
pub proof fn lemma_report_order_free(a: Seq<i64>, b: Seq<i64>)
    requires
        a.to_multiset() == b.to_multiset(),
    ensures
        cycle_report(a) == cycle_report(b),
{
    lemma_ascending_total();
    a.lemma_sort_by_ensures(ascending());
    lemma_is_sort_of(a.sort_by(ascending()), b);
}

/// Collects one cycle of latency samples and reports its percentiles.
pub struct Sink {
    hops: u32,
    cycle_size: usize,
    samples: Vec<i64>,
}

impl Sink {
    /// Relays in front of this sink.
    pub closed spec fn hops_spec(&self) -> u32 {
        self.hops
    }

    /// Samples per cycle.
    pub closed spec fn cycle_size_spec(&self) -> nat {
        self.cycle_size as nat
    }

    /// Samples of the current cycle, in arrival order.
    pub closed spec fn samples_spec(&self) -> Seq<i64> {
        self.samples@
    }

    /// A cycle is never full between calls.
    pub closed spec fn wf(&self) -> bool {
        &&& 0 < self.cycle_size <= usize::MAX / 9
        &&& self.samples@.len() < self.cycle_size
    }

    /// A sink behind `hops` relays whose cycles hold `cycle_size` samples.
    pub fn new(hops: u32, cycle_size: usize) -> (s: Sink)
        requires
            0 < cycle_size <= usize::MAX / 9,
        ensures
            s.wf(),
            s.hops_spec() == hops,
            s.cycle_size_spec() == cycle_size,
            s.samples_spec() == Seq::<i64>::empty(),
    {
        Sink { hops, cycle_size, samples: Vec::new() }
    }

    /// Relays in front of this sink.
    pub fn hops(&self) -> (r: u32)
        ensures
            r == self.hops_spec(),
    {
        self.hops
    }

    /// Samples per cycle.
    pub fn cycle_size(&self) -> (r: usize)
        ensures
            r == self.cycle_size_spec(),
    {
        self.cycle_size
    }

    /// Samples gathered so far in the current cycle.
    pub fn pending(&self) -> (r: usize)
        ensures
            r == self.samples_spec().len(),
    {
        self.samples.len()
    }

    /// Appends one sample. When it completes the cycle, the buffer is sorted,
    /// its percentiles are returned, and it is emptied for the next cycle.
    pub fn add_sample(&mut self, sample: i64) -> (r: Option<Report>)
        requires
            old(self).wf(),
        ensures
            final(self).wf(),
            final(self).hops_spec() == old(self).hops_spec(),
            final(self).cycle_size_spec() == old(self).cycle_size_spec(),
            old(self).samples_spec().len() + 1 < old(self).cycle_size_spec() ==> {
                &&& r is None
                &&& final(self).samples_spec() == old(self).samples_spec().push(sample)
            },
            old(self).samples_spec().len() + 1 == old(self).cycle_size_spec() ==> {
                &&& r == Some(cycle_report(old(self).samples_spec().push(sample)))
                &&& final(self).samples_spec().len() == 0
            },
    {
        self.samples.push(sample);
        if self.samples.len() < self.cycle_size {
            return None;
        }
        let ghost all = self.samples@;
        sort_ascending(&mut self.samples);
        proof {
            lemma_is_sort_of(self.samples@, all);
            vstd::seq_lib::to_multiset_len(self.samples@);
            vstd::seq_lib::to_multiset_len(all);
        }
        let report = percentiles(&self.samples);
        self.samples.clear();
        Some(report)
    }

    /// Takes in a record that reached the sink at `now`.
    pub fn receive(&mut self, rec: &TimingRecord, now: i64) -> (r: Option<Report>)
        requires
            old(self).wf(),
            i64::MIN <= now - rec.origin_nanos <= i64::MAX,
        ensures
            ({
                let sample = trunc_div(now - rec.origin_nanos, old(self).hops_spec() + 1) as i64;
                &&& final(self).wf()
                &&& final(self).hops_spec() == old(self).hops_spec()
                &&& final(self).cycle_size_spec() == old(self).cycle_size_spec()
                &&& old(self).samples_spec().len() + 1 < old(self).cycle_size_spec() ==> {
                    &&& r is None
                    &&& final(self).samples_spec() == old(self).samples_spec().push(sample)
                }
                &&& old(self).samples_spec().len() + 1 == old(self).cycle_size_spec() ==> {
                    &&& r == Some(cycle_report(old(self).samples_spec().push(sample)))
                    &&& final(self).samples_spec().len() == 0
                }
            }),
    {
        let sample = latency(now, rec.origin_nanos, self.hops);
        self.add_sample(sample)
    }
}

} // verus!
