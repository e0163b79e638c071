//! Statistics gathered over repeated probes: latency extremes, mean and
//! median, response-size extremes, and a tally of status codes.
use vstd::prelude::*;
use vstd::string::StringExecFns;
use crate::response::{strings_view, HttpReturn};
use crate::status::{status_code, status_of};

verus! {

/// Why one probe produced no statistics.
#[derive(Clone, Copy, Debug, PartialEq, Eq, Structural)]
pub enum ProbeError {
    /// The host could not be resolved or the connection was refused.
    Connection,
    /// The request could not be written in full.
    Write,
    /// The response could not be read.
    Read,
    /// The response has no status line with a status code.
    MalformedResponse,
    /// A command-line argument was missing or invalid.
    InvalidArgument,
}

/// Latencies as integers.
pub open spec fn lat_ints(s: Seq<u128>) -> Seq<int> {
    s.map_values(|x: u128| x as int)
}

/// Sizes as integers.
pub open spec fn size_ints(s: Seq<usize>) -> Seq<int> {
    s.map_values(|x: usize| x as int)
}

/// The least element of a non-empty sequence.
pub open spec fn min_of(s: Seq<int>) -> int
    decreases s.len(),
{
    if s.len() <= 1 {
        if s.len() == 0 { 0 } else { s[0] }
    } else {
        let m = min_of(s.drop_last());
        if s.last() < m { s.last() } else { m }
    }
}

/// The greatest element of a non-empty sequence.
pub open spec fn max_of(s: Seq<int>) -> int
    decreases s.len(),
{
    if s.len() <= 1 {
        if s.len() == 0 { 0 } else { s[0] }
    } else {
        let m = max_of(s.drop_last());
        if s.last() > m { s.last() } else { m }
    }
}

/// The sum of a sequence.
pub open spec fn sum_of(s: Seq<int>) -> int
    decreases s.len(),
{
    if s.len() == 0 { 0 } else { sum_of(s.drop_last()) + s.last() }
}

/// How often `c` occurs in `codes`.
pub open spec fn count_of(codes: Seq<Seq<char>>, c: Seq<char>) -> nat
    decreases codes.len(),
{
    if codes.len() == 0 {
        0
    } else {
        count_of(codes.drop_last(), c) + if codes.last() == c { 1nat } else { 0nat }
    }
}

/// `table` lists each code of `codes` once, with the number of times it occurs.
pub open spec fn tabulates(table: Seq<(String, usize)>, codes: Seq<Seq<char>>) -> bool {
    &&& forall|i: int, j: int|
        0 <= i < j < table.len() ==> (#[trigger] table[i]).0@ != (#[trigger] table[j]).0@
    &&& forall|i: int|
        0 <= i < table.len() ==> (#[trigger] table[i]).1 == count_of(codes, table[i].0@)
            && table[i].1 > 0
    &&& forall|k: int|
        0 <= k < codes.len() ==> exists|i: int|
            0 <= i < table.len() && (#[trigger] table[i]).0@ == #[trigger] codes[k]
}

/// Whether `s` is in ascending order.
pub open spec fn ascending(s: Seq<u128>) -> bool {
    forall|i: int, j: int| 0 <= i <= j < s.len() ==> s[i] <= s[j]
}

/// `m` is the element at index `len / 2` once `s` is sorted ascending
/// (the upper middle element where the length is even).
pub open spec fn is_upper_median(s: Seq<u128>, m: u128) -> bool {
    exists|t: Seq<u128>|
        ascending(t) && t.len() == s.len() && #[trigger] t.to_multiset() == s.to_multiset() && m
            == t[(s.len() / 2) as int]
}

/// The least and the greatest element bound every element.
pub proof fn lemma_extremes_bound(s: Seq<int>)
    ensures
        forall|i: int| 0 <= i < s.len() ==> min_of(s) <= #[trigger] s[i] <= max_of(s),
    decreases s.len(),
{
    if s.len() > 1 {
        lemma_extremes_bound(s.drop_last());
        assert forall|i: int| 0 <= i < s.len() implies min_of(s) <= #[trigger] s[i] <= max_of(s) by {
            if i < s.len() - 1 {
                assert(s.drop_last()[i] == s[i]);
            }
        }
    }
}

proof fn lemma_count_bound(codes: Seq<Seq<char>>, c: Seq<char>)
    ensures
        count_of(codes, c) <= codes.len(),
    decreases codes.len(),
{
    if codes.len() > 0 {
        lemma_count_bound(codes.drop_last(), c);
    }
}

proof fn lemma_count_absent(codes: Seq<Seq<char>>, c: Seq<char>)
    requires
        forall|k: int| 0 <= k < codes.len() ==> codes[k] != c,
    ensures
        count_of(codes, c) == 0,
    decreases codes.len(),
{
    if codes.len() > 0 {
        lemma_count_absent(codes.drop_last(), c);
    }
}

/// Adds one occurrence of `code` to `table`.
fn tally(table: &mut Vec<(String, usize)>, codes: Ghost<Seq<Seq<char>>>, code: String)
    requires
        tabulates(old(table)@, codes@),
        codes@.len() < usize::MAX,
    ensures
        tabulates(final(table)@, codes@.push(code@)),
{
    let ghost cs = codes@;
    let ghost ncs = cs.push(code@);
    assert(ncs.drop_last() =~= cs);
    proof {
        lemma_count_bound(cs, code@);
    }
    let n = table.len();
    let mut i: usize = 0;
    while i < n && table[i].0 != code
        invariant
            i <= n == table@.len(),
            forall|j: int| 0 <= j < i ==> (#[trigger] table@[j]).0@ != code@,
        decreases n - i,
    {
        i = i + 1;
    }
    let ghost before = table@;
    if i < n {
        let cnt = table[i].1;
        table.set(i, (code, cnt + 1));
        assert forall|j: int| 0 <= j < table@.len() implies (#[trigger] table@[j]).1 == count_of(
            ncs,
            table@[j].0@,
        ) && table@[j].1 > 0 by {
            if j != i {
                assert(before[j].0@ != before[i as int].0@);
            }
        }
        assert forall|k: int| 0 <= k < ncs.len() implies exists|j: int|
            0 <= j < table@.len() && (#[trigger] table@[j]).0@ == #[trigger] ncs[k] by {
            if k < cs.len() {
                assert(ncs[k] == cs[k]);
                let j = choose|j: int| 0 <= j < before.len() && (#[trigger] before[j]).0@ == cs[k];
                assert(table@[j].0@ == ncs[k]);
            } else {
                assert(table@[i as int].0@ == ncs[k]);
            }
        }
    } else {
        assert forall|k: int| 0 <= k < cs.len() implies cs[k] != code@ by {
            let j = choose|j: int| 0 <= j < before.len() && (#[trigger] before[j]).0@ == cs[k];
            assert(before[j].0@ != code@);
        }
        proof {
            lemma_count_absent(cs, code@);
        }
        table.push((code, 1));
        assert forall|j: int| 0 <= j < table@.len() implies (#[trigger] table@[j]).1 == count_of(
            ncs,
            table@[j].0@,
        ) && table@[j].1 > 0 by {
            if j < n {
                assert(table@[j] == before[j]);
            }
        }
        assert forall|k: int| 0 <= k < ncs.len() implies exists|j: int|
            0 <= j < table@.len() && (#[trigger] table@[j]).0@ == #[trigger] ncs[k] by {
            if k < cs.len() {
                assert(ncs[k] == cs[k]);
                let j = choose|j: int| 0 <= j < before.len() && (#[trigger] before[j]).0@ == cs[k];
                assert(table@[j] == before[j]);
            } else {
                assert(table@[n as int].0@ == ncs[k]);
            }
        }
    }
}

/// Relies on `slice::sort`: the same elements, in ascending order.
#[verifier::external_body]
fn sort_ascending(v: &mut Vec<u128>)
    ensures
        ascending(final(v)@),
        final(v)@.len() == old(v)@.len(),
        final(v)@.to_multiset() == old(v)@.to_multiset(),
{
    v.sort()
}

/// The running statistics of an aggregate run.
pub struct AggregateStats {
    /// Latency (ns) of each successful probe, in completion order.
    pub latencies: Vec<u128>,
    /// The sum of `latencies`.
    pub total: u128,
    pub fastest: u128,
    pub slowest: u128,
    pub size_min: usize,
    pub size_max: usize,
    /// Number of probes that produced no statistics.
    pub failures: usize,
    /// Each status code seen, once, with its number of occurrences.
    pub status_counts: Vec<(String, usize)>,
    /// Response size of each successful probe, in completion order.
    pub sizes: Ghost<Seq<usize>>,
    /// Status code of each successful probe, in completion order.
    pub codes: Ghost<Seq<Seq<char>>>,
}

/// The summary report of an aggregate run with at least one success.
pub struct Summary {
    pub successes: usize,
    pub fastest: u128,
    pub slowest: u128,
    pub mean: u128,
    pub median: u128,
    pub size_min: usize,
    pub size_max: usize,
    /// How many successful probes returned status `200`.
    pub ok_responses: usize,
    pub status_counts: Vec<(String, usize)>,
}

impl AggregateStats {
    /// The running values agree with the recorded successes: the total is
    /// their latency sum, the extremes are their least and greatest
    /// latency and size, and the table tallies their status codes.
    pub open spec fn wf(&self) -> bool {
        let lat = lat_ints(self.latencies@);
        let sz = size_ints(self.sizes@);
        &&& self.sizes@.len() == self.latencies@.len()
        &&& self.codes@.len() == self.latencies@.len()
        &&& self.total == sum_of(lat)
        &&& lat.len() > 0 ==> self.fastest == min_of(lat) && self.slowest == max_of(lat)
        &&& lat.len() > 0 ==> self.size_min == min_of(sz) && self.size_max == max_of(sz)
        &&& tabulates(self.status_counts@, self.codes@)
    }

    /// The statistics of a run with no probe yet.
    pub fn new() -> (r: AggregateStats)
        ensures
            r.wf(),
            r.latencies@.len() == 0,
            r.failures == 0,
    {
        AggregateStats {
            latencies: Vec::new(),
            total: 0,
            fastest: u128::MAX,
            slowest: 0,
            size_min: usize::MAX,
            size_max: 0,
            failures: 0,
            status_counts: Vec::new(),
            sizes: Ghost(Seq::empty()),
            codes: Ghost(Seq::empty()),
        }
    }

    /// The success data of `self` and `other` agree.
    pub open spec fn same_successes(&self, other: &AggregateStats) -> bool {
        &&& self.latencies@ == other.latencies@
        &&& self.total == other.total
        &&& self.fastest == other.fastest
        &&& self.slowest == other.slowest
        &&& self.size_min == other.size_min
        &&& self.size_max == other.size_max
        &&& self.status_counts@ == other.status_counts@
        &&& self.sizes@ == other.sizes@
        &&& self.codes@ == other.codes@
    }

    /// Counts one probe that produced no statistics.
    pub fn record_failure(&mut self)
        requires
            old(self).wf(),
            old(self).failures < usize::MAX,
        ensures
            final(self).wf(),
            final(self).failures == old(self).failures + 1,
            final(self).same_successes(old(self)),
    {
        self.failures = self.failures + 1;
    }

    /// Takes in a completed probe: its latency, size and status code join
    /// the statistics, or, where its status line carries no code, it is
    /// counted as a failure and `MalformedResponse` is returned.
    pub fn record_probe(&mut self, probe: &HttpReturn) -> (r: Result<(), ProbeError>)
        requires
            old(self).wf(),
            old(self).failures < usize::MAX,
            status_of(strings_view(probe.headers@)) is Some ==> old(self).total + probe.total_time
                <= u128::MAX,
        ensures
            final(self).wf(),
            match status_of(strings_view(probe.headers@)) {
                None => {
                    &&& r == Err::<(), ProbeError>(ProbeError::MalformedResponse)
                    &&& final(self).failures == old(self).failures + 1
                    &&& final(self).same_successes(old(self))
                },
                Some(c) => {
                    &&& r is Ok
                    &&& final(self).failures == old(self).failures
                    &&& final(self).latencies@ == old(self).latencies@.push(probe.total_time)
                    &&& final(self).sizes@ == old(self).sizes@.push(probe.response_size)
                    &&& final(self).codes@ == old(self).codes@.push(c)
                },
            },
    {
        match status_code(&probe.headers) {
            None => {
                self.record_failure();
                Err(ProbeError::MalformedResponse)
            },
            Some(code) => {
                let t = probe.total_time;
                let size = probe.response_size;
                let ghost old_lat = lat_ints(self.latencies@);
                let ghost old_sz = size_ints(self.sizes@);
                self.latencies.push(t);
                let n = self.latencies.len();
                self.total = self.total + t;
                if n == 1 || t < self.fastest {
                    self.fastest = t;
                }
                if n == 1 || t > self.slowest {
                    self.slowest = t;
                }
                if n == 1 || size < self.size_min {
                    self.size_min = size;
                }
                if n == 1 || size > self.size_max {
                    self.size_max = size;
                }
                let ghost new_lat = lat_ints(self.latencies@);
                assert(new_lat.drop_last() =~= old_lat);
                self.sizes = Ghost(self.sizes@.push(size));
                let ghost new_sz = size_ints(self.sizes@);
                assert(new_sz.drop_last() =~= old_sz);
                tally(&mut self.status_counts, self.codes, code);
                self.codes = Ghost(self.codes@.push(code@));
                Ok(())
            },
        }
    }

    /// Takes in the outcome of one probe: a failed one is counted as a
    /// failure and its error handed back; a completed one goes through
    /// `record_probe`.
    pub fn record(&mut self, outcome: &Result<HttpReturn, ProbeError>) -> (r: Result<(), ProbeError>)
        requires
            old(self).wf(),
            old(self).failures < usize::MAX,
            succeeds(*outcome) ==> old(self).total + outcome->Ok_0.total_time <= u128::MAX,
        ensures
            final(self).wf(),
            match outcome {
                Err(e) => {
                    &&& r == Err::<(), ProbeError>(*e)
                    &&& final(self).failures == old(self).failures + 1
                    &&& final(self).same_successes(old(self))
                },
                Ok(p) => match status_of(strings_view(p.headers@)) {
                    None => {
                        &&& r == Err::<(), ProbeError>(ProbeError::MalformedResponse)
                        &&& final(self).failures == old(self).failures + 1
                        &&& final(self).same_successes(old(self))
                    },
                    Some(c) => {
                        &&& r is Ok
                        &&& final(self).failures == old(self).failures
                        &&& final(self).latencies@ == old(self).latencies@.push(p.total_time)
                        &&& final(self).sizes@ == old(self).sizes@.push(p.response_size)
                        &&& final(self).codes@ == old(self).codes@.push(c)
                    },
                },
            },
    {
        match outcome {
            Err(e) => {
                self.record_failure();
                Err(*e)
            },
            Ok(p) => self.record_probe(p),
        }
    }

    /// The report of the run: None where no probe succeeded, else the
    /// latency extremes, the mean over the successes, the upper median,
    /// the size extremes, the count of `200` responses and the tally of
    /// status codes.
    pub fn summary(self) -> (r: Option<Summary>)
        requires
            self.wf(),
        ensures
            r is None <==> self.latencies@.len() == 0,
            r is Some ==> summarizes(r->0, self),
    {
        let n = self.latencies.len();
        if n == 0 {
            return None;
        }
        let ghost lat = self.latencies@;
        let ghost codes = self.codes@;
        let mut sorted = self.latencies;
        sort_ascending(&mut sorted);
        let median = sorted[n / 2];
        assert(sorted@.to_multiset() == lat.to_multiset());
        let mean = self.total / (n as u128);
        let table = self.status_counts;
        let ok_code = String::from_str("200");
        let m = table.len();
        let mut i: usize = 0;
        while i < m && table[i].0 != ok_code
            invariant
                i <= m == table@.len(),
                forall|j: int| 0 <= j < i ==> (#[trigger] table@[j]).0@ != ok_code@,
            decreases m - i,
        {
            i = i + 1;
        }
        let ok_responses = if i < m {
            table[i].1
        } else {
            assert forall|k: int| 0 <= k < codes.len() implies codes[k] != ok_code@ by {
                let j = choose|j: int| 0 <= j < table@.len() && (#[trigger] table@[j]).0@ == codes[k];
                assert(table@[j].0@ != ok_code@);
            }
            proof {
                lemma_count_absent(codes, ok_code@);
            }
            0
        };
        Some(
            Summary {
                successes: n,
                fastest: self.fastest,
                slowest: self.slowest,
                mean,
                median,
                size_min: self.size_min,
                size_max: self.size_max,
                ok_responses,
                status_counts: table,
            },
        )
    }
}

/// `s` reports the statistics gathered in `stats`.
pub open spec fn summarizes(s: Summary, stats: AggregateStats) -> bool {
    let lat = lat_ints(stats.latencies@);
    let sz = size_ints(stats.sizes@);
    &&& s.successes == lat.len()
    &&& s.fastest == min_of(lat)
    &&& s.slowest == max_of(lat)
    &&& s.mean == sum_of(lat) / lat.len() as int
    &&& is_upper_median(stats.latencies@, s.median)
    &&& s.size_min == min_of(sz)
    &&& s.size_max == max_of(sz)
    &&& s.ok_responses == count_of(stats.codes@, "200"@)
    &&& tabulates(s.status_counts@, stats.codes@)
}

/// A probe outcome that joins the statistics: a response whose status line
/// carries a code.
pub open spec fn succeeds(o: Result<HttpReturn, ProbeError>) -> bool {
    o is Ok && status_of(strings_view(o->Ok_0.headers@)) is Some
}

/// The latencies of the outcomes that join the statistics, in order.
pub open spec fn success_latencies(os: Seq<Result<HttpReturn, ProbeError>>) -> Seq<u128>
    decreases os.len(),
{
    if os.len() == 0 {
        Seq::empty()
    } else {
        let rest = success_latencies(os.drop_last());
        if succeeds(os.last()) {
            rest.push(os.last()->Ok_0.total_time)
        } else {
            rest
        }
    }
}

proof fn lemma_prefix_sum(os: Seq<Result<HttpReturn, ProbeError>>, i: int)
    requires
        0 <= i <= os.len(),
    ensures
        sum_of(lat_ints(success_latencies(os.subrange(0, i)))) <= sum_of(
            lat_ints(success_latencies(os)),
        ),
    decreases os.len() - i,
{
    if i == os.len() {
        assert(os.subrange(0, i) =~= os);
    } else {
        lemma_prefix_sum(os, i + 1);
        let p = os.subrange(0, i + 1);
        assert(p.drop_last() =~= os.subrange(0, i));
        let rest = success_latencies(p.drop_last());
        if succeeds(p.last()) {
            assert(lat_ints(success_latencies(p)).drop_last() =~= lat_ints(rest));
        }
    }
}

/// Gathers the statistics of a sequence of probe outcomes: one latency per
/// success, in order, every other outcome counted as a failure, and every
/// latency between the fastest and the slowest.
pub fn aggregate(outcomes: &Vec<Result<HttpReturn, ProbeError>>) -> (r: AggregateStats)
    requires
        sum_of(lat_ints(success_latencies(outcomes@))) <= u128::MAX,
    ensures
        r.wf(),
        r.latencies@ == success_latencies(outcomes@),
        r.latencies@.len() + r.failures == outcomes@.len(),
        r.latencies@.len() > 0 ==> forall|i: int|
            0 <= i < r.latencies@.len() ==> r.fastest <= #[trigger] r.latencies@[i] <= r.slowest,
{
    let mut stats = AggregateStats::new();
    let n = outcomes.len();
    let mut i: usize = 0;
    while i < n
        invariant
            i <= n == outcomes@.len(),
            stats.wf(),
            stats.latencies@ == success_latencies(outcomes@.subrange(0, i as int)),
            stats.latencies@.len() + stats.failures == i,
            sum_of(lat_ints(success_latencies(outcomes@))) <= u128::MAX,
        decreases n - i,
    {
        let ghost p = outcomes@.subrange(0, i + 1);
        assert(p.drop_last() =~= outcomes@.subrange(0, i as int));
        proof {
            lemma_prefix_sum(outcomes@, i + 1);
            if succeeds(p.last()) {
                assert(lat_ints(success_latencies(p)).drop_last() =~= lat_ints(stats.latencies@));
            }
        }
        let _ = stats.record(&outcomes[i]);
        i = i + 1;
    }
    assert(outcomes@.subrange(0, n as int) =~= outcomes@);
    proof {
        let lat = lat_ints(stats.latencies@);
        lemma_extremes_bound(lat);
        assert forall|i: int| 0 <= i < stats.latencies@.len() implies lat[i]
            == #[trigger] stats.latencies@[i] by {}
    }
    stats
}

} // verus!
