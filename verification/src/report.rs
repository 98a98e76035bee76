//! The numbers behind the probe's text report.
//!
//! Durations are whole nanoseconds going in and whole microseconds coming out.

use vstd::prelude::*;
use vstd::relations;
use vstd::seq_lib;
use vstd::utf8;

verus! {

/// p50 and p90 of a set of durations in microseconds, and what their mean is made of.
#[derive(Clone, Copy, Debug, PartialEq, Eq)]
pub struct Stats {
    pub p50_us: u128,
    pub p90_us: u128,
    pub sum_us: u128,
    pub count: usize,
}

/// Durations in microseconds, fractions dropped.
pub open spec fn micros(ns: Seq<u128>) -> Seq<u128> {
    ns.map_values(|d: u128| d / 1000)
}

/// The order durations are sorted in.
pub open spec fn at_most() -> spec_fn(u128, u128) -> bool {
    |a: u128, b: u128| a <= b
}

/// The durations in microseconds, shortest first.
pub open spec fn ranked(ns: Seq<u128>) -> Seq<u128> {
    micros(ns).sort_by(at_most())
}

/// The index that `percent` of the way through `len` values falls on, halves rounded up.
pub open spec fn rank(len: nat, percent: nat) -> int {
    ((len - 1) * percent + 50) / 100
}

/// The duration in microseconds that `percent` of the way through the ranking falls on; 0 if
/// there are none.
pub open spec fn percentile(ns: Seq<u128>, percent: nat) -> u128 {
    if ns.len() == 0 {
        0
    } else {
        ranked(ns)[rank(ns.len(), percent)]
    }
}

/// The sum of some numbers.
pub open spec fn sum(values: Seq<u128>) -> nat
    decreases values.len(),
{
    if values.len() == 0 {
        0
    } else {
        sum(values.drop_last()) + values.last() as nat
    }
}

/// What [`stats_us`] gives for these durations.
pub open spec fn stats_of(ns: Seq<u128>) -> Stats {
    Stats {
        p50_us: percentile(ns, 50),
        p90_us: percentile(ns, 90),
        sum_us: sum(micros(ns)) as u128,
        count: ns.len() as usize,
    }
}

/// Whether the sum of these durations can be held.
pub open spec fn summable(ns: Seq<u128>) -> bool {
    sum(micros(ns)) <= u128::MAX
}

/// `slice::sort_unstable`: sorts in ascending order, without preserving the order of equal
/// elements. Nothing is lost or added.
#[verifier::external_body]
fn sort_unstable(values: &mut Vec<u128>)
    ensures
        relations::sorted_by(final(values)@, at_most()),
        final(values)@.to_multiset() == old(values)@.to_multiset(),
{
    values.sort_unstable();
}

proof fn lemma_at_most_is_total()
    ensures
        relations::total_ordering(at_most()),
{
}

proof fn lemma_sum_of_prefix(values: Seq<u128>, n: int)
    requires
        0 <= n <= values.len(),
    ensures
        sum(values.take(n)) <= sum(values),
    decreases values.len() - n,
{
    if n == values.len() {
        assert(values.take(n) =~= values);
    } else {
        lemma_sum_of_prefix(values, n + 1);
        assert(values.take(n + 1).drop_last() =~= values.take(n));
    }
}

proof fn lemma_rank_in_range(len: nat, percent: nat)
    requires
        len > 0,
        percent <= 100,
    ensures
        0 <= rank(len, percent) < len,
{
    assert(0 <= (len - 1) * percent <= (len - 1) * 100) by (nonlinear_arith)
        requires
            len >= 1,
            0 <= percent <= 100,
    ;
}

proof fn lemma_ranked(ns: Seq<u128>)
    ensures
        ranked(ns).len() == ns.len(),
        ranked(ns).to_multiset() == micros(ns).to_multiset(),
        relations::sorted_by(ranked(ns), at_most()),
{
    lemma_at_most_is_total();
    micros(ns).lemma_sort_by_ensures(at_most());
    micros(ns).to_multiset_ensures();
    ranked(ns).to_multiset_ensures();
}

/// The value `percent` of the way through sorted values.
fn at_percent(sorted: &Vec<u128>, percent: u128) -> (value: u128)
    requires
        sorted.len() > 0,
        percent <= 100,
    ensures
        value == sorted@[rank(sorted@.len(), percent as nat)],
{
    proof {
        lemma_rank_in_range(sorted@.len(), percent as nat);
        assert(0 <= (sorted.len() - 1) * percent <= u64::MAX * 100) by (nonlinear_arith)
            requires
                0 <= sorted.len() - 1 <= u64::MAX,
                0 <= percent <= 100,
        ;
    }
    let index: u128 = ((sorted.len() - 1) as u128 * percent + 50) / 100;
    sorted[index as usize]
}

/// p50, p90, sum and count of a set of durations, unless the sum cannot be held.
pub fn stats_us(ns: &[u128]) -> (stats: Option<Stats>)
    ensures
        stats == (if summable(ns@) {
            Some(stats_of(ns@))
        } else {
            None
        }),
{
    let mut us: Vec<u128> = Vec::new();
    let mut total: u128 = 0;
    let mut i: usize = 0;
    assert(micros(ns@).take(0) =~= Seq::empty());
    while i < ns.len()
        invariant
            i <= ns.len(),
            us@ == micros(ns@).take(i as int),
            total == sum(micros(ns@).take(i as int)),
        decreases ns.len() - i,
    {
        let d: u128 = ns[i] / 1000;
        us.push(d);
        assert(micros(ns@).take(i + 1) =~= micros(ns@).take(i as int).push(d));
        assert(micros(ns@).take(i + 1).drop_last() =~= micros(ns@).take(i as int));
        if total > u128::MAX - d {
            proof {
                lemma_sum_of_prefix(micros(ns@), i + 1);
            }
            return None;
        }
        total = total + d;
        i = i + 1;
    }
    assert(micros(ns@).take(i as int) =~= micros(ns@));
    if ns.len() == 0 {
        return Some(Stats { p50_us: 0, p90_us: 0, sum_us: 0, count: 0 });
    }
    sort_unstable(&mut us);
    proof {
        lemma_ranked(ns@);
        lemma_at_most_is_total();
        seq_lib::lemma_sorted_unique(us@, ranked(ns@), at_most());
    }
    Some(
        Stats {
            p50_us: at_percent(&us, 50),
            p90_us: at_percent(&us, 90),
            sum_us: total,
            count: ns.len(),
        },
    )
}

// ── One listing ────────────────────────────────────────────────────────────

/// How long each round trip of one directory listing took, in nanoseconds: the CREATE, every
/// QUERY_DIRECTORY, the CLOSE.
#[derive(Debug, PartialEq, Eq)]
pub struct ListingTrace {
    pub create: u128,
    pub queries: Vec<u128>,
    pub close: u128,
    /// How many entries the directory has.
    pub entries: usize,
}

impl ListingTrace {
    /// The time spent in all the queries.
    pub open spec fn spec_query_total(self) -> nat {
        sum(self.queries@)
    }

    /// The time spent on the wire.
    pub open spec fn spec_total(self) -> nat {
        self.create as nat + self.spec_query_total() + self.close as nat
    }

    /// One round trip per query, one for the CREATE and one for the CLOSE.
    pub open spec fn spec_round_trips(self) -> nat {
        self.queries@.len() + 2
    }

    /// The time spent in all the queries, if it can be held.
    pub fn query_total(&self) -> (total: Option<u128>)
        ensures
            match total {
                Some(t) => t == self.spec_query_total(),
                None => self.spec_query_total() > u128::MAX,
            },
    {
        let mut total: u128 = 0;
        let mut i: usize = 0;
        assert(self.queries@.take(0) =~= Seq::empty());
        while i < self.queries.len()
            invariant
                i <= self.queries.len(),
                total == sum(self.queries@.take(i as int)),
            decreases self.queries.len() - i,
        {
            let d: u128 = self.queries[i];
            assert(self.queries@.take(i + 1).drop_last() =~= self.queries@.take(i as int));
            if total > u128::MAX - d {
                proof {
                    lemma_sum_of_prefix(self.queries@, i + 1);
                }
                return None;
            }
            total = total + d;
            i = i + 1;
        }
        assert(self.queries@.take(i as int) =~= self.queries@);
        Some(total)
    }

    /// The time spent on the wire, if it can be held.
    pub fn total(&self) -> (total: Option<u128>)
        ensures
            match total {
                Some(t) => t == self.spec_total(),
                None => self.spec_total() > u128::MAX,
            },
    {
        match self.query_total() {
            Some(queries) => {
                if self.create > u128::MAX - queries {
                    return None;
                }
                let opened: u128 = self.create + queries;
                if self.close > u128::MAX - opened {
                    return None;
                }
                Some(opened + self.close)
            },
            None => None,
        }
    }

    /// How many round trips the listing took, if that can be counted.
    pub fn round_trips(&self) -> (n: Option<usize>)
        ensures
            match n {
                Some(n) => n == self.spec_round_trips(),
                None => self.spec_round_trips() > usize::MAX,
            },
    {
        if self.queries.len() > usize::MAX - 2 {
            None
        } else {
            Some(self.queries.len() + 2)
        }
    }
}

// ── A pass over many directories ───────────────────────────────────────────

/// The phases of a serial pass: statistics per phase, plus totals.
#[derive(Clone, Copy, Debug, PartialEq, Eq)]
pub struct PhaseSummary {
    pub dirs: usize,
    pub entries: usize,
    pub round_trips: usize,
    pub create: Stats,
    /// The first QUERY_DIRECTORY only, the one that carries entries for a small directory.
    pub first_query: Stats,
    /// All the QUERY_DIRECTORY round trips of a directory together.
    pub query: Stats,
    pub close: Stats,
    /// All the round trips of a directory together.
    pub total: Stats,
}

/// How long each CREATE took.
pub open spec fn creates(traces: Seq<ListingTrace>) -> Seq<u128> {
    traces.map_values(|t: ListingTrace| t.create)
}

/// How long the queries of each directory took together.
pub open spec fn query_totals(traces: Seq<ListingTrace>) -> Seq<u128> {
    traces.map_values(|t: ListingTrace| t.spec_query_total() as u128)
}

/// How long each CLOSE took.
pub open spec fn closes(traces: Seq<ListingTrace>) -> Seq<u128> {
    traces.map_values(|t: ListingTrace| t.close)
}

/// How long each directory took.
pub open spec fn totals(traces: Seq<ListingTrace>) -> Seq<u128> {
    traces.map_values(|t: ListingTrace| t.spec_total() as u128)
}

/// How long the first query took, of each directory that had one.
pub open spec fn first_queries(traces: Seq<ListingTrace>) -> Seq<u128>
    decreases traces.len(),
{
    if traces.len() == 0 {
        Seq::empty()
    } else if traces.last().queries@.len() > 0 {
        first_queries(traces.drop_last()).push(traces.last().queries@[0])
    } else {
        first_queries(traces.drop_last())
    }
}

/// How many entries the directories have together.
pub open spec fn all_entries(traces: Seq<ListingTrace>) -> nat
    decreases traces.len(),
{
    if traces.len() == 0 {
        0
    } else {
        all_entries(traces.drop_last()) + traces.last().entries as nat
    }
}

/// How many round trips the directories took together.
pub open spec fn all_round_trips(traces: Seq<ListingTrace>) -> nat
    decreases traces.len(),
{
    if traces.len() == 0 {
        0
    } else {
        all_round_trips(traces.drop_last()) + traces.last().spec_round_trips()
    }
}

/// Whether every sum the summary takes can be held.
pub open spec fn phases_fit(traces: Seq<ListingTrace>) -> bool {
    &&& forall|i: int| 0 <= i < traces.len() ==> (#[trigger] traces[i]).spec_total() <= u128::MAX
    &&& summable(creates(traces))
    &&& summable(first_queries(traces))
    &&& summable(query_totals(traces))
    &&& summable(closes(traces))
    &&& summable(totals(traces))
    &&& all_entries(traces) <= usize::MAX
    &&& all_round_trips(traces) <= usize::MAX
}

/// The summary of a pass.
pub open spec fn phases_of(traces: Seq<ListingTrace>) -> PhaseSummary {
    PhaseSummary {
        dirs: traces.len() as usize,
        entries: all_entries(traces) as usize,
        round_trips: all_round_trips(traces) as usize,
        create: stats_of(creates(traces)),
        first_query: stats_of(first_queries(traces)),
        query: stats_of(query_totals(traces)),
        close: stats_of(closes(traces)),
        total: stats_of(totals(traces)),
    }
}

proof fn lemma_counts_of_prefix(traces: Seq<ListingTrace>, n: int)
    requires
        0 <= n <= traces.len(),
    ensures
        all_entries(traces.take(n)) <= all_entries(traces),
        all_round_trips(traces.take(n)) <= all_round_trips(traces),
    decreases traces.len() - n,
{
    if n == traces.len() {
        assert(traces.take(n) =~= traces);
    } else {
        lemma_counts_of_prefix(traces, n + 1);
        assert(traces.take(n + 1).drop_last() =~= traces.take(n));
    }
}

/// The durations of each phase, one after another, and the two counts.
struct Columns {
    create: Vec<u128>,
    first_query: Vec<u128>,
    query: Vec<u128>,
    close: Vec<u128>,
    total: Vec<u128>,
    entries: usize,
    round_trips: usize,
}

impl Columns {
    spec fn hold(&self, traces: Seq<ListingTrace>) -> bool {
        &&& self.create@ == creates(traces)
        &&& self.first_query@ == first_queries(traces)
        &&& self.query@ == query_totals(traces)
        &&& self.close@ == closes(traces)
        &&& self.total@ == totals(traces)
        &&& self.entries == all_entries(traces)
        &&& self.round_trips == all_round_trips(traces)
    }

    /// Adds one more trace, unless one of its sums or of the counts cannot be held.
    fn add_trace(&mut self, trace: &ListingTrace, Ghost(earlier): Ghost<Seq<ListingTrace>>) -> (ok:
        bool)
        requires
            old(self).hold(earlier),
        ensures
            ok ==> final(self).hold(earlier.push(*trace)) && trace.spec_total() <= u128::MAX,
            !ok ==> {
                ||| trace.spec_total() > u128::MAX
                ||| all_entries(earlier.push(*trace)) > usize::MAX
                ||| all_round_trips(earlier.push(*trace)) > usize::MAX
            },
    {
        let ghost later = earlier.push(*trace);
        assert(later.drop_last() =~= earlier);
        let total: u128 = match trace.total() {
            Some(t) => t,
            None => return false,
        };
        let query: u128 = match trace.query_total() {
            Some(t) => t,
            None => return false,
        };
        let round_trips: usize = match trace.round_trips() {
            Some(n) => n,
            None => return false,
        };
        if trace.entries > usize::MAX - self.entries || round_trips > usize::MAX
            - self.round_trips {
            return false;
        }
        self.create.push(trace.create);
        if trace.queries.len() > 0 {
            self.first_query.push(trace.queries[0]);
        }
        self.query.push(query);
        self.close.push(trace.close);
        self.total.push(total);
        self.entries = self.entries + trace.entries;
        self.round_trips = self.round_trips + round_trips;
        assert(creates(later) =~= creates(earlier).push(trace.create));
        assert(query_totals(later) =~= query_totals(earlier).push(query));
        assert(closes(later) =~= closes(earlier).push(trace.close));
        assert(totals(later) =~= totals(earlier).push(total));
        true
    }
}

/// Aggregates a serial pass, unless one of its sums cannot be held.
pub fn summarize_phases(traces: &[ListingTrace]) -> (summary: Option<PhaseSummary>)
    ensures
        summary == (if phases_fit(traces@) {
            Some(phases_of(traces@))
        } else {
            None
        }),
{
    let mut columns = Columns {
        create: Vec::new(),
        first_query: Vec::new(),
        query: Vec::new(),
        close: Vec::new(),
        total: Vec::new(),
        entries: 0,
        round_trips: 0,
    };
    let mut i: usize = 0;
    proof {
        let none = traces@.take(0);
        assert(creates(none) =~= Seq::empty());
        assert(query_totals(none) =~= Seq::empty());
        assert(closes(none) =~= Seq::empty());
        assert(totals(none) =~= Seq::empty());
    }
    while i < traces.len()
        invariant
            i <= traces.len(),
            columns.hold(traces@.take(i as int)),
            forall|j: int| 0 <= j < i ==> (#[trigger] traces@[j]).spec_total() <= u128::MAX,
        decreases traces.len() - i,
    {
        assert(traces@.take(i + 1) =~= traces@.take(i as int).push(traces@[i as int]));
        if !columns.add_trace(&traces[i], Ghost(traces@.take(i as int))) {
            proof {
                lemma_counts_of_prefix(traces@, i + 1);
            }
            return None;
        }
        i = i + 1;
    }
    assert(traces@.take(i as int) =~= traces@);
    match (
        stats_us(columns.create.as_slice()),
        stats_us(columns.first_query.as_slice()),
        stats_us(columns.query.as_slice()),
        stats_us(columns.close.as_slice()),
        stats_us(columns.total.as_slice()),
    ) {
        (Some(create), Some(first_query), Some(query), Some(close), Some(total)) => Some(
            PhaseSummary {
                dirs: traces.len(),
                entries: columns.entries,
                round_trips: columns.round_trips,
                create,
                first_query,
                query,
                close,
                total,
            },
        ),
        _ => None,
    }
}

// ── Paths in a table ───────────────────────────────────────────────────────

/// Whether a path that is too long can be cut where [`short`] cuts it: 35 bytes before its end,
/// which must not be inside a character.
pub open spec fn shortenable(path: Seq<char>) -> bool {
    let bytes = utf8::encode_utf8(path);
    bytes.len() > 38 ==> utf8::is_char_boundary(bytes, bytes.len() - 35)
}

/// A path as a table shows it.
pub open spec fn shortened(path: Seq<char>) -> Seq<char> {
    let bytes = utf8::encode_utf8(path);
    if path.len() == 0 {
        "<root>"@
    } else if bytes.len() <= 38 {
        path
    } else {
        "..."@ + utf8::decode_utf8(bytes.skip(bytes.len() - 35))
    }
}

/// Shortens a long share-relative path for table display: what is over 38 bytes becomes three
/// dots and the last 35 bytes.
pub fn short(path: &str) -> (shown: String)
    requires
        shortenable(path@),
    ensures
        shown@ == shortened(path@),
{
    let len: usize = path.as_bytes().len();
    if path.is_empty() {
        return "<root>".to_string();
    }
    if len <= 38 {
        return path.to_string();
    }
    let (head, tail) = path.split_at(len - 35);
    proof {
        let bytes = utf8::encode_utf8(path@);
        assert(bytes.subrange(len - 35, len as int) =~= bytes.skip(len - 35));
        utf8::encode_utf8_decode_utf8(tail@);
    }
    let mut shown = "...".to_string();
    shown.append(tail);
    shown
}

// ── Laws ───────────────────────────────────────────────────────────────────

proof fn lemma_sum_is_fold(values: Seq<u128>)
    ensures
        sum(values) == values.fold_left(0nat, |acc: nat, d: u128| acc + d as nat),
    decreases values.len(),
{
    reveal_with_fuel(Seq::fold_left, 2);
    if values.len() > 0 {
        lemma_sum_is_fold(values.drop_last());
    }
}

proof fn lemma_sum_of_permutation(a: Seq<u128>, b: Seq<u128>)
    requires
        a.to_multiset() == b.to_multiset(),
    ensures
        sum(a) == sum(b),
{
    lemma_sum_is_fold(a);
    lemma_sum_is_fold(b);
    seq_lib::lemma_fold_left_permutation(a, b, |acc: nat, d: u128| acc + d as nat, 0nat);
}

proof fn lemma_sum_between(values: Seq<u128>, least: u128, most: u128)
    requires
        forall|i: int| 0 <= i < values.len() ==> least <= #[trigger] values[i] <= most,
    ensures
        values.len() * least <= sum(values) <= values.len() * most,
    decreases values.len(),
{
    if values.len() > 0 {
        lemma_sum_between(values.drop_last(), least, most);
        let n = values.len();
        assert(n * least == (n - 1) * least + least) by (nonlinear_arith);
        assert(n * most == (n - 1) * most + most) by (nonlinear_arith);
    }
}

/// Percentiles rise with the percentage. In particular the p50 is never above the p90.
pub proof fn law_percentiles_rise(ns: Seq<u128>, lower: nat, higher: nat)
    requires
        lower <= higher <= 100,
    ensures
        percentile(ns, lower) <= percentile(ns, higher),
{
    if ns.len() > 0 {
        lemma_ranked(ns);
        lemma_rank_in_range(ns.len(), lower);
        lemma_rank_in_range(ns.len(), higher);
        let n = ns.len() - 1;
        assert(n * lower <= n * higher) by (nonlinear_arith)
            requires
                n >= 0,
                lower <= higher,
        ;
        let i = rank(ns.len(), lower);
        let j = rank(ns.len(), higher);
        assert(i <= j);
        if i < j {
            assert(at_most()(ranked(ns)[i], ranked(ns)[j]));
        }
    }
}

/// A percentile is one of the measured durations, never a blend of two.
pub proof fn law_percentile_was_measured(ns: Seq<u128>, percent: nat)
    requires
        ns.len() > 0,
        percent <= 100,
    ensures
        exists|i: int| 0 <= i < ns.len() && percentile(ns, percent) == (#[trigger] ns[i]) / 1000,
{
    lemma_ranked(ns);
    lemma_rank_in_range(ns.len(), percent);
    let value = ranked(ns)[rank(ns.len(), percent)];
    lemma_at_most_is_total();
    micros(ns).lemma_sort_by_ensures(at_most());
    assert(ranked(ns).contains(value));
    assert(micros(ns).contains(value));
    let i = choose|i: int| 0 <= i < micros(ns).len() && micros(ns)[i] == value;
    assert(ns[i] / 1000 == value);
}

/// Every measured duration lies between the 0th and the 100th percentile, and so does the mean.
pub proof fn law_measurements_within_extremes(ns: Seq<u128>)
    ensures
        forall|i: int|
            0 <= i < ns.len() ==> percentile(ns, 0) <= (#[trigger] ns[i]) / 1000 <= percentile(
                ns,
                100,
            ),
        ns.len() * percentile(ns, 0) <= sum(micros(ns)) <= ns.len() * percentile(ns, 100),
{
    let least = percentile(ns, 0);
    let most = percentile(ns, 100);
    assert forall|i: int| 0 <= i < ns.len() implies least <= (#[trigger] ns[i]) / 1000 <= most by {
        let value = ns[i] / 1000;
        lemma_ranked(ns);
        micros(ns).to_multiset_ensures();
        ranked(ns).to_multiset_ensures();
        assert(micros(ns)[i] == value);
        assert(micros(ns).contains(value));
        assert(micros(ns).to_multiset().count(value) > 0);
        assert(ranked(ns).contains(value));
        let j = choose|j: int| 0 <= j < ranked(ns).len() && ranked(ns)[j] == value;
        assert(rank(ns.len(), 0) == 0);
        assert(rank(ns.len(), 100) == ns.len() - 1);
        if 0 < j {
            assert(at_most()(ranked(ns)[0], ranked(ns)[j]));
        }
        if j < ns.len() - 1 {
            assert(at_most()(ranked(ns)[j], ranked(ns)[ns.len() - 1]));
        }
    }
    assert forall|i: int| 0 <= i < micros(ns).len() implies least <= #[trigger] micros(ns)[i]
        <= most by {
        assert(micros(ns)[i] == ns[i] / 1000);
    }
    lemma_sum_between(micros(ns), least, most);
}

/// The statistics depend on which durations were measured, not on their order.
pub proof fn law_stats_ignore_order(a: Seq<u128>, b: Seq<u128>)
    requires
        a.to_multiset() == b.to_multiset(),
    ensures
        stats_of(a) == stats_of(b),
        summable(a) == summable(b),
{
    lemma_micros_of_permutation(a, b);
    lemma_ranked(a);
    lemma_ranked(b);
    lemma_at_most_is_total();
    seq_lib::lemma_sorted_unique(ranked(a), ranked(b), at_most());
    lemma_sum_of_permutation(micros(a), micros(b));
}

proof fn lemma_micros_of_permutation(a: Seq<u128>, b: Seq<u128>)
    requires
        a.to_multiset() == b.to_multiset(),
    ensures
        a.len() == b.len(),
        micros(a).to_multiset() == micros(b).to_multiset(),
    decreases a.len(),
{
    a.to_multiset_ensures();
    b.to_multiset_ensures();
    if a.len() == 0 {
        assert(micros(a) =~= micros(b));
    } else {
        let x = a.last();
        let n = a.len() - 1;
        assert(a.contains(x));
        assert(a.to_multiset().count(x) > 0);
        assert(b.contains(x));
        let i = choose|i: int| 0 <= i < b.len() && b[i] == x;
        assert(a.remove(n) =~= a.drop_last());
        assert(a.drop_last().to_multiset() =~= b.remove(i).to_multiset());
        lemma_micros_of_permutation(a.drop_last(), b.remove(i));
        micros(a).to_multiset_ensures();
        micros(b).to_multiset_ensures();
        assert(micros(a).remove(n) =~= micros(a.drop_last()));
        assert(micros(b).remove(i) =~= micros(b.remove(i)));
        let y = x / 1000;
        assert(micros(a)[n] == y && micros(b)[i] == y);
        assert(micros(a).contains(y) && micros(b).contains(y));
        assert(micros(a).to_multiset() =~= micros(a).remove(n).to_multiset().insert(y));
        assert(micros(b).to_multiset() =~= micros(b).remove(i).to_multiset().insert(y));
    }
}

/// How many queries the directories took together.
pub open spec fn all_queries(traces: Seq<ListingTrace>) -> nat
    decreases traces.len(),
{
    if traces.len() == 0 {
        0
    } else {
        all_queries(traces.drop_last()) + traces.last().queries@.len()
    }
}

/// Every directory costs a CREATE and a CLOSE on top of its queries.
pub proof fn law_round_trips(traces: Seq<ListingTrace>)
    ensures
        all_round_trips(traces) == 2 * traces.len() + all_queries(traces),
    decreases traces.len(),
{
    if traces.len() > 0 {
        law_round_trips(traces.drop_last());
    }
}

/// A shown path fits the column it is shown in: no more than 38 bytes. It is never empty.
pub proof fn law_short_paths_fit(path: Seq<char>)
    requires
        shortenable(path),
    ensures
        0 < utf8::encode_utf8(shortened(path)).len() <= 38,
        shortened(path).len() > 0,
{
    let bytes = utf8::encode_utf8(path);
    reveal_strlit("<root>");
    reveal_strlit("...");
    if path.len() == 0 {
        assert(utf8::is_ascii_chars("<root>"@));
        utf8::is_ascii_chars_encode_utf8("<root>"@);
    } else if bytes.len() <= 38 {
        utf8::encode_utf8_first_scalar(path);
        utf8::encode_utf8_valid_utf8(path);
    } else {
        let tail = bytes.skip(bytes.len() - 35);
        assert(tail =~= bytes.subrange(bytes.len() - 35, bytes.len() as int));
        utf8::encode_utf8_valid_utf8(path);
        utf8::valid_utf8_split(bytes, bytes.len() - 35);
        utf8::decode_utf8_encode_utf8(tail);
        assert(utf8::is_ascii_chars("..."@));
        utf8::is_ascii_chars_encode_utf8("..."@);
        lemma_encode_concat("..."@, utf8::decode_utf8(tail));
    }
}

proof fn lemma_encode_concat(a: Seq<char>, b: Seq<char>)
    ensures
        utf8::encode_utf8(a + b) == utf8::encode_utf8(a) + utf8::encode_utf8(b),
    decreases a.len(),
{
    if a.len() == 0 {
        assert(a + b =~= b);
        assert(utf8::encode_utf8(a) + utf8::encode_utf8(b) =~= utf8::encode_utf8(b));
    } else {
        assert((a + b).drop_first() =~= a.drop_first() + b);
        lemma_encode_concat(a.drop_first(), b);
        assert(utf8::encode_utf8(a + b) =~= utf8::encode_utf8(a) + utf8::encode_utf8(b));
    }
}

/// Microseconds are whole thousands of nanoseconds, the rest dropped, duration by duration.
pub proof fn law_micros(ns: Seq<u128>)
    ensures
        micros(ns).len() == ns.len(),
        forall|i: int|
            0 <= i < ns.len() ==> (#[trigger] micros(ns)[i]) * 1000 <= ns[i] < micros(ns)[i] * 1000
                + 1000,
{
}

/// The rank is the whole number nearest to that share of the way from the first value to the last;
/// of two as near, the higher.
pub proof fn law_rank_is_the_nearest(len: nat, percent: nat)
    requires
        len > 0,
        percent <= 100,
    ensures
        0 <= rank(len, percent) < len,
        -50 < 100 * rank(len, percent) - (len - 1) * percent <= 50,
{
    lemma_rank_in_range(len, percent);
}

/// Put the durations in order: a percentile is the one at the rank nearest to that share of the way,
/// in microseconds.
pub proof fn law_percentile_by_rank(ns: Seq<u128>, ordered: Seq<u128>, percent: nat, r: int)
    requires
        ordered.to_multiset() == ns.to_multiset(),
        forall|i: int, j: int| 0 <= i < j < ordered.len() ==> ordered[i] <= ordered[j],
        percent <= 100,
        0 <= r < ns.len(),
        -50 < 100 * r - (ns.len() - 1) * percent <= 50,
    ensures
        percentile(ns, percent) == ordered[r] / 1000,
{
    law_rank_is_the_nearest(ns.len(), percent);
    assert(r == rank(ns.len(), percent));
    lemma_micros_of_permutation(ordered, ns);
    lemma_ranked(ns);
    lemma_at_most_is_total();
    assert(relations::sorted_by(micros(ordered), at_most())) by {
        assert forall|i: int, j: int| 0 <= i < j < micros(ordered).len() implies #[trigger] at_most()(
            micros(ordered)[i],
            micros(ordered)[j],
        ) by {
            assert(ordered[i] <= ordered[j]);
        }
    }
    seq_lib::lemma_sorted_unique(micros(ordered), ranked(ns), at_most());
}

/// The statistics of a set of durations: the one halfway, the one nine tenths of the way, the sum of
/// all of them, and how many there are. Of no durations, all are zero.
pub proof fn law_what_the_statistics_are(ns: Seq<u128>)
    requires
        ns.len() <= usize::MAX,
    ensures
        stats_of(ns).p50_us == percentile(ns, 50),
        stats_of(ns).p90_us == percentile(ns, 90),
        stats_of(ns).count == ns.len(),
        summable(ns) <==> ns.fold_left(0nat, |acc: nat, d: u128| acc + d as nat / 1000)
            <= u128::MAX,
        summable(ns) ==> stats_of(ns).sum_us == ns.fold_left(
            0nat,
            |acc: nat, d: u128| acc + d as nat / 1000,
        ),
        ns.len() == 0 ==> percentile(ns, 50) == 0 && percentile(ns, 90) == 0,
{
    lemma_sum_of_micros(ns);
}

proof fn lemma_sum_of_micros(ns: Seq<u128>)
    ensures
        sum(micros(ns)) == ns.fold_left(0nat, |acc: nat, d: u128| acc + d as nat / 1000),
    decreases ns.len(),
{
    reveal_with_fuel(Seq::fold_left, 2);
    if ns.len() > 0 {
        lemma_sum_of_micros(ns.drop_last());
        assert(micros(ns).drop_last() =~= micros(ns.drop_last()));
    }
}

/// One more duration adds itself to the sum and one to the count.
pub proof fn law_one_more_duration(ns: Seq<u128>, d: u128)
    requires
        ns.len() < usize::MAX,
        summable(ns.push(d)),
    ensures
        summable(ns),
        stats_of(ns.push(d)).sum_us == stats_of(ns).sum_us + d / 1000,
        stats_of(ns.push(d)).count == stats_of(ns).count + 1,
{
    assert(micros(ns.push(d)).drop_last() =~= micros(ns));
}

/// A sum of nothing is nothing, one more number adds itself, and two sums in a row are the sum of
/// both.
pub proof fn law_sums(a: Seq<u128>, b: Seq<u128>, d: u128)
    ensures
        sum(Seq::<u128>::empty()) == 0,
        sum(a.push(d)) == sum(a) + d,
        sum(a + b) == sum(a) + sum(b),
    decreases b.len(),
{
    assert(a.push(d).drop_last() =~= a);
    if b.len() == 0 {
        assert(a + b =~= a);
    } else {
        law_sums(a, b.drop_last(), d);
        assert((a + b).drop_last() =~= a + b.drop_last());
    }
}

/// A trace counts all of its time and all of its round trips: without a query there are the CREATE and
/// the CLOSE, and one more query adds its duration to the time in queries and to the time on the wire,
/// and one round trip.
pub proof fn law_a_trace_counts_every_query(t: ListingTrace, more: ListingTrace, d: u128)
    requires
        more.create == t.create,
        more.close == t.close,
        more.queries@ == t.queries@.push(d),
    ensures
        t.queries@.len() == 0 ==> t.spec_query_total() == 0,
        t.queries@.len() == 0 ==> t.spec_total() == t.create + t.close,
        t.queries@.len() == 0 ==> t.spec_round_trips() == 2,
        more.spec_query_total() == t.spec_query_total() + d,
        more.spec_total() == t.spec_total() + d,
        more.spec_round_trips() == t.spec_round_trips() + 1,
{
    law_sums(t.queries@, Seq::empty(), d);
}

/// Each phase of a pass is the durations of that phase, directory by directory.
pub proof fn law_what_the_phases_are(traces: Seq<ListingTrace>)
    ensures
        creates(traces).len() == traces.len(),
        closes(traces).len() == traces.len(),
        query_totals(traces).len() == traces.len(),
        totals(traces).len() == traces.len(),
        forall|i: int|
            #![trigger traces[i]]
            0 <= i < traces.len() ==> {
                &&& creates(traces)[i] == traces[i].create
                &&& closes(traces)[i] == traces[i].close
                &&& traces[i].spec_total() <= u128::MAX ==> query_totals(traces)[i]
                    == traces[i].spec_query_total()
                &&& traces[i].spec_total() <= u128::MAX ==> totals(traces)[i]
                    == traces[i].spec_total()
            },
{
}

/// Of the first queries, and of the counts, every directory adds its own.
pub proof fn law_every_directory_adds_its_own(traces: Seq<ListingTrace>, t: ListingTrace)
    ensures
        first_queries(Seq::<ListingTrace>::empty()).len() == 0,
        t.queries@.len() > 0 ==> first_queries(traces.push(t)) == first_queries(traces).push(
            t.queries@[0],
        ),
        t.queries@.len() == 0 ==> first_queries(traces.push(t)) == first_queries(traces),
        all_entries(Seq::<ListingTrace>::empty()) == 0,
        all_entries(traces.push(t)) == all_entries(traces) + t.entries,
        all_round_trips(Seq::<ListingTrace>::empty()) == 0,
        all_round_trips(traces.push(t)) == all_round_trips(traces) + t.queries@.len() + 2,
{
    assert(traces.push(t).drop_last() =~= traces);
}

/// The summary of a pass holds the statistics of each phase, and it is given unless a sum cannot be
/// held: the time of one directory, the time of one phase, the entries or the round trips.
pub proof fn law_what_a_summary_is(
    traces: Seq<ListingTrace>,
    create: Seq<u128>,
    query: Seq<u128>,
    close: Seq<u128>,
    total: Seq<u128>,
)
    requires
        create.len() == traces.len(),
        query.len() == traces.len(),
        close.len() == traces.len(),
        total.len() == traces.len(),
        traces.len() <= usize::MAX,
        forall|i: int|
            #![trigger traces[i]]
            0 <= i < traces.len() ==> {
                &&& create[i] == traces[i].create
                &&& query[i] == traces[i].spec_query_total()
                &&& close[i] == traces[i].close
                &&& total[i] == traces[i].create + query[i] + traces[i].close
            },
    ensures
        phases_fit(traces) <==> ({
            &&& summable(create)
            &&& summable(first_queries(traces))
            &&& summable(query)
            &&& summable(close)
            &&& summable(total)
            &&& all_entries(traces) <= usize::MAX
            &&& all_round_trips(traces) <= usize::MAX
        }),
        phases_of(traces).dirs == traces.len(),
        phases_of(traces).create == stats_of(create),
        phases_of(traces).first_query == stats_of(first_queries(traces)),
        phases_of(traces).query == stats_of(query),
        phases_of(traces).close == stats_of(close),
        phases_of(traces).total == stats_of(total),
        phases_fit(traces) ==> phases_of(traces).entries == all_entries(traces)
            && phases_of(traces).round_trips == all_round_trips(traces),
{
    assert(creates(traces) =~= create);
    assert(query_totals(traces) =~= query);
    assert(closes(traces) =~= close);
    assert(totals(traces) =~= total);
}

/// A directory whose time cannot be held has no place in a summary.
pub proof fn law_an_endless_directory_has_no_summary(traces: Seq<ListingTrace>, i: int)
    requires
        0 <= i < traces.len(),
        traces[i].spec_total() > u128::MAX,
    ensures
        !phases_fit(traces),
{
}

/// What a shown path is: the path itself if it is no longer than 38 bytes, `<root>` for the root, and
/// otherwise three dots and the end of the path that takes 35 bytes.
pub proof fn law_what_a_shown_path_is(path: Seq<char>, i: int)
    requires
        0 <= i <= path.len(),
    ensures
        path.len() == 0 ==> shortened(path) == seq!['<', 'r', 'o', 'o', 't', '>'],
        path.len() > 0 && utf8::encode_utf8(path).len() <= 38 ==> shortened(path) == path,
        utf8::encode_utf8(path).len() <= 38 ==> shortenable(path),
        utf8::encode_utf8(path).len() > 38 && utf8::encode_utf8(path.skip(i)).len() == 35 ==> {
            &&& shortenable(path)
            &&& shortened(path) == seq!['.', '.', '.'] + path.skip(i)
        },
{
    reveal_strlit("<root>");
    reveal_strlit("...");
    assert("<root>"@ =~= seq!['<', 'r', 'o', 'o', 't', '>']);
    assert("..."@ =~= seq!['.', '.', '.']);
    let head = path.take(i);
    let tail = path.skip(i);
    let bytes = utf8::encode_utf8(path);
    lemma_encode_concat(head, tail);
    assert(head + tail =~= path);
    if bytes.len() > 38 && utf8::encode_utf8(tail).len() == 35 {
        assert(bytes.skip(bytes.len() - 35) =~= utf8::encode_utf8(tail));
        utf8::encode_utf8_decode_utf8(tail);
        lemma_boundary_behind(head, tail);
    }
}

/// Behind the encoding of some characters is a place to cut.
proof fn lemma_boundary_behind(head: Seq<char>, tail: Seq<char>)
    ensures
        utf8::is_char_boundary(
            utf8::encode_utf8(head + tail),
            utf8::encode_utf8(head).len() as int,
        ),
    decreases head.len(),
{
    let all = head + tail;
    let bytes = utf8::encode_utf8(all);
    utf8::encode_utf8_valid_utf8(all);
    if head.len() > 0 {
        lemma_boundary_behind(head.drop_first(), tail);
        assert(all.drop_first() =~= head.drop_first() + tail);
        lemma_encode_concat(head, tail);
        utf8::encode_utf8_first_scalar(all);
        assert(utf8::pop_first_scalar(bytes) =~= utf8::encode_utf8(all.drop_first()));
    }
}

} // verus!
