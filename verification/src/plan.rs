//! Which directories each measurement lists.
//!
//! A directory is cold until it is first listed. Each cold measurement therefore gets its own
//! slice of never-listed directories, so that no measurement benefits from another's caching: the
//! sample for the serial breakdown first, then one slice per window size, then one per session
//! count.

use vstd::prelude::*;

verus! {

/// How many cold directories all the measurements together need.
pub open spec fn needed(sample: nat, windows: nat, sessions: nat, cold_slice: nat) -> nat {
    sample + (windows + sessions) * cold_slice
}

/// How many cold directories all the measurements together need, unless that is more than can be
/// counted.
pub fn cold_needed(sample: usize, windows: usize, sessions: usize, cold_slice: usize) -> (total:
    Option<usize>)
    ensures
        match total {
            Some(n) => n == needed(
                sample as nat,
                windows as nat,
                sessions as nat,
                cold_slice as nat,
            ),
            None => needed(sample as nat, windows as nat, sessions as nat, cold_slice as nat)
                > usize::MAX,
        },
{
    let slices: u128 = windows as u128 + sessions as u128;
    if cold_slice == 0 || slices == 0 {
        assert(slices * cold_slice == 0) by (nonlinear_arith)
            requires
                cold_slice == 0 || slices == 0,
        ;
        return Some(sample);
    }
    if slices > usize::MAX as u128 {
        assert(slices * cold_slice >= slices) by (nonlinear_arith)
            requires
                cold_slice >= 1,
                slices >= 0,
        ;
        return None;
    }
    assert(slices * cold_slice <= u64::MAX * u64::MAX) by (nonlinear_arith)
        requires
            0 <= slices <= u64::MAX,
            0 <= cold_slice <= u64::MAX,
    ;
    let total: u128 = sample as u128 + slices * cold_slice as u128;
    if total > usize::MAX as u128 {
        None
    } else {
        Some(total as usize)
    }
}

/// The directories of the serial breakdown: the first `sample` of them, or all if there are fewer.
pub open spec fn sampled<T>(dirs: Seq<T>, sample: nat) -> Seq<T> {
    if sample <= dirs.len() {
        dirs.take(sample as int)
    } else {
        dirs
    }
}

/// The directories that the cold sweeps draw from: those behind the sample.
pub open spec fn pooled<T>(dirs: Seq<T>, sample: nat) -> Seq<T> {
    if sample <= dirs.len() {
        dirs.skip(sample as int)
    } else {
        Seq::empty()
    }
}

/// Splits the cold directories into the sample for the serial breakdown and the pool the cold
/// sweeps draw from.
pub fn split_sample(dirs: Vec<String>, sample: usize) -> (parts: (Vec<String>, Vec<String>))
    ensures
        parts.0@ == sampled(dirs@, sample as nat),
        parts.1@ == pooled(dirs@, sample as nat),
{
    let mut sampled = dirs;
    let n: usize = if sample < sampled.len() {
        sample
    } else {
        sampled.len()
    };
    let pool = sampled.split_off(n);
    (sampled, pool)
}

/// The `k`th slice of a pool, as the range of its directories: `cold_slice` of them, fewer where
/// the pool ends, and no slice where there is nothing left.
pub open spec fn slice_range(k: nat, cold_slice: nat, pool: nat) -> Option<(nat, nat)> {
    let lo = k * cold_slice;
    let hi = if lo + cold_slice <= pool {
        lo + cold_slice
    } else {
        pool
    };
    if lo < hi {
        Some((lo, hi))
    } else {
        None
    }
}

/// A range of indices as contracts see it.
pub open spec fn range_view(range: Option<(usize, usize)>) -> Option<(nat, nat)> {
    match range {
        Some((lo, hi)) => Some((lo as nat, hi as nat)),
        None => None,
    }
}

fn nth_slice(k: u128, cold_slice: usize, pool: usize) -> (range: Option<(usize, usize)>)
    ensures
        range_view(range) == slice_range(k as nat, cold_slice as nat, pool as nat),
{
    if cold_slice == 0 || k >= pool as u128 {
        assert(k * cold_slice >= pool || cold_slice == 0) by (nonlinear_arith)
            requires
                cold_slice == 0 || k >= pool,
                cold_slice >= 0,
                k >= 0,
        ;
        return None;
    }
    assert(0 <= k * cold_slice <= u64::MAX * u64::MAX) by (nonlinear_arith)
        requires
            0 <= k <= u64::MAX,
            0 <= cold_slice <= u64::MAX,
    ;
    let lo: u128 = k * cold_slice as u128;
    if lo >= pool as u128 {
        return None;
    }
    let lo: usize = lo as usize;
    let hi: usize = if pool - lo >= cold_slice {
        lo + cold_slice
    } else {
        pool
    };
    Some((lo, hi))
}

/// The slice of the pool for the window size at position `i`.
pub fn window_slice(i: usize, cold_slice: usize, pool: usize) -> (range: Option<(usize, usize)>)
    ensures
        range_view(range) == slice_range(i as nat, cold_slice as nat, pool as nat),
{
    nth_slice(i as u128, cold_slice, pool)
}

/// The slice of the pool for the session count at position `j`, drawn after the slices of all
/// the window sizes.
pub fn session_slice(windows: usize, j: usize, cold_slice: usize, pool: usize) -> (range: Option<
    (usize, usize),
>)
    ensures
        range_view(range) == slice_range((windows + j) as nat, cold_slice as nat, pool as nat),
        range matches Some((lo, hi)) ==> windows * cold_slice <= lo < hi <= pool,
{
    assert((windows + j) * cold_slice >= windows * cold_slice) by (nonlinear_arith)
        requires
            0 <= windows,
            0 <= j,
            0 <= cold_slice,
    ;
    nth_slice(windows as u128 + j as u128, cold_slice, pool)
}

/// The buffer sizes, in bytes, that do not exceed the negotiated maximum.
pub open spec fn usable_buffers(kib: Seq<u32>, max_transact: u32) -> Seq<u32>
    decreases kib.len(),
{
    if kib.len() == 0 {
        Seq::empty()
    } else {
        let earlier = usable_buffers(kib.drop_last(), max_transact);
        if kib.last() * 1024 <= max_transact {
            earlier.push((kib.last() * 1024) as u32)
        } else {
            earlier
        }
    }
}

/// The buffer sizes to compare, in bytes. Sizes above the server's negotiated maximum are
/// skipped.
pub fn buffer_sizes(kib: &[u32], max_transact: u32) -> (sizes: Vec<u32>)
    ensures
        sizes@ == usable_buffers(kib@, max_transact),
{
    let mut out: Vec<u32> = Vec::new();
    let mut i: usize = 0;
    while i < kib.len()
        invariant
            i <= kib.len(),
            out@ == usable_buffers(kib@.take(i as int), max_transact),
        decreases kib.len() - i,
    {
        assert(kib@.take(i + 1).drop_last() =~= kib@.take(i as int));
        let size: u64 = kib[i] as u64 * 1024;
        if size <= max_transact as u64 {
            out.push(size as u32);
        }
        i = i + 1;
    }
    assert(kib@.take(i as int) =~= kib@);
    out
}

/// The largest of some session counts; one session if there are none.
pub open spec fn most_sessions(sessions: Seq<usize>) -> nat
    decreases sessions.len(),
{
    if sessions.len() == 0 {
        1
    } else if sessions.len() == 1 {
        sessions[0] as nat
    } else {
        let earlier = most_sessions(sessions.drop_last());
        if sessions.last() >= earlier {
            sessions.last() as nat
        } else {
            earlier
        }
    }
}

/// How many sessions the widest multi-session sweep asks for.
pub fn max_sessions(sessions: &[usize]) -> (n: usize)
    ensures
        n == most_sessions(sessions@),
{
    if sessions.len() == 0 {
        return 1;
    }
    let mut most: usize = sessions[0];
    let mut i: usize = 1;
    while i < sessions.len()
        invariant
            1 <= i <= sessions.len(),
            most == most_sessions(sessions@.take(i as int)),
        decreases sessions.len() - i,
    {
        assert(sessions@.take(i + 1).drop_last() =~= sessions@.take(i as int));
        if sessions[i] >= most {
            most = sessions[i];
        }
        i = i + 1;
    }
    assert(sessions@.take(i as int) =~= sessions@);
    most
}

/// How many sessions a sweep over `wanted` of them can use when `open` are connected.
pub fn usable_sessions(wanted: usize, open: usize) -> (n: usize)
    ensures
        n == (if wanted <= open {
            wanted
        } else {
            open
        }),
        n <= wanted,
        n <= open,
        n == wanted || n == open,
{
    if wanted <= open {
        wanted
    } else {
        open
    }
}

// ── Laws ───────────────────────────────────────────────────────────────────

/// Two different slices of a pool have no directory in common, and none reaches outside the pool.
///
/// The slices of the window sizes are the first ones and those of the session counts follow, so
/// no two cold measurements ever list the same directory.
pub proof fn law_cold_slices_are_disjoint(a: nat, b: nat, cold_slice: nat, pool: nat)
    requires
        a < b,
    ensures
        match (slice_range(a, cold_slice, pool), slice_range(b, cold_slice, pool)) {
            (Some(first), Some(second)) => first.0 < first.1 <= second.0 < second.1 <= pool,
            _ => true,
        },
        slice_range(b, cold_slice, pool) is Some ==> slice_range(a, cold_slice, pool) is Some,
{
    assert(a * cold_slice + cold_slice <= b * cold_slice) by (nonlinear_arith)
        requires
            a + 1 <= b,
            cold_slice >= 0,
    ;
}

/// The directories of the `k`th slice of a pool.
pub open spec fn slice_of<T>(pool: Seq<T>, k: nat, cold_slice: nat) -> Seq<T> {
    match slice_range(k, cold_slice, pool.len()) {
        Some((lo, hi)) => pool.subrange(lo as int, hi as int),
        None => Seq::empty(),
    }
}

/// No directory that was found once is listed cold twice: not by two sweeps, and not by a sweep
/// and the serial breakdown.
pub proof fn law_no_directory_is_listed_cold_twice<T>(
    dirs: Seq<T>,
    sample: nat,
    cold_slice: nat,
    a: nat,
    b: nat,
    dir: T,
)
    requires
        dirs.no_duplicates(),
        a != b,
    ensures
        ({
            let pool = pooled(dirs, sample);
            &&& !(slice_of(pool, a, cold_slice).contains(dir) && slice_of(
                pool,
                b,
                cold_slice,
            ).contains(dir))
            &&& !(sampled(dirs, sample).contains(dir) && slice_of(pool, a, cold_slice).contains(dir))
        }),
{
    let serial = sampled(dirs, sample);
    let pool = pooled(dirs, sample);
    let first = slice_of(pool, a, cold_slice);
    let second = slice_of(pool, b, cold_slice);
    if a < b {
        law_cold_slices_are_disjoint(a, b, cold_slice, pool.len());
    } else {
        law_cold_slices_are_disjoint(b, a, cold_slice, pool.len());
    }
    if first.contains(dir) {
        let i = choose|i: int| 0 <= i < first.len() && first[i] == dir;
        let (from, _) = slice_range(a, cold_slice, pool.len())->0;
        assert(dirs[sample + from + i] == dir);
        if second.contains(dir) {
            let j = choose|j: int| 0 <= j < second.len() && second[j] == dir;
            let (from, _) = slice_range(b, cold_slice, pool.len())->0;
            assert(dirs[sample + from + j] == dir);
        }
        if serial.contains(dir) {
            let j = choose|j: int| 0 <= j < serial.len() && serial[j] == dir;
            assert(dirs[j] == dir);
        }
    }
}

/// When discovery finds as many directories as are needed, the sample is complete and every slice
/// of every cold sweep has its full size.
pub proof fn law_enough_directories_fill_every_slice(
    dirs: nat,
    sample: nat,
    windows: nat,
    sessions: nat,
    cold_slice: nat,
    k: nat,
)
    requires
        dirs >= needed(sample, windows, sessions, cold_slice),
        k < windows + sessions,
        cold_slice > 0,
    ensures
        sample <= dirs,
        slice_range(k, cold_slice, (dirs - sample) as nat) == Some(
            (k * cold_slice, k * cold_slice + cold_slice),
        ),
{
    assert(k * cold_slice + cold_slice <= (windows + sessions) * cold_slice) by (nonlinear_arith)
        requires
            k + 1 <= windows + sessions,
            cold_slice >= 0,
    ;
}

/// No buffer exceeds the negotiated maximum, and every one is a whole number of KiB that was
/// asked for.
pub proof fn law_buffers_within_maximum(kib: Seq<u32>, max_transact: u32)
    ensures
        forall|i: int|
            0 <= i < usable_buffers(kib, max_transact).len() ==> {
                let size = #[trigger] usable_buffers(kib, max_transact)[i];
                size <= max_transact && exists|j: int|
                    0 <= j < kib.len() && size == #[trigger] kib[j] * 1024
            },
    decreases kib.len(),
{
    if kib.len() > 0 {
        let earlier = usable_buffers(kib.drop_last(), max_transact);
        law_buffers_within_maximum(kib.drop_last(), max_transact);
        assert forall|i: int| 0 <= i < usable_buffers(kib, max_transact).len() implies ({
            let size = #[trigger] usable_buffers(kib, max_transact)[i];
            size <= max_transact && exists|j: int|
                0 <= j < kib.len() && size == #[trigger] kib[j] * 1024
        }) by {
            let size = usable_buffers(kib, max_transact)[i];
            if i < earlier.len() {
                assert(size == earlier[i]);
                let j = choose|j: int|
                    0 <= j < kib.drop_last().len() && size == #[trigger] kib.drop_last()[j] * 1024;
                assert(kib[j] * 1024 == size);
            } else {
                assert(kib[kib.len() - 1] * 1024 == size);
            }
        }
    }
}

/// The widest sweep is one of those asked for, and no other is wider.
pub proof fn law_most_sessions(sessions: Seq<usize>)
    requires
        sessions.len() > 0,
    ensures
        exists|i: int| 0 <= i < sessions.len() && #[trigger] sessions[i] == most_sessions(sessions),
        forall|i: int| 0 <= i < sessions.len() ==> #[trigger] sessions[i] <= most_sessions(sessions),
    decreases sessions.len(),
{
    if sessions.len() == 1 {
        assert(sessions[0] == most_sessions(sessions));
    } else {
        let rest = sessions.drop_last();
        law_most_sessions(rest);
        let i = choose|i: int| 0 <= i < rest.len() && #[trigger] rest[i] == most_sessions(rest);
        assert(sessions[i] == rest[i]);
        assert(sessions[sessions.len() - 1] == sessions.last());
        assert forall|i: int| 0 <= i < sessions.len() implies #[trigger] sessions[i]
            <= most_sessions(sessions) by {
            if i < rest.len() {
                assert(sessions[i] == rest[i]);
            }
        }
    }
}

/// No usable buffer is lost and none is invented: the sizes are those of the requests that fit, each
/// once, in the order of the requests.
pub proof fn law_no_usable_buffer_is_lost(kib: Seq<u32>, max_transact: u32)
    ensures
        usable_buffers(kib, max_transact) == kib.filter(
            |k: u32| k * 1024 <= max_transact,
        ).map_values(|k: u32| (k * 1024) as u32),
        forall|j: int|
            0 <= j < kib.len() && (#[trigger] kib[j]) * 1024 <= max_transact ==> usable_buffers(
                kib,
                max_transact,
            ).contains((kib[j] * 1024) as u32),
    decreases kib.len(),
{
    let fits = |k: u32| k * 1024 <= max_transact;
    let size = |k: u32| (k * 1024) as u32;
    reveal_with_fuel(Seq::filter, 2);
    if kib.len() > 0 {
        law_no_usable_buffer_is_lost(kib.drop_last(), max_transact);
        let earlier = kib.drop_last().filter(fits);
        assert(kib.filter(fits).map_values(size) =~= usable_buffers(kib, max_transact)) by {
            if fits(kib.last()) {
                assert(earlier.push(kib.last()).map_values(size) =~= earlier.map_values(size).push(
                    size(kib.last()),
                ));
            }
        }
        let all = usable_buffers(kib, max_transact);
        let before = usable_buffers(kib.drop_last(), max_transact);
        assert forall|j: int|
            0 <= j < kib.len() && (#[trigger] kib[j]) * 1024
                <= max_transact implies all.contains((kib[j] * 1024) as u32) by {
            if j < kib.len() - 1 {
                assert(kib.drop_last()[j] == kib[j]);
                let i = choose|i: int| 0 <= i < before.len() && before[i] == (kib[j] * 1024) as u32;
                assert(all[i] == before[i]);
            } else {
                assert(all[all.len() - 1] == (kib[j] * 1024) as u32);
            }
        }
    } else {
        assert(kib.filter(fits).map_values(size) =~= usable_buffers(kib, max_transact));
    }
}

/// What two requests for buffers give together is what each gives, one after the other, and a
/// request of one size is granted whole or not at all.
pub proof fn law_buffers_are_judged_one_by_one(a: Seq<u32>, b: Seq<u32>, k: u32, max_transact: u32)
    ensures
        usable_buffers(a + b, max_transact) == usable_buffers(a, max_transact) + usable_buffers(
            b,
            max_transact,
        ),
        k * 1024 <= max_transact ==> usable_buffers(seq![k], max_transact).len() == 1
            && usable_buffers(seq![k], max_transact)[0] == k * 1024,
        k * 1024 > max_transact ==> usable_buffers(seq![k], max_transact).len() == 0,
    decreases b.len(),
{
    if b.len() == 0 {
        assert(a + b =~= a);
        assert(usable_buffers(a, max_transact) + usable_buffers(b, max_transact)
            =~= usable_buffers(a, max_transact));
    } else {
        law_buffers_are_judged_one_by_one(a, b.drop_last(), k, max_transact);
        assert((a + b).drop_last() =~= a + b.drop_last());
        assert((a + b).last() == b.last());
        assert(usable_buffers(a + b, max_transact) =~= usable_buffers(a, max_transact)
            + usable_buffers(b, max_transact));
    }
    assert(seq![k].drop_last() =~= Seq::empty());
    assert(usable_buffers(Seq::<u32>::empty(), max_transact).len() == 0);
}

/// The slices follow one another without a gap: the first starts with the pool, each starts where the
/// one before ended, each is full unless the pool ends in it, and there is one as long as directories
/// are left. Slices of nothing are none.
pub proof fn law_cold_slices_follow_one_another(k: nat, cold_slice: nat, pool: nat)
    ensures
        cold_slice == 0 ==> slice_range(k, cold_slice, pool) is None,
        cold_slice > 0 ==> ({
            &&& slice_range(0, cold_slice, pool) is Some <==> pool > 0
            &&& slice_range(0, cold_slice, pool) matches Some((lo, _)) ==> lo == 0
            &&& slice_range(k, cold_slice, pool) matches Some((lo, hi)) ==> {
                &&& lo < hi <= pool
                &&& hi == lo + cold_slice || (hi == pool && hi < lo + cold_slice)
                &&& slice_range(k + 1, cold_slice, pool) is Some <==> hi < pool
                &&& slice_range(k + 1, cold_slice, pool) matches Some((next, _)) ==> next == hi
            }
            &&& slice_range(k, cold_slice, pool) is None ==> slice_range(
                k + 1,
                cold_slice,
                pool,
            ) is None
        }),
{
    assert(0 * cold_slice == 0) by (nonlinear_arith);
    assert((k + 1) * cold_slice == k * cold_slice + cold_slice) by (nonlinear_arith);
    if cold_slice == 0 {
        assert(k * cold_slice == 0) by (nonlinear_arith)
            requires
                cold_slice == 0,
        ;
    }
}

/// The sample and the pool are all the directories, in order, and the sample is as large as was
/// asked for if there are that many.
pub proof fn law_sample_and_pool_are_everything<T>(dirs: Seq<T>, sample: nat)
    ensures
        sampled(dirs, sample) + pooled(dirs, sample) == dirs,
        sampled(dirs, sample).len() == (if sample <= dirs.len() {
            sample
        } else {
            dirs.len()
        }),
{
    assert(sampled(dirs, sample) + pooled(dirs, sample) =~= dirs);
}

/// Every directory of the sample, and every slice of every sweep, is counted once.
pub proof fn law_what_is_needed(sample: nat, windows: nat, sessions: nat, cold_slice: nat)
    ensures
        needed(0, 0, 0, cold_slice) == 0,
        needed(sample + 1, windows, sessions, cold_slice) == needed(
            sample,
            windows,
            sessions,
            cold_slice,
        ) + 1,
        needed(sample, windows + 1, sessions, cold_slice) == needed(
            sample,
            windows,
            sessions,
            cold_slice,
        ) + cold_slice,
        needed(sample, windows, sessions + 1, cold_slice) == needed(
            sample,
            windows,
            sessions,
            cold_slice,
        ) + cold_slice,
{
    assert((0nat + 0nat) * cold_slice == 0) by (nonlinear_arith);
    assert((windows + 1 + sessions) * cold_slice == (windows + sessions) * cold_slice + cold_slice)
        by (nonlinear_arith);
    assert((windows + (sessions + 1)) * cold_slice == (windows + sessions) * cold_slice
        + cold_slice) by (nonlinear_arith);
}

/// Without a session count to sweep over, one session is enough; otherwise another count raises the
/// number of sessions exactly if it is larger.
pub proof fn law_session_counts(sessions: Seq<usize>, k: usize)
    ensures
        most_sessions(Seq::<usize>::empty()) == 1,
        most_sessions(seq![k]) == k,
        sessions.len() > 0 ==> most_sessions(sessions.push(k)) == (if k > most_sessions(sessions) {
            k as int
        } else {
            most_sessions(sessions) as int
        }),
{
    assert(sessions.push(k).drop_last() =~= sessions);
}

/// A range of indices is seen as it is.
pub proof fn law_range_view(lo: usize, hi: usize)
    ensures
        range_view(Some((lo, hi))) == Some((lo as nat, hi as nat)),
        range_view(None) is None,
{
}

} // verus!
