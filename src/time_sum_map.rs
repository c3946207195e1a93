use std::collections::HashMap;
use vstd::prelude::*;

verus! {

/// A boot moment's (month, day, minute, second).
pub type BootTime = (u8, u8, u8, u8);

/// The lists of boot moments keyed by their time sum.
pub type TimeSumMap = HashMap<u16, Vec<BootTime>>;

/// The last day of a month, with February at 28.
pub open spec fn max_day(month: int) -> int {
    if month == 2 {
        28
    } else if month == 4 || month == 6 || month == 9 || month == 11 {
        30
    } else {
        31
    }
}

/// Whether `q` is a calendar date with a minute and a second.
pub open spec fn valid_boot_time(q: BootTime) -> bool {
    &&& 1 <= q.0 <= 12
    &&& 1 <= q.1 <= max_day(q.0 as int)
    &&& q.2 <= 59
    &&& q.3 <= 59
}

/// `month * day + minute + second`.
pub open spec fn time_sum_of(q: BootTime) -> int {
    q.0 * q.1 + q.2 + q.3
}

/// The place of a boot moment in calendar order.
pub open spec fn boot_time_pos(q: BootTime) -> int {
    moment_pos(q.0 as int, q.1 as int, q.2 as int, q.3 as int)
}

pub open spec fn moment_pos(m: int, d: int, mi: int, s: int) -> int {
    ((m * 32 + d) * 64 + mi) * 64 + s
}

/// Whether `l` lists, in calendar order, every boot moment whose time sum is `k`.
pub open spec fn time_sum_list(k: int, l: Seq<BootTime>) -> bool {
    &&& forall|i: int|
        #![trigger l[i]]
        0 <= i < l.len() ==> valid_boot_time(l[i]) && time_sum_of(l[i]) == k
    &&& forall|i: int, j: int|
        #![trigger l[i], l[j]]
        0 <= i < j < l.len() ==> boot_time_pos(l[i]) < boot_time_pos(l[j])
    &&& forall|q: BootTime|
        #![trigger valid_boot_time(q)]
        valid_boot_time(q) && time_sum_of(q) == k ==> l.contains(q)
}

/// Whether a map holds a key exactly for each time sum that some boot moment
/// has, with the list of all those moments in calendar order.
pub open spec fn time_sum_map_wf(m: Map<u16, Vec<BootTime>>) -> bool {
    &&& forall|k: u16|
        #![trigger m.contains_key(k)]
        m.contains_key(k) <==> exists|q: BootTime|
            #![trigger valid_boot_time(q)]
            valid_boot_time(q) && time_sum_of(q) == k
    &&& forall|k: u16| #![trigger m[k]] m.contains_key(k) ==> time_sum_list(k as int, m[k]@)
}

/// No boot moment has a time sum above 490.
pub proof fn lemma_time_sum_bound(q: BootTime)
    requires
        valid_boot_time(q),
    ensures
        1 <= time_sum_of(q) <= 490,
{
    assert(1 <= q.0 * q.1 <= 12 * 31) by (nonlinear_arith)
        requires
            1 <= q.0 <= 12,
            1 <= q.1 <= 31,
    ;
}

/// The boot moments with time sum `k` before `(m, d, mi)` in calendar order.
spec fn list_before(k: int, l: Seq<BootTime>, m: int, d: int, mi: int) -> bool {
    &&& forall|i: int|
        #![trigger l[i]]
        0 <= i < l.len() ==> valid_boot_time(l[i]) && time_sum_of(l[i]) == k && boot_time_pos(l[i])
            < moment_pos(m, d, mi, 0)
    &&& forall|i: int, j: int|
        #![trigger l[i], l[j]]
        0 <= i < j < l.len() ==> boot_time_pos(l[i]) < boot_time_pos(l[j])
    &&& forall|q: BootTime|
        #![trigger valid_boot_time(q)]
        valid_boot_time(q) && time_sum_of(q) == k && boot_time_pos(q) < moment_pos(m, d, mi, 0)
            ==> l.contains(q)
}

fn max_day_of(month: u8) -> (r: u8)
    ensures
        r == max_day(month as int),
{
    if month == 2 {
        28
    } else if month == 4 || month == 6 || month == 9 || month == 11 {
        30
    } else {
        31
    }
}

/// Lists the boot moments whose time sum is `k`, in calendar order.
fn boot_times_with_sum(k: u16) -> (l: Vec<BootTime>)
    ensures
        time_sum_list(k as int, l@),
{
    let mut l: Vec<BootTime> = Vec::new();
    let mut m: u8 = 1;
    while m <= 12
        invariant
            1 <= m <= 13,
            list_before(k as int, l@, m as int, 1, 0),
        decreases 13 - m,
    {
        let last = max_day_of(m);
        let mut d: u8 = 1;
        while d <= last
            invariant
                1 <= m <= 12,
                last == max_day(m as int),
                1 <= d <= last + 1,
                list_before(k as int, l@, m as int, d as int, 0),
            decreases last + 1 - d,
        {
            let mut mi: u8 = 0;
            while mi <= 59
                invariant
                    1 <= m <= 12,
                    1 <= d <= last,
                    last == max_day(m as int),
                    mi <= 60,
                    list_before(k as int, l@, m as int, d as int, mi as int),
                decreases 60 - mi,
            {
                let ghost before = l@;
                assert(m * d <= 372) by (nonlinear_arith)
                    requires
                        1 <= m <= 12,
                        1 <= d <= 31,
                ;
                let md: u16 = m as u16 * d as u16;
                if md + mi as u16 <= k && k - md - mi as u16 <= 59 {
                    let s = (k - md - mi as u16) as u8;
                    l.push((m, d, mi, s));
                    assert forall|q: BootTime|
                        #![trigger valid_boot_time(q)]
                        valid_boot_time(q) && time_sum_of(q) == k && boot_time_pos(q) < moment_pos(
                            m as int,
                            d as int,
                            mi + 1,
                            0,
                        ) implies l@.contains(q) by {
                        if boot_time_pos(q) < moment_pos(m as int, d as int, mi as int, 0) {
                            let i = choose|i: int| 0 <= i < before.len() && before[i] == q;
                            assert(l@[i] == q);
                        } else {
                            assert(q.0 == m && q.1 == d && q.2 == mi);
                            assert(l@[before.len() as int] == q);
                        }
                    }
                } else {
                    assert forall|q: BootTime|
                        #![trigger valid_boot_time(q)]
                        valid_boot_time(q) && time_sum_of(q) == k && boot_time_pos(q) < moment_pos(
                            m as int,
                            d as int,
                            mi + 1,
                            0,
                        ) implies l@.contains(q) by {
                        if boot_time_pos(q) >= moment_pos(m as int, d as int, mi as int, 0) {
                            assert(q.0 == m && q.1 == d && q.2 == mi);
                        }
                    }
                }
                mi = mi + 1;
            }
            assert forall|q: BootTime|
                #![trigger valid_boot_time(q)]
                valid_boot_time(q) && time_sum_of(q) == k && boot_time_pos(q) < moment_pos(
                    m as int,
                    d + 1,
                    0,
                    0,
                ) implies l@.contains(q) by {
                assert(boot_time_pos(q) < moment_pos(m as int, d as int, 60, 0));
            }
            d = d + 1;
        }
        assert forall|q: BootTime|
            #![trigger valid_boot_time(q)]
            valid_boot_time(q) && time_sum_of(q) == k && boot_time_pos(q) < moment_pos(
                m + 1,
                1,
                0,
                0,
            ) implies l@.contains(q) by {
            assert(boot_time_pos(q) < moment_pos(m as int, d as int, 0, 0));
        }
        m = m + 1;
    }
    assert forall|q: BootTime|
        #![trigger valid_boot_time(q)]
        valid_boot_time(q) && time_sum_of(q) == k implies l@.contains(q) by {
        assert(boot_time_pos(q) < moment_pos(13, 1, 0, 0));
    }
    l
}

/// Builds the map from each time sum to every boot moment that has it.
pub fn build_time_sum_map() -> (r: TimeSumMap)
    ensures
        time_sum_map_wf(r@),
{
    let mut map: TimeSumMap = HashMap::new();
    let mut k: u16 = 0;
    while k <= 490
        invariant
            k <= 491,
            forall|key: u16|
                #![trigger map@.contains_key(key)]
                map@.contains_key(key) <==> key < k && exists|q: BootTime|
                    #![trigger valid_boot_time(q)]
                    valid_boot_time(q) && time_sum_of(q) == key,
            forall|key: u16|
                #![trigger map@[key]]
                map@.contains_key(key) ==> time_sum_list(key as int, map@[key]@),
        decreases 491 - k,
    {
        let l = boot_times_with_sum(k);
        if l.len() > 0 {
            assert(valid_boot_time(l@[0]) && time_sum_of(l@[0]) == k);
            map.insert(k, l);
        } else {
            assert forall|q: BootTime|
                #![trigger valid_boot_time(q)]
                valid_boot_time(q) implies time_sum_of(q) != k by {
                if time_sum_of(q) == k {
                    assert(l@.contains(q));
                }
            }
        }
        k = k + 1;
    }
    assert forall|key: u16|
        #![trigger map@.contains_key(key)]
        map@.contains_key(key) <== exists|q: BootTime|
            #![trigger valid_boot_time(q)]
            valid_boot_time(q) && time_sum_of(q) == key by {
        if exists|q: BootTime|
            #![trigger valid_boot_time(q)]
            valid_boot_time(q) && time_sum_of(q) == key {
            let q = choose|q: BootTime| valid_boot_time(q) && time_sum_of(q) == key;
            lemma_time_sum_bound(q);
        }
    }
    map
}

/// Whether boot moment `q` can give an initial seed whose top byte is `ts` when
/// the game waits `wt` seconds after the boot: its time sum matches modulo 256,
/// the wait is at least 14 seconds, and at least 10 seconds of the minute are
/// left before the wait.
pub open spec fn boot_qualifies(q: BootTime, ts: int, wt: int) -> bool {
    &&& valid_boot_time(q)
    &&& time_sum_of(q) % 256 == ts
    &&& wt >= 14
    &&& q.3 >= wt
    &&& q.3 - wt >= 10
}

/// One line of a year's boot list: (month, day) and (hour, minute, boot second, second).
pub type BootEntry = ((u8, u8), (u8, u8, u8, u8));

/// The boot moment that a line names.
pub open spec fn entry_moment(e: BootEntry) -> BootTime {
    (e.0.0, e.0.1, e.1.1, e.1.3)
}

/// The place of a (month, day) in calendar order.
pub open spec fn day_pos(m: int, d: int) -> int {
    m * 32 + d
}

/// Whether line `e` gives, for its day, the qualifying moment with the earliest
/// second, at hour `hour`, with its boot second.
pub open spec fn boot_entry_ok(ts: int, hour: int, wt: int, e: BootEntry) -> bool {
    let q = entry_moment(e);
    &&& e.1.0 == hour
    &&& boot_qualifies(q, ts, wt)
    &&& e.1.2 == q.3 - wt
    &&& forall|q2: BootTime|
        #![trigger boot_qualifies(q2, ts, wt)]
        boot_qualifies(q2, ts, wt) && q2.0 == q.0 && q2.1 == q.1 ==> q.3 <= q2.3
}

/// Whether `l` holds one line for each day with a qualifying moment, in calendar order.
pub open spec fn boot_list_ok(ts: int, hour: int, wt: int, l: Seq<BootEntry>) -> bool {
    &&& forall|i: int| #![trigger l[i]] 0 <= i < l.len() ==> boot_entry_ok(ts, hour, wt, l[i])
    &&& forall|i: int, j: int|
        #![trigger l[i], l[j]]
        0 <= i < j < l.len() ==> day_pos(l[i].0.0 as int, l[i].0.1 as int) < day_pos(
            l[j].0.0 as int,
            l[j].0.1 as int,
        )
    &&& forall|q: BootTime|
        #![trigger boot_qualifies(q, ts, wt)]
        boot_qualifies(q, ts, wt) ==> exists|i: int|
            0 <= i < l.len() && l[i].0.0 == q.0 && l[i].0.1 == q.1
}

/// The whole seconds that the game waits in year offset `y`: the frames since the
/// boot, `frame_sum - y`, plus the blank frames, over 60.
pub open spec fn waiting_time(frame_sum: int, y: int, blank_frame: int) -> int {
    (frame_sum - y + blank_frame) / 60
}

/// The slot of a day in a table of twelve months of 31 days.
pub open spec fn day_slot(q: BootTime) -> int {
    (q.0 - 1) * 31 + (q.1 - 1)
}

/// The table `best` holds, for each day, the qualifying moment of `seen` with the
/// earliest second, and nothing for a day without one.
spec fn best_ok(best: Seq<Option<BootTime>>, ts: int, wt: int, seen: Set<BootTime>) -> bool {
    &&& best.len() == 372
    &&& forall|i: int|
        #![trigger best[i]]
        0 <= i < 372 ==> match best[i] {
            Some(q) => {
                &&& boot_qualifies(q, ts, wt)
                &&& day_slot(q) == i
                &&& seen.contains(q)
                &&& forall|q2: BootTime|
                    #![trigger boot_qualifies(q2, ts, wt)]
                    seen.contains(q2) && boot_qualifies(q2, ts, wt) && day_slot(q2) == i ==> q.3
                        <= q2.3
            },
            None => forall|q2: BootTime|
                #![trigger boot_qualifies(q2, ts, wt)]
                seen.contains(q2) && boot_qualifies(q2, ts, wt) ==> day_slot(q2) != i,
        }
}

proof fn lemma_day_slot(q: BootTime)
    requires
        valid_boot_time(q),
    ensures
        0 <= day_slot(q) < 372,
        forall|q2: BootTime|
            #![trigger valid_boot_time(q2)]
            valid_boot_time(q2) && day_slot(q2) == day_slot(q) ==> q2.0 == q.0 && q2.1 == q.1,
{
}

/// Keeps in `best` the earliest qualifying moment of each day among those seen
/// and those of `l`, a list of moments with time sum `key`.
fn scan_boot_times(
    best: &mut Vec<Option<BootTime>>,
    l: &Vec<BootTime>,
    key: u16,
    ts: u16,
    wt: u32,
    Ghost(seen): Ghost<Set<BootTime>>,
)
    requires
        best_ok(old(best)@, ts as int, wt as int, seen),
        time_sum_list(key as int, l@),
        key % 256 == ts,
    ensures
        best_ok(final(best)@, ts as int, wt as int, seen.union(l@.to_set())),
{
    let mut i: usize = 0;
    while i < l.len()
        invariant
            i <= l@.len(),
            time_sum_list(key as int, l@),
            key % 256 == ts,
            best_ok(best@, ts as int, wt as int, seen.union(l@.subrange(0, i as int).to_set())),
        decreases l@.len() - i,
    {
        let ghost seen0 = seen.union(l@.subrange(0, i as int).to_set());
        let ghost seen1 = seen.union(l@.subrange(0, i as int + 1).to_set());
        assert(seen1 =~= seen0.insert(l@[i as int])) by {
            assert(l@.subrange(0, i as int + 1) =~= l@.subrange(0, i as int).push(l@[i as int]));
            broadcast use vstd::seq_lib::group_seq_properties;
        }
        let q = l[i];
        assert(valid_boot_time(q) && time_sum_of(q) == key);
        let second = q.3 as u32;
        if wt >= 14 && second >= wt && second - wt >= 10 {
            proof {
                lemma_day_slot(q);
            }
            let slot = ((q.0 - 1) as usize) * 31 + (q.1 - 1) as usize;
            let replace = match best[slot] {
                Some(prev) => q.3 < prev.3,
                None => true,
            };
            if replace {
                best.set(slot, Some(q));
            }
            assert forall|k: int| #![trigger best@[k]] 0 <= k < 372 implies match best@[k] {
                Some(b) => {
                    &&& boot_qualifies(b, ts as int, wt as int)
                    &&& day_slot(b) == k
                    &&& seen1.contains(b)
                    &&& forall|q2: BootTime|
                        #![trigger boot_qualifies(q2, ts as int, wt as int)]
                        seen1.contains(q2) && boot_qualifies(q2, ts as int, wt as int)
                            && day_slot(q2) == k ==> b.3 <= q2.3
                },
                None => forall|q2: BootTime|
                    #![trigger boot_qualifies(q2, ts as int, wt as int)]
                    seen1.contains(q2) && boot_qualifies(q2, ts as int, wt as int) ==> day_slot(q2)
                        != k,
            } by {}
        } else {
            assert(!boot_qualifies(q, ts as int, wt as int));
        }
        i = i + 1;
    }
    assert(l@.subrange(0, l@.len() as int) =~= l@);
}

/// The boot list of one year: for each day in calendar order, the qualifying
/// moment with the earliest second, found among the moments that `map` lists
/// under `ts` and `ts + 256`.
#[verifier::rlimit(40)]
pub fn boot_list_for_year(map: &TimeSumMap, ts: u16, hour: u8, wt: u32) -> (l: Vec<BootEntry>)
    requires
        time_sum_map_wf(map@),
        ts < 256,
    ensures
        boot_list_ok(ts as int, hour as int, wt as int, l@),
{
    let mut best: Vec<Option<BootTime>> = Vec::new();
    let mut i: usize = 0;
    while i < 372
        invariant
            i <= 372,
            best@.len() == i,
            forall|k: int| 0 <= k < i ==> best@[k] is None,
        decreases 372 - i,
    {
        best.push(None);
        i = i + 1;
    }
    let ghost seen: Set<BootTime> = Set::empty();
    assert(best_ok(best@, ts as int, wt as int, seen));
    match map.get(&ts) {
        Some(l) => {
            scan_boot_times(&mut best, l, ts, ts, wt, Ghost(seen));
            proof {
                seen = seen.union(l@.to_set());
            }
        },
        None => {},
    }
    let high = ts + 256;
    match map.get(&high) {
        Some(l) => {
            scan_boot_times(&mut best, l, high, ts, wt, Ghost(seen));
            proof {
                seen = seen.union(l@.to_set());
            }
        },
        None => {},
    }
    assert forall|q: BootTime|
        #![trigger boot_qualifies(q, ts as int, wt as int)]
        boot_qualifies(q, ts as int, wt as int) implies seen.contains(q) by {
        lemma_time_sum_bound(q);
        let key: u16 = time_sum_of(q) as u16;
        assert(key == ts || key == high);
        assert(map@.contains_key(key));
        assert(time_sum_list(key as int, map@[key]@));
        assert(map@[key]@.contains(q));
    }
    let mut out: Vec<BootEntry> = Vec::new();
    let mut slot: usize = 0;
    while slot < 372
        invariant
            slot <= 372,
            best_ok(best@, ts as int, wt as int, seen),
            forall|q: BootTime|
                #![trigger boot_qualifies(q, ts as int, wt as int)]
                boot_qualifies(q, ts as int, wt as int) ==> seen.contains(q),
            forall|i: int| #![trigger out@[i]] 0 <= i < out@.len() ==> {
                &&& boot_entry_ok(ts as int, hour as int, wt as int, out@[i])
                &&& day_slot(entry_moment(out@[i])) < slot
            },
            forall|i: int, j: int|
                #![trigger out@[i], out@[j]]
                0 <= i < j < out@.len() ==> day_pos(out@[i].0.0 as int, out@[i].0.1 as int)
                    < day_pos(out@[j].0.0 as int, out@[j].0.1 as int),
            forall|q: BootTime|
                #![trigger boot_qualifies(q, ts as int, wt as int)]
                boot_qualifies(q, ts as int, wt as int) && day_slot(q) < slot ==> exists|i: int|
                    0 <= i < out@.len() && out@[i].0.0 == q.0 && out@[i].0.1 == q.1,
        decreases 372 - slot,
    {
        match best[slot] {
            Some(q) => {
                let ghost before = out@;
                let e: BootEntry = ((q.0, q.1), (hour, q.2, (q.3 as u32 - wt) as u8, q.3));
                assert(entry_moment(e) == q);
                out.push(e);
                assert forall|q2: BootTime|
                    #![trigger boot_qualifies(q2, ts as int, wt as int)]
                    boot_qualifies(q2, ts as int, wt as int) && day_slot(q2) < slot + 1
                        implies exists|i: int|
                        0 <= i < out@.len() && out@[i].0.0 == q2.0 && out@[i].0.1 == q2.1 by {
                    if day_slot(q2) < slot {
                        let i = choose|i: int|
                            0 <= i < before.len() && before[i].0.0 == q2.0 && before[i].0.1 == q2.1;
                        assert(out@[i] == before[i]);
                    } else {
                        lemma_day_slot(q);
                        assert(out@[before.len() as int] == e);
                    }
                }
                assert forall|i: int, j: int|
                    #![trigger out@[i], out@[j]]
                    0 <= i < j < out@.len() implies day_pos(out@[i].0.0 as int, out@[i].0.1 as int)
                        < day_pos(out@[j].0.0 as int, out@[j].0.1 as int) by {
                    assert(out@[i] == before[i]);
                    if j < before.len() {
                        assert(out@[j] == before[j]);
                    }
                }
                assert forall|i: int| #![trigger out@[i]] 0 <= i < out@.len() implies {
                    &&& boot_entry_ok(ts as int, hour as int, wt as int, out@[i])
                    &&& day_slot(entry_moment(out@[i])) < slot + 1
                } by {
                    if i < before.len() {
                        assert(out@[i] == before[i]);
                    }
                }
            },
            None => {},
        }
        slot = slot + 1;
    }
    assert forall|q: BootTime|
        #![trigger boot_qualifies(q, ts as int, wt as int)]
        boot_qualifies(q, ts as int, wt as int) implies exists|i: int|
            0 <= i < out@.len() && out@[i].0.0 == q.0 && out@[i].0.1 == q.1 by {
        lemma_day_slot(q);
    }
    out
}

/// One stored line of the table: a time sum and one of its boot moments.
pub type TimeSumEntry = (u16, u8, u8, u8, u8);

/// A map of lists seen by the lists' contents.
pub open spec fn lists_view(m: Map<u16, Vec<BootTime>>) -> Map<u16, Seq<BootTime>> {
    m.map_values(|v: Vec<BootTime>| v@)
}

/// The lines for the moments `l` of time sum `k`.
pub open spec fn key_entries(k: u16, l: Seq<BootTime>) -> Seq<TimeSumEntry> {
    Seq::new(l.len(), |i: int| (k, l[i].0, l[i].1, l[i].2, l[i].3))
}

/// The lines of the keys below `n`, key by key in increasing order, each list in its order.
pub open spec fn entries_below(mv: Map<u16, Seq<BootTime>>, n: nat) -> Seq<TimeSumEntry>
    decreases n,
{
    if n == 0 {
        seq![]
    } else {
        let k = (n - 1) as u16;
        entries_below(mv, (n - 1) as nat) + if mv.contains_key(k) {
            key_entries(k, mv[k])
        } else {
            seq![]
        }
    }
}

/// The stored form of a table: the lines of its keys 0 to 490.
pub open spec fn stored_entries(mv: Map<u16, Seq<BootTime>>) -> Seq<TimeSumEntry> {
    entries_below(mv, 491)
}

/// What bincode's standard decoding, limited to 16 MiB (16777216 bytes) read or
/// claimed for containers, makes of `b` as a list of table lines; `None` when the
/// bytes do not decode under that limit.
pub uninterp spec fn bincode_time_sum_entries(b: Seq<u8>) -> Option<Seq<TimeSumEntry>>;

/// Relies on `bincode::decode_from_slice` with
/// `bincode::config::standard().with_limit::<16777216>()` for a `Vec` of
/// `(u16, u8, u8, u8, u8)`: the list it decodes depends on the bytes alone, and it
/// fails the same way on the same bytes. The limit makes a length read from corrupt
/// bytes fail with `LimitExceeded` before anything is allocated for it; the charge
/// per element is the element's size, six bytes on every target.
#[verifier::external_body]
fn decode_time_sum_entries(bytes: &[u8]) -> (r: Option<Vec<TimeSumEntry>>)
    ensures
        r matches Some(v) ==> bincode_time_sum_entries(bytes@) == Some(v@),
        r is None ==> bincode_time_sum_entries(bytes@) is None,
{
    let config = bincode::config::standard().with_limit::<16777216>();
    bincode::decode_from_slice::<Vec<TimeSumEntry>, _>(bytes, config).ok().map(
        |decoded: (Vec<TimeSumEntry>, usize)| decoded.0,
    )
}

/// Two lists in strictly increasing calendar order with the same moments are equal.
proof fn lemma_sorted_lists_equal(l1: Seq<BootTime>, l2: Seq<BootTime>)
    requires
        forall|i: int, j: int|
            #![trigger l1[i], l1[j]]
            0 <= i < j < l1.len() ==> boot_time_pos(l1[i]) < boot_time_pos(l1[j]),
        forall|i: int, j: int|
            #![trigger l2[i], l2[j]]
            0 <= i < j < l2.len() ==> boot_time_pos(l2[i]) < boot_time_pos(l2[j]),
        forall|q: BootTime| l1.contains(q) <==> l2.contains(q),
    ensures
        l1 == l2,
    decreases l1.len() + l2.len(),
{
    if l1.len() == 0 {
        if l2.len() > 0 {
            assert(l2.contains(l2[0]));
        }
        assert(l1 =~= l2);
    } else if l2.len() == 0 {
        assert(l1.contains(l1[0]));
    } else {
        assert(l1.contains(l1[0]));
        assert(l2.contains(l2[0]));
        let j = choose|j: int| 0 <= j < l2.len() && l2[j] == l1[0];
        let i = choose|i: int| 0 <= i < l1.len() && l1[i] == l2[0];
        if j > 0 {
            assert(boot_time_pos(l2[0]) < boot_time_pos(l2[j]));
            if i > 0 {
                assert(boot_time_pos(l1[0]) < boot_time_pos(l1[i]));
            }
        }
        assert(l1[0] == l2[0]);
        let t1 = l1.drop_first();
        let t2 = l2.drop_first();
        assert forall|q: BootTime| t1.contains(q) <==> t2.contains(q) by {
            if t1.contains(q) {
                let a = choose|a: int| 0 <= a < t1.len() && t1[a] == q;
                assert(l1[a + 1] == q);
                assert(boot_time_pos(l1[0]) < boot_time_pos(l1[a + 1]));
                assert(l2.contains(q));
                let b = choose|b: int| 0 <= b < l2.len() && l2[b] == q;
                if b == 0 {
                    assert(false);
                }
                assert(t2[b - 1] == q);
            }
            if t2.contains(q) {
                let a = choose|a: int| 0 <= a < t2.len() && t2[a] == q;
                assert(l2[a + 1] == q);
                assert(boot_time_pos(l2[0]) < boot_time_pos(l2[a + 1]));
                assert(l1.contains(q));
                let b = choose|b: int| 0 <= b < l1.len() && l1[b] == q;
                if b == 0 {
                    assert(false);
                }
                assert(t1[b - 1] == q);
            }
        }
        assert forall|a: int, b: int|
            #![trigger t1[a], t1[b]]
            0 <= a < b < t1.len() implies boot_time_pos(t1[a]) < boot_time_pos(t1[b]) by {
            assert(t1[a] == l1[a + 1] && t1[b] == l1[b + 1]);
        }
        assert forall|a: int, b: int|
            #![trigger t2[a], t2[b]]
            0 <= a < b < t2.len() implies boot_time_pos(t2[a]) < boot_time_pos(t2[b]) by {
            assert(t2[a] == l2[a + 1] && t2[b] == l2[b + 1]);
        }
        lemma_sorted_lists_equal(t1, t2);
        assert(l1 =~= seq![l1[0]] + t1);
        assert(l2 =~= seq![l2[0]] + t2);
    }
}

/// There is one list of all boot moments with a given time sum.
pub proof fn lemma_time_sum_list_unique(k: int, l1: Seq<BootTime>, l2: Seq<BootTime>)
    requires
        time_sum_list(k, l1),
        time_sum_list(k, l2),
    ensures
        l1 == l2,
{
    assert forall|q: BootTime| l1.contains(q) <==> l2.contains(q) by {
        if l1.contains(q) {
            let i = choose|i: int| 0 <= i < l1.len() && l1[i] == q;
            assert(valid_boot_time(l1[i]));
        }
        if l2.contains(q) {
            let i = choose|i: int| 0 <= i < l2.len() && l2[i] == q;
            assert(valid_boot_time(l2[i]));
        }
    }
    lemma_sorted_lists_equal(l1, l2);
}


/// Two well-formed tables have the same lists.
pub proof fn lemma_wf_tables_agree(m1: Map<u16, Vec<BootTime>>, m2: Map<u16, Vec<BootTime>>)
    requires
        time_sum_map_wf(m1),
        time_sum_map_wf(m2),
    ensures
        lists_view(m1) == lists_view(m2),
{
    assert forall|k: u16| m1.contains_key(k) <==> m2.contains_key(k) by {
        assert(m1.contains_key(k) <==> exists|q: BootTime|
            #![trigger valid_boot_time(q)]
            valid_boot_time(q) && time_sum_of(q) == k);
    }
    assert forall|k: u16| m1.contains_key(k) implies m1[k]@ == m2[k]@ by {
        lemma_time_sum_list_unique(k as int, m1[k]@, m2[k]@);
    }
    assert(lists_view(m1) =~= lists_view(m2));
}

/// The stored form of a table: its lines, key by key, each list in its order.
pub fn time_sum_entries(map: &TimeSumMap) -> (r: Vec<TimeSumEntry>)
    ensures
        r@ == stored_entries(lists_view(map@)),
{
    let ghost mv = lists_view(map@);
    let mut r: Vec<TimeSumEntry> = Vec::new();
    let mut key: u16 = 0;
    while key <= 490
        invariant
            key <= 491,
            mv == lists_view(map@),
            r@ == entries_below(mv, key as nat),
        decreases 491 - key,
    {
        let ghost before = r@;
        match map.get(&key) {
            Some(l) => {
                assert(mv.contains_key(key) && mv[key] == l@);
                let mut j: usize = 0;
                while j < l.len()
                    invariant
                        j <= l@.len(),
                        r@ == before + key_entries(key, l@).subrange(0, j as int),
                    decreases l@.len() - j,
                {
                    let q = l[j];
                    r.push((key, q.0, q.1, q.2, q.3));
                    assert(key_entries(key, l@).subrange(0, j as int + 1) =~= key_entries(
                        key,
                        l@,
                    ).subrange(0, j as int).push((key, q.0, q.1, q.2, q.3)));
                    assert(r@ =~= before + key_entries(key, l@).subrange(0, j as int + 1));
                    j = j + 1;
                }
                assert(key_entries(key, l@).subrange(0, l@.len() as int) =~= key_entries(key, l@));
            },
            None => {
                assert(!mv.contains_key(key));
                assert(r@ =~= before + seq![]);
            },
        }
        let ghost added = if mv.contains_key(key) {
            key_entries(key, mv[key])
        } else {
            seq![]
        };
        assert(entries_below(mv, key as nat + 1) == entries_below(mv, key as nat) + added);
        key = key + 1;
    }
    r
}

fn same_entries(x: &Vec<TimeSumEntry>, y: &Vec<TimeSumEntry>) -> (r: bool)
    ensures
        r == (x@ == y@),
{
    if x.len() != y.len() {
        return false;
    }
    let mut i: usize = 0;
    while i < x.len()
        invariant
            i <= x@.len(),
            x@.len() == y@.len(),
            forall|k: int| 0 <= k < i ==> x@[k] == y@[k],
        decreases x@.len() - i,
    {
        let a = x[i];
        let b = y[i];
        if !(a.0 == b.0 && a.1 == b.1 && a.2 == b.2 && a.3 == b.3 && a.4 == b.4) {
            return false;
        }
        i = i + 1;
    }
    assert(x@ =~= y@);
    true
}

/// Reads the table of boot moments from its stored bincode bytes: the table when
/// the bytes decode to exactly its stored form, nothing otherwise.
pub fn load_time_sum_map(bytes: &[u8]) -> (r: Option<TimeSumMap>)
    ensures
        r matches Some(m) ==> time_sum_map_wf(m@) && bincode_time_sum_entries(bytes@) == Some(
            stored_entries(lists_view(m@)),
        ),
        r is None ==> bincode_time_sum_entries(bytes@) is None || forall|m: TimeSumMap|
            time_sum_map_wf(#[trigger] m@) ==> bincode_time_sum_entries(bytes@) != Some(
                stored_entries(lists_view(m@)),
            ),
{
    match decode_time_sum_entries(bytes) {
        Some(decoded) => {
            let built = build_time_sum_map();
            let expected = time_sum_entries(&built);
            if same_entries(&decoded, &expected) {
                Some(built)
            } else {
                assert forall|m: TimeSumMap|
                    time_sum_map_wf(#[trigger] m@) implies bincode_time_sum_entries(bytes@)
                        != Some(stored_entries(lists_view(m@))) by {
                    lemma_wf_tables_agree(m@, built@);
                }
                None
            }
        },
        None => None,
    }
}

} // verus!
