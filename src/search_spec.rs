use crate::rand_analyzer::{
    join_rands, lemma_pack_ivs_value, lemma_pack_unpack, pack_ivs, unpack_ivs,
};
use crate::rng_lc::{
    draw, lc_advance, lc_next, lc_prev, lc_retreat, lemma_advance_retreat, lemma_next_prev_inverse,
    lemma_retreat_add,
};
use crate::rng_mt::mt_pid;
use crate::seed_analyzer::{ivs_of, shiny_spec, status_of};
use crate::seed_searcher::{
    feasible_initial_seed, lemma_resolve_initial_seed, resolve_initial_seed, seed_frame_sum,
    seed_hour, seed_time_sum, ReturnParams, SearchParams,
};
use crate::types::{IVRange, IVRanges, IVs, Status};
use vstd::arithmetic::div_mod::lemma_fundamental_div_mod_converse;
use vstd::prelude::*;

verus! {

/// Whether a status passes the filters of a search other than the value ranges.
pub open spec fn status_filters(p: SearchParams, st: Status) -> bool {
    &&& p.nature == -1 || p.nature == st.nature as i16
    &&& p.ability == -1 || p.ability == st.ability as i16
    &&& !p.shiny || st.shiny
    &&& p.hidden_power_type == -1 || p.hidden_power_type == st.hidden_power_type as i16
    &&& p.hidden_power_power_min <= st.hidden_power_power <= p.hidden_power_power_max
}

/// Whether the state `iv1` of the first IV draw answers a status search: its values
/// lie in the ranges, its status passes the filters, and a feasible initial seed
/// lies behind its first PID draw.
pub open spec fn status_hit(p: SearchParams, iv1: u32) -> bool {
    &&& p.iv_ranges.spec_contains(ivs_of(iv1))
    &&& status_filters(p, status_of(iv1, p.tid, p.sid))
    &&& resolve_initial_seed(lc_retreat(iv1, 2), p.max_advances, p.max_frame_sum) is Some
}

/// The result that a status search reports for a hit.
pub open spec fn status_record(p: SearchParams, iv1: u32) -> ReturnParams {
    let st = status_of(iv1, p.tid, p.sid);
    match resolve_initial_seed(lc_retreat(iv1, 2), p.max_advances, p.max_frame_sum) {
        Some((s, k, time_sum, hour, frame_sum)) => ReturnParams::StatusMatch {
            initial_seed: s,
            ivs: st.ivs,
            pid: st.pid,
            nature: st.nature,
            gender: st.gender,
            ability: st.ability,
            hidden_power_type: st.hidden_power_type,
            hidden_power_power: st.hidden_power_power,
            advances: k,
            time_sum,
            hour,
            frame_sum,
        },
        None => vstd::pervasive::arbitrary(),
    }
}

pub open spec fn first_group(r: IVRanges) -> Seq<IVRange> {
    seq![r.hp, r.attack, r.defense]
}

pub open spec fn second_group(r: IVRanges) -> Seq<IVRange> {
    seq![r.speed, r.sp_attack, r.sp_defense]
}

pub open spec fn group_volume(g: Seq<IVRange>) -> int {
    g[0].width() * g[1].width() * g[2].width()
}

/// A search enumerates the first triple unless the second has fewer value combinations.
pub open spec fn search_forward(r: IVRanges) -> bool {
    group_volume(first_group(r)) <= group_volume(second_group(r))
}

/// The triple of ranges that a search enumerates.
pub open spec fn enumerated_group(r: IVRanges) -> Seq<IVRange> {
    if search_forward(r) {
        first_group(r)
    } else {
        second_group(r)
    }
}

/// The state that a search builds from an enumerated triple: the first IV
/// draw's state when going forward, the second's otherwise.
pub open spec fn candidate_of(forward: bool, iv1: u32) -> u32 {
    if forward {
        iv1
    } else {
        lc_next(iv1)
    }
}

/// The place of a built state in the order of enumeration: its triple, then
/// its top bit, then its low half.
pub open spec fn enum_pos(c: u32) -> int {
    let d = draw(c);
    let t = unpack_ivs(d);
    ((t[0] * 32 + t[1]) * 32 + t[2]) * 0x20000 + (d / 0x8000) * 0x10000 + c % 0x10000
}

pub open spec fn base_pos(a: int, b: int, c: int) -> int {
    ((a * 32 + b) * 32 + c) * 0x20000
}

/// The place at which a search meets the state `iv1`.
pub open spec fn search_key(r: IVRanges, iv1: u32) -> int {
    enum_pos(candidate_of(search_forward(r), iv1))
}

/// The six values in the order hp, attack, defense, speed, sp. attack, sp. defense.
pub open spec fn iv_seq(v: IVs) -> Seq<u8> {
    seq![v.hp, v.attack, v.defense, v.speed, v.sp_attack, v.sp_defense]
}

pub open spec fn seq_ivs(s: Seq<u8>) -> IVs {
    IVs { hp: s[0], attack: s[1], defense: s[2], speed: s[3], sp_attack: s[4], sp_defense: s[5] }
}

/// The 16-bit output `k` steps after the state `iv1` of the first IV draw.
pub open spec fn egg_rand(iv1: u32, k: nat) -> u16 {
    draw(lc_advance(iv1, k))
}

/// The three stat slots that an egg inherits: the draws two, three and four
/// steps after `iv1`, taken modulo 6, 5 and 4, pick from the slots not yet taken.
pub open spec fn egg_loci(iv1: u32) -> Seq<usize> {
    let loci0 = seq![0usize, 1, 2, 3, 4, 5];
    let i1 = (egg_rand(iv1, 2) % 6) as int;
    let loci1 = loci0.remove(i1);
    let i2 = (egg_rand(iv1, 3) % 5) as int;
    let loci2 = loci1.remove(i2);
    let i3 = (egg_rand(iv1, 4) % 4) as int;
    seq![loci0[i1], loci1[i2], loci2[i3]]
}

/// The values of an egg: those drawn, with each inherited slot `k` replaced by
/// the value of the parent that the draw `5 + k` steps after `iv1` picks by its parity.
pub open spec fn inherited_ivs(iv1: u32, parent_0: IVs, parent_1: IVs) -> IVs {
    let loci = egg_loci(iv1);
    let pick = |k: nat|
        if egg_rand(iv1, 5 + k) % 2 == 0 {
            iv_seq(parent_0)
        } else {
            iv_seq(parent_1)
        };
    let v = iv_seq(ivs_of(iv1));
    let v1 = v.update(loci[0] as int, pick(0)[loci[0] as int]);
    let v2 = v1.update(loci[1] as int, pick(1)[loci[1] as int]);
    let v3 = v2.update(loci[2] as int, pick(2)[loci[2] as int]);
    seq_ivs(v3)
}

/// Whether the enumerated triple that the search meets at `iv1` lies in the enumerated ranges.
pub open spec fn enumerated_in_range(r: IVRanges, iv1: u32) -> bool {
    let g = enumerated_group(r);
    let t = unpack_ivs(draw(candidate_of(search_forward(r), iv1)));
    &&& g[0].spec_contains(t[0])
    &&& g[1].spec_contains(t[1])
    &&& g[2].spec_contains(t[2])
}

/// Whether the enumeration of an egg search keeps the state `iv1`: its drawn or
/// its inherited values lie in the ranges, and a feasible initial seed lies behind it.
pub open spec fn egg_iv_hit(p: SearchParams, parent_0: IVs, parent_1: IVs, iv1: u32) -> bool {
    &&& enumerated_in_range(p.iv_ranges, iv1)
    &&& p.iv_ranges.spec_contains(ivs_of(iv1)) || p.iv_ranges.spec_contains(
        inherited_ivs(iv1, parent_0, parent_1),
    )
    &&& resolve_initial_seed(iv1, p.max_advances, p.max_frame_sum) is Some
}

/// The result that an egg search reports for a kept state.
pub open spec fn egg_iv_record(
    p: SearchParams,
    parent_0: IVs,
    parent_1: IVs,
    iv1: u32,
) -> ReturnParams {
    match resolve_initial_seed(iv1, p.max_advances, p.max_frame_sum) {
        Some((s, k, time_sum, hour, frame_sum)) => ReturnParams::EggIvMatch {
            initial_seed: s,
            ivs: inherited_ivs(iv1, parent_0, parent_1),
            advances: k,
            time_sum,
            hour,
            frame_sum,
        },
        None => vstd::pervasive::arbitrary(),
    }
}

/// What an enumeration keeps: the status search's hits, the egg search's hits
/// for two parents, or every state whose values lie in the ranges.
#[derive(Clone, Copy, Debug, PartialEq, Eq, Structural)]
pub enum SearchKind {
    Status,
    EggIv { parent_0: IVs, parent_1: IVs },
    Ivs,
}

/// A hit of an enumeration of the given kind.
pub open spec fn search_hit(p: SearchParams, kind: SearchKind, iv1: u32) -> bool {
    match kind {
        SearchKind::Status => status_hit(p, iv1),
        SearchKind::EggIv { parent_0, parent_1 } => egg_iv_hit(p, parent_0, parent_1, iv1),
        SearchKind::Ivs => p.iv_ranges.spec_contains(ivs_of(iv1)),
    }
}

/// The state of the first IV draw that a result names: a status result's initial
/// seed walked forward past the resolver's first backward step, its advances and
/// the two PID draws; an egg result's past the first backward step and its advances.
pub open spec fn record_iv1(r: ReturnParams) -> u32 {
    match r {
        ReturnParams::StatusMatch { initial_seed, advances, .. } => lc_advance(
            initial_seed,
            advances as nat + 3,
        ),
        ReturnParams::EggIvMatch { initial_seed, advances, .. } => lc_advance(
            initial_seed,
            advances as nat + 1,
        ),
        ReturnParams::EggPidMatch { initial_seed, .. } => initial_seed,
    }
}

/// The record of a status hit names the hit's state again.
pub proof fn lemma_status_record_iv1(p: SearchParams, iv1: u32)
    requires
        status_hit(p, iv1),
    ensures
        record_iv1(status_record(p, iv1)) == iv1,
{
    let x = lc_retreat(iv1, 2);
    lemma_resolve_initial_seed(x, p.max_advances, p.max_frame_sum);
    let (s, k, _, _, _) = resolve_initial_seed(x, p.max_advances, p.max_frame_sum)->Some_0;
    lemma_retreat_add(iv1, 2, k as nat + 1);
    lemma_advance_retreat(iv1, k as nat + 3);
}

/// The record of an egg hit names the hit's state again.
pub proof fn lemma_egg_iv_record_iv1(p: SearchParams, parent_0: IVs, parent_1: IVs, iv1: u32)
    requires
        egg_iv_hit(p, parent_0, parent_1, iv1),
    ensures
        record_iv1(egg_iv_record(p, parent_0, parent_1, iv1)) == iv1,
{
    lemma_resolve_initial_seed(iv1, p.max_advances, p.max_frame_sum);
    let found = resolve_initial_seed(iv1, p.max_advances, p.max_frame_sum);
    let (s, k, _, _, _) = found->Some_0;
    lemma_advance_retreat(iv1, k as nat + 1);
}

/// The states `res` are exactly the hits met before place `cur`, in the order met.
#[verifier::opaque]
pub open spec fn search_prefix(
    p: SearchParams,
    kind: SearchKind,
    res: Seq<u32>,
    cur: int,
) -> bool {
    &&& forall|i: int|
        #![trigger res[i]]
        0 <= i < res.len() ==> {
            &&& search_hit(p, kind, res[i])
            &&& search_key(p.iv_ranges, res[i]) < cur
        }
    &&& forall|i: int, j: int|
        #![trigger res[i], res[j]]
        0 <= i < j < res.len() ==> search_key(p.iv_ranges, res[i])
            < search_key(p.iv_ranges, res[j])
    &&& forall|s: u32|
        #![trigger search_hit(p, kind, s)]
        search_hit(p, kind, s) && search_key(p.iv_ranges, s) < cur ==> exists|i: int|
            0 <= i < res.len() && res[i] == s
}

/// A state's place in the enumeration determines the state.
pub proof fn lemma_enum_pos_injective(c1: u32, c2: u32)
    requires
        enum_pos(c1) == enum_pos(c2),
    ensures
        c1 == c2,
{
    let d1 = draw(c1);
    let d2 = draw(c2);
    let t1 = unpack_ivs(d1);
    let t2 = unpack_ivs(d2);
    let x1 = (t1[0] * 32 + t1[1]) * 32 + t1[2];
    let x2 = (t2[0] * 32 + t2[1]) * 32 + t2[2];
    let y1 = (d1 / 0x8000) * 0x10000 + c1 % 0x10000;
    let y2 = (d2 / 0x8000) * 0x10000 + c2 % 0x10000;
    assert(0 <= y1 < 0x20000 && 0 <= y2 < 0x20000);
    assert(x1 * 0x20000 + y1 == x2 * 0x20000 + y2);
    if x1 < x2 {
        assert(x1 * 0x20000 + y1 < x2 * 0x20000 + y2);
    }
    if x2 < x1 {
        assert(x2 * 0x20000 + y2 < x1 * 0x20000 + y1);
    }
    assert(x1 == x2);
    assert(t1[0] == t2[0]);
    assert(t1[1] == t2[1]);
    assert(t1[2] == t2[2]);
    assert(d1 / 0x8000 == d2 / 0x8000);
    lemma_pack_unpack(d1);
    lemma_pack_unpack(d2);
    assert(d1 == d2);
}

/// Different states are met at different places.
pub proof fn lemma_search_key_injective(r: IVRanges, s1: u32, s2: u32)
    requires
        search_key(r, s1) == search_key(r, s2),
    ensures
        s1 == s2,
{
    let f = search_forward(r);
    lemma_enum_pos_injective(candidate_of(f, s1), candidate_of(f, s2));
    lemma_next_prev_inverse(s1);
    lemma_next_prev_inverse(s2);
}

/// A hit is met inside the block of its enumerated triple, whose values lie in
/// the enumerated ranges.
pub proof fn lemma_hit_place(p: SearchParams, kind: SearchKind, s: u32)
    requires
        search_hit(p, kind, s),
    ensures
        ({
            let g = enumerated_group(p.iv_ranges);
            let t = unpack_ivs(draw(candidate_of(search_forward(p.iv_ranges), s)));
            &&& g[0].spec_contains(t[0])
            &&& g[1].spec_contains(t[1])
            &&& g[2].spec_contains(t[2])
            &&& base_pos(t[0] as int, t[1] as int, t[2] as int) <= search_key(p.iv_ranges, s)
                < base_pos(t[0] as int, t[1] as int, t[2] as int) + 0x20000
        }),
{
    let c = candidate_of(search_forward(p.iv_ranges), s);
    assert(draw(c) / 0x8000 < 2);
}

/// Places between `cur1` and `cur2` at which no hit lies can be passed over.
pub proof fn lemma_search_gap(
    p: SearchParams,
    kind: SearchKind,
    res: Seq<u32>,
    cur1: int,
    cur2: int,
)
    requires
        search_prefix(p, kind, res, cur1),
        cur1 <= cur2,
        forall|s: u32|
            #![trigger search_hit(p, kind, s)]
            search_hit(p, kind, s) ==> !(cur1 <= search_key(p.iv_ranges, s) < cur2),
    ensures
        search_prefix(p, kind, res, cur2),
{
    reveal(search_prefix);
    assert forall|s: u32|
        #![trigger search_hit(p, kind, s)]
        search_hit(p, kind, s) && search_key(p.iv_ranges, s) < cur2 implies exists|i: int|
            0 <= i < res.len() && res[i] == s by {
        assert(search_key(p.iv_ranges, s) < cur1);
    }
}

/// Meeting the one state that lies at place `cur` extends the results by its
/// record when it is a hit, and leaves them as they are otherwise.
pub proof fn lemma_search_step(
    p: SearchParams,
    kind: SearchKind,
    res: Seq<u32>,
    cur: int,
    s: u32,
)
    requires
        search_prefix(p, kind, res, cur),
        search_key(p.iv_ranges, s) == cur,
    ensures
        search_hit(p, kind, s) ==> search_prefix(
            p,
            kind,
            res.push(s),
            cur + 1,
        ),
        !search_hit(p, kind, s) ==> search_prefix(p, kind, res, cur + 1),
{
    reveal(search_prefix);
    assert forall|s2: u32| search_key(p.iv_ranges, s2) == cur implies s2 == s by {
        lemma_search_key_injective(p.iv_ranges, s2, s);
    }
    if search_hit(p, kind, s) {
        let res2 = res.push(s);
        assert forall|s2: u32|
            #![trigger search_hit(p, kind, s2)]
            search_hit(p, kind, s2) && search_key(p.iv_ranges, s2) < cur + 1 implies exists|i: int|
                0 <= i < res2.len() && res2[i] == s2 by {
            if search_key(p.iv_ranges, s2) < cur {
                let i = choose|i: int| 0 <= i < res.len() && res[i] == s2;
                assert(res2[i] == res[i]);
            } else {
                assert(res2[res.len() as int] == s);
            }
        }
        assert forall|i: int, j: int|
            #![trigger res2[i], res2[j]]
            0 <= i < j < res2.len() implies search_key(p.iv_ranges, res2[i])
                < search_key(p.iv_ranges, res2[j]) by {
            if j < res.len() {
                assert(res2[i] == res[i] && res2[j] == res[j]);
            } else {
                assert(res2[i] == res[i]);
            }
        }
        assert forall|i: int|
            #![trigger res2[i]]
            0 <= i < res2.len() implies {
                &&& search_hit(p, kind, res2[i])
                &&& search_key(p.iv_ranges, res2[i]) < cur + 1
            } by {
            if i < res.len() {
                assert(res2[i] == res[i]);
            }
        }
    } else {
        assert forall|s2: u32|
            #![trigger search_hit(p, kind, s2)]
            search_hit(p, kind, s2) && search_key(p.iv_ranges, s2) < cur + 1 implies exists|i: int|
                0 <= i < res.len() && res[i] == s2 by {
            if search_key(p.iv_ranges, s2) == cur {
                assert(s2 == s);
            }
        }
    }
}

/// Places between `cur1` and `cur2` that no block of an enumerated triple
/// reaches can be passed over.
pub proof fn lemma_search_skip(
    p: SearchParams,
    kind: SearchKind,
    res: Seq<u32>,
    cur1: int,
    cur2: int,
)
    requires
        search_prefix(p, kind, res, cur1),
        cur1 <= cur2,
        forall|x: int, y: int, z: int|
            #![trigger base_pos(x, y, z)]
            enumerated_group(p.iv_ranges)[0].start <= x <= enumerated_group(p.iv_ranges)[0].end
                && enumerated_group(p.iv_ranges)[1].start <= y
                <= enumerated_group(p.iv_ranges)[1].end && enumerated_group(p.iv_ranges)[2].start
                <= z <= enumerated_group(p.iv_ranges)[2].end ==> base_pos(x, y, z) + 0x20000
                <= cur1 || cur2 <= base_pos(x, y, z),
    ensures
        search_prefix(p, kind, res, cur2),
{
    assert forall|s: u32|
        #![trigger search_hit(p, kind, s)]
        search_hit(p, kind, s) implies !(cur1 <= search_key(p.iv_ranges, s) < cur2) by {
        lemma_hit_place(p, kind, s);
        let t = unpack_ivs(draw(candidate_of(search_forward(p.iv_ranges), s)));
        assert(base_pos(t[0] as int, t[1] as int, t[2] as int) + 0x20000 <= cur1 || cur2
            <= base_pos(t[0] as int, t[1] as int, t[2] as int));
    }
    lemma_search_gap(p, kind, res, cur1, cur2);
}

/// Every hit lies before the block after the last triple of the first range.
pub proof fn lemma_search_all_before(p: SearchParams, kind: SearchKind, a: int)
    requires
        a > enumerated_group(p.iv_ranges)[0].end,
    ensures
        forall|s: u32|
            #![trigger search_hit(p, kind, s)]
            search_hit(p, kind, s) ==> search_key(p.iv_ranges, s) < base_pos(a, 0, 0),
{
    assert forall|s: u32|
        #![trigger search_hit(p, kind, s)]
        search_hit(p, kind, s) implies search_key(p.iv_ranges, s) < base_pos(a, 0, 0) by {
        lemma_hit_place(p, kind, s);
    }
}

/// Before the first triple there is no hit.
pub proof fn lemma_search_start(p: SearchParams, kind: SearchKind)
    ensures
        search_prefix(p, kind, seq![], 0),
{
    reveal(search_prefix);
    assert forall|s: u32|
        #![trigger search_hit(p, kind, s)]
        search_hit(p, kind, s) implies !(search_key(p.iv_ranges, s) < 0) by {
        lemma_hit_place(p, kind, s);
    }
}

proof fn lemma_group_bounds(r: IVRanges)
    requires
        r.wf(),
    ensures
        enumerated_group(r)[0].start < 32 && enumerated_group(r)[0].end < 32,
        enumerated_group(r)[1].start < 32 && enumerated_group(r)[1].end < 32,
        enumerated_group(r)[2].start < 32 && enumerated_group(r)[2].end < 32,
{
}

/// No hit lies before the block of the first enumerated triple.
pub proof fn lemma_search_skip_to_first(p: SearchParams, kind: SearchKind)
    requires
        p.iv_ranges.wf(),
    ensures
        search_prefix(
            p,
            kind,
            seq![],
            base_pos(enumerated_group(p.iv_ranges)[0].start as int, 0, 0),
        ),
{
    lemma_group_bounds(p.iv_ranges);
    lemma_search_start(p, kind);
    let first = base_pos(enumerated_group(p.iv_ranges)[0].start as int, 0, 0);
    lemma_search_skip(p, kind, seq![], 0, first);
}

/// Within the first value `a`, no hit lies before the second range's start.
pub proof fn lemma_search_skip_to_second(
    p: SearchParams,
    kind: SearchKind,
    res: Seq<u32>,
    a: int,
)
    requires
        p.iv_ranges.wf(),
        search_prefix(p, kind, res, base_pos(a, 0, 0)),
    ensures
        search_prefix(
            p,
            kind,
            res,
            base_pos(a, enumerated_group(p.iv_ranges)[1].start as int, 0),
        ),
{
    lemma_group_bounds(p.iv_ranges);
    lemma_search_skip(
        p,
        kind,
        res,
        base_pos(a, 0, 0),
        base_pos(a, enumerated_group(p.iv_ranges)[1].start as int, 0),
    );
}

/// Within the values `a, b`, no hit lies before the third range's start.
pub proof fn lemma_search_skip_to_third(
    p: SearchParams,
    kind: SearchKind,
    res: Seq<u32>,
    a: int,
    b: int,
)
    requires
        p.iv_ranges.wf(),
        search_prefix(p, kind, res, base_pos(a, b, 0)),
    ensures
        search_prefix(
            p,
            kind,
            res,
            base_pos(a, b, enumerated_group(p.iv_ranges)[2].start as int),
        ),
{
    lemma_group_bounds(p.iv_ranges);
    lemma_search_skip(
        p,
        kind,
        res,
        base_pos(a, b, 0),
        base_pos(a, b, enumerated_group(p.iv_ranges)[2].start as int),
    );
}

/// Past the third range's end, no hit lies before the next second value.
pub proof fn lemma_search_skip_after_third(
    p: SearchParams,
    kind: SearchKind,
    res: Seq<u32>,
    a: int,
    b: int,
    c: int,
)
    requires
        p.iv_ranges.wf(),
        search_prefix(p, kind, res, base_pos(a, b, c)),
        c > enumerated_group(p.iv_ranges)[2].end,
        c <= 32,
    ensures
        search_prefix(p, kind, res, base_pos(a, b + 1, 0)),
{
    lemma_group_bounds(p.iv_ranges);
    lemma_search_skip(p, kind, res, base_pos(a, b, c), base_pos(a, b + 1, 0));
}

/// Past the second range's end, no hit lies before the next first value.
pub proof fn lemma_search_skip_after_second(
    p: SearchParams,
    kind: SearchKind,
    res: Seq<u32>,
    a: int,
    b: int,
)
    requires
        p.iv_ranges.wf(),
        search_prefix(p, kind, res, base_pos(a, b, 0)),
        b > enumerated_group(p.iv_ranges)[1].end,
        b <= 32,
    ensures
        search_prefix(p, kind, res, base_pos(a + 1, 0, 0)),
{
    lemma_group_bounds(p.iv_ranges);
    let g = enumerated_group(p.iv_ranges);
    assert forall|x: int, y: int, z: int|
        #![trigger base_pos(x, y, z)]
        g[0].start <= x <= g[0].end && g[1].start <= y <= g[1].end && g[2].start <= z <= g[2].end
            implies base_pos(x, y, z) + 0x20000 <= base_pos(a, b, 0) || base_pos(a + 1, 0, 0)
            <= base_pos(x, y, z) by {
        if x <= a {
            assert(base_pos(x, y, z) + 0x20000 <= base_pos(a, b, 0));
        }
    }
    lemma_search_skip(p, kind, res, base_pos(a, b, 0), base_pos(a + 1, 0, 0));
}

/// Once every hit lies before `cur`, the results are all the hits, each once, in
/// the order of enumeration.
pub proof fn lemma_search_complete(
    p: SearchParams,
    kind: SearchKind,
    res: Seq<u32>,
    cur: int,
)
    requires
        search_prefix(p, kind, res, cur),
        forall|s: u32|
            #![trigger search_hit(p, kind, s)]
            search_hit(p, kind, s) ==> search_key(p.iv_ranges, s) < cur,
    ensures
        forall|i: int|
            #![trigger res[i]]
            0 <= i < res.len() ==> {
                &&& search_hit(p, kind, res[i])
            },
        forall|i: int, j: int|
            #![trigger res[i], res[j]]
            0 <= i < j < res.len() ==> search_key(p.iv_ranges, res[i])
                < search_key(p.iv_ranges, res[j]),
        forall|s: u32|
            #![trigger search_hit(p, kind, s)]
            search_hit(p, kind, s) ==> exists|i: int|
                0 <= i < res.len() && res[i] == s,
{
    reveal(search_prefix);
}

/// The state that a search meets at place `j` of the block of triple `(a, b, c)`.
pub open spec fn block_state(forward: bool, a: u8, b: u8, c: u8, j: int) -> u32 {
    let x = join_rands((pack_ivs(a, b, c) + (j / 0x10000) * 0x8000) as u16, (j % 0x10000) as u16);
    if forward {
        x
    } else {
        lc_prev(x)
    }
}

/// The 16-bit output `a + 32 b + 1024 c + 32768 m` unpacks to `(a, b, c)` with top bit `m`.
proof fn lemma_unpack_with_top(a: u8, b: u8, c: u8, m: int)
    requires
        a < 32,
        b < 32,
        c < 32,
        0 <= m < 2,
    ensures
        ({
            let hi = (a + 32 * b + 1024 * c + 32768 * m) as u16;
            &&& unpack_ivs(hi) == seq![a, b, c]
            &&& hi / 0x8000 == m
        }),
{
    let x: int = a + 32 * b + 1024 * c + 32768 * m;
    let hi = x as u16;
    lemma_fundamental_div_mod_converse(x, 32, b + 32 * c + 1024 * m, a as int);
    lemma_fundamental_div_mod_converse(b + 32 * c + 1024 * m, 32, c + 32 * m, b as int);
    lemma_fundamental_div_mod_converse(x, 1024, c + 32 * m, a + 32 * b);
    lemma_fundamental_div_mod_converse(c + 32 * m, 32, m, c as int);
    lemma_fundamental_div_mod_converse(x, 0x8000, m, a + 32 * b + 1024 * c);
    assert(unpack_ivs(hi) =~= seq![a, b, c]);
}

/// The state met at place `j` of a block is the one state with that place.
#[verifier::rlimit(30)]
pub proof fn lemma_block_state(r: IVRanges, a: u8, b: u8, c: u8, j: int)
    requires
        a < 32,
        b < 32,
        c < 32,
        0 <= j < 0x20000,
    ensures
        search_key(r, block_state(search_forward(r), a, b, c, j)) == base_pos(
            a as int,
            b as int,
            c as int,
        ) + j,
        unpack_ivs(
            draw(
                candidate_of(search_forward(r), block_state(search_forward(r), a, b, c, j)),
            ),
        )
            == seq![a, b, c],
{
    let f = search_forward(r);
    let m = j / 0x10000;
    let hi = (pack_ivs(a, b, c) + m * 0x8000) as u16;
    let lo = (j % 0x10000) as u16;
    let x = join_rands(hi, lo);
    lemma_pack_ivs_value(a, b, c);
    lemma_unpack_with_top(a, b, c, m);
    lemma_fundamental_div_mod_converse(x as int, 0x10000, hi as int, lo as int);
    assert(draw(x) == hi);
    lemma_next_prev_inverse(x);
    assert(candidate_of(f, block_state(f, a, b, c, j)) == x);
    assert(enum_pos(x) == ((a * 32 + b) * 32 + c) * 0x20000 + m * 0x10000 + lo);
}

/// The initial seed with time sum `t`, hour `h` and frame sum `f`.
pub open spec fn compose_seed(t: int, h: int, f: int) -> u32 {
    (t * 0x100_0000 + h * 0x1_0000 + f) as u32
}

/// Whether a personality identifier passes the nature, ability and shininess filters.
pub open spec fn pid_filters(p: SearchParams, pid: u32) -> bool {
    &&& p.nature == -1 || p.nature == (pid % 25) as i16
    &&& p.ability == -1 || p.ability == (pid % 2) as i16
    &&& !p.shiny || shiny_spec(pid, p.tid, p.sid)
}

/// Whether the egg made by draw `k` of the generator seeded with time sum `t`,
/// hour `h` and frame sum `f` passes the filters, within the search's bounds.
pub open spec fn egg_pid_match(p: SearchParams, t: int, h: int, f: int, k: int) -> bool {
    &&& 0 <= h < 24
    &&& 600 <= f <= p.max_frame_sum
    &&& 0 <= k <= p.max_advances
    &&& pid_filters(p, mt_pid(compose_seed(t, h, f), k as nat))
}

/// Whether `(h1, f1, k1)` comes before `(h2, f2, k2)`: by hour, then frame sum, then draw.
pub open spec fn egg_before(h1: int, f1: int, k1: int, h2: int, f2: int, k2: int) -> bool {
    h1 < h2 || (h1 == h2 && f1 < f2) || (h1 == h2 && f1 == f2 && k1 < k2)
}

/// Whether `(h, f, k)` is the first match for time sum `t`.
pub open spec fn egg_pid_first(p: SearchParams, t: int, h: int, f: int, k: int) -> bool {
    &&& egg_pid_match(p, t, h, f, k)
    &&& forall|h2: int, f2: int, k2: int|
        #![trigger egg_pid_match(p, t, h2, f2, k2)]
        egg_before(h2, f2, k2, h, f, k) ==> !egg_pid_match(p, t, h2, f2, k2)
}

/// The result that the egg search reports for a match.
pub open spec fn egg_pid_record(t: int, h: int, f: int, k: int) -> ReturnParams {
    let s = compose_seed(t, h, f);
    let pid = mt_pid(s, k as nat);
    ReturnParams::EggPidMatch {
        initial_seed: s,
        pid,
        nature: (pid % 25) as u8,
        gender: (pid % 0x100) as u8,
        ability: (pid % 2) as u8,
        advances: k as u16,
        time_sum: t as u16,
        hour: h as u16,
        frame_sum: f as u16,
    }
}

/// The time sum, hour, frame sum and draw that an egg result names.
pub open spec fn egg_pid_place(r: ReturnParams) -> (int, int, int, int) {
    match r {
        ReturnParams::EggPidMatch { time_sum, hour, frame_sum, advances, .. } => (
            time_sum as int,
            hour as int,
            frame_sum as int,
            advances as int,
        ),
        _ => (0, 0, 0, 0),
    }
}

/// Each result of a status search is reproduced from its own initial seed:
/// walking forward the resolver's first step back, its advances and the two PID
/// draws reaches the state whose status the result carries, and the seed holds
/// its time sum, hour and frame sum.
pub proof fn lemma_status_result_rederives(p: SearchParams, r: ReturnParams)
    requires
        status_hit(p, record_iv1(r)),
        r == status_record(p, record_iv1(r)),
    ensures
        r matches ReturnParams::StatusMatch {
            initial_seed,
            ivs,
            pid,
            nature,
            gender,
            ability,
            hidden_power_type,
            hidden_power_power,
            advances,
            time_sum,
            hour,
            frame_sum,
        } ==> {
            let st = status_of(lc_advance(initial_seed, advances as nat + 3), p.tid, p.sid);
            &&& ivs == st.ivs
            &&& pid == st.pid
            &&& nature == st.nature
            &&& gender == st.gender
            &&& ability == st.ability
            &&& hidden_power_type == st.hidden_power_type
            &&& hidden_power_power == st.hidden_power_power
            &&& time_sum == seed_time_sum(initial_seed)
            &&& hour == seed_hour(initial_seed)
            &&& frame_sum == seed_frame_sum(initial_seed)
            &&& feasible_initial_seed(initial_seed, p.max_frame_sum)
        },
{
    let iv1 = record_iv1(r);
    lemma_resolve_initial_seed(lc_retreat(iv1, 2), p.max_advances, p.max_frame_sum);
    lemma_status_record_iv1(p, iv1);
}

} // verus!
