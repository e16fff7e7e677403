//! The store's cross-operation laws, stated over the abstract views that the
//! operations' contracts speak of.
use vstd::prelude::*;

use crate::ranking::sort_desc;
use crate::store::{first_org_idx, max64, min64, rollup_merge};
use crate::types::{CanisterMappingOrganizationInfo, PubilcCanisterInfo};

verus! {

/// A registered name blocks a second registration until it is freed.
///
/// `create_organize` binds an unbound name (`insert`) and answers
/// `AlreadyExists` exactly when the name is bound; `transfer` rebinds bound
/// names (`insert`); `disband_the_organization` alone unbinds (`remove`). So:
/// once `create(n)` succeeds, `create(n)` keeps failing with `AlreadyExists`
/// through any creates, transfers or disbands of other names, and succeeds
/// again only after `disband(n)`.
pub proof fn lemma_create_blocks_recreate(
    owners: Map<Seq<char>, Seq<char>>,
    n: Seq<char>,
    c1: Seq<char>,
)
    requires
        !owners.contains_key(n),
    ensures
        owners.insert(n, c1).contains_key(n),
        forall|m: Seq<char>, c2: Seq<char>|
            m != n ==> #[trigger] owners.insert(n, c1).insert(m, c2).contains_key(n),
        forall|m: Seq<char>| m != n ==> #[trigger] owners.insert(n, c1).remove(m).contains_key(n),
        !owners.insert(n, c1).remove(n).contains_key(n),
{
}

/// One observation as the rollup sees it.
pub struct RollupWrite {
    pub updtime: u64,
    pub cycles_balance: u64,
    pub time_interval: u64,
    pub cycles_minimum: u64,
    pub cycles_highest: u64,
}

/// The rollup map after canister `c` took the writes `ws` in order, each
/// exactly as `the_organization_owner_adds_a_new_jar_to_the_organization` and
/// `organization_owner_modify_jar` upsert it.
pub open spec fn apply_writes(
    m: Map<Seq<char>, PubilcCanisterInfo>,
    c: Seq<char>,
    ws: Seq<RollupWrite>,
) -> Map<Seq<char>, PubilcCanisterInfo>
    decreases ws.len(),
{
    if ws.len() == 0 {
        m
    } else {
        let m2 = apply_writes(m, c, ws.drop_last());
        let w = ws.last();
        m2.insert(
            c,
            rollup_merge(
                m2,
                c,
                w.updtime,
                w.cycles_balance,
                w.time_interval,
                w.cycles_minimum,
                w.cycles_highest,
            ),
        )
    }
}

/// The least floor over a run of writes.
pub open spec fn min_floor(ws: Seq<RollupWrite>) -> u64
    recommends
        ws.len() > 0,
    decreases ws.len(),
{
    if ws.len() <= 1 {
        ws[0].cycles_minimum
    } else {
        min64(min_floor(ws.drop_last()), ws.last().cycles_minimum)
    }
}

/// The least interval over a run of writes.
pub open spec fn min_interval(ws: Seq<RollupWrite>) -> u64
    recommends
        ws.len() > 0,
    decreases ws.len(),
{
    if ws.len() <= 1 {
        ws[0].time_interval
    } else {
        min64(min_interval(ws.drop_last()), ws.last().time_interval)
    }
}

/// The greatest ceiling over a run of writes.
pub open spec fn max_ceiling(ws: Seq<RollupWrite>) -> u64
    recommends
        ws.len() > 0,
    decreases ws.len(),
{
    if ws.len() <= 1 {
        ws[0].cycles_highest
    } else {
        max64(max_ceiling(ws.drop_last()), ws.last().cycles_highest)
    }
}

/// The rollup's merge rule, folded over a history: after a canister unknown
/// to the rollup is written once per organization tracking it (with floors
/// `m1..mk` and ceilings `x1..xk`), its entry holds `min(m1..mk)`, the least
/// interval, `max(x1..xk)`, and the timestamp and balance of the latest
/// write. Deleting a tracker or raising a floor later does not retract an
/// old write: the entry stays at the historical extremes by design.
pub proof fn lemma_rollup_merges_thresholds(
    m: Map<Seq<char>, PubilcCanisterInfo>,
    c: Seq<char>,
    ws: Seq<RollupWrite>,
)
    requires
        !m.contains_key(c),
        ws.len() > 0,
    ensures
        apply_writes(m, c, ws).contains_key(c),
        apply_writes(m, c, ws)[c].cycles_minimum == min_floor(ws),
        apply_writes(m, c, ws)[c].time_interval == min_interval(ws),
        apply_writes(m, c, ws)[c].cycles_highest == max_ceiling(ws),
        apply_writes(m, c, ws)[c].updtime == ws.last().updtime,
        apply_writes(m, c, ws)[c].cycles_balance == ws.last().cycles_balance,
    decreases ws.len(),
{
    let dl = ws.drop_last();
    let m2 = apply_writes(m, c, dl);
    let w = ws.last();
    assert(apply_writes(m, c, ws) == m2.insert(
        c,
        rollup_merge(
            m2,
            c,
            w.updtime,
            w.cycles_balance,
            w.time_interval,
            w.cycles_minimum,
            w.cycles_highest,
        ),
    ));
    if ws.len() == 1 {
        assert(dl.len() == 0);
        assert(m2 == m);
        assert(w == ws[0]);
    } else {
        lemma_rollup_merges_thresholds(m, c, dl);
        assert(min_floor(ws) == min64(min_floor(dl), w.cycles_minimum));
        assert(min_interval(ws) == min64(min_interval(dl), w.time_interval));
        assert(max_ceiling(ws) == max64(max_ceiling(dl), w.cycles_highest));
    }
}

/// Deleting the pair of the last organization tracking a canister leaves an
/// empty reverse-index list, whose ranking is the empty sequence — while
/// `organization_owner_delete_jar`'s contract keeps the rollup entry
/// untouched (documented stale data).
pub proof fn lemma_delete_last_tracker_empties_ranking(
    s: Seq<CanisterMappingOrganizationInfo>,
    org: Seq<char>,
)
    requires
        s.len() == 1,
        s[0].organize_name@ == org,
    ensures
        s.remove(first_org_idx(s, org)) == Seq::<CanisterMappingOrganizationInfo>::empty(),
        sort_desc(Seq::<CanisterMappingOrganizationInfo>::empty()) == Seq::<
            CanisterMappingOrganizationInfo,
        >::empty(),
{
    assert(first_org_idx(s, org) == 0);
    assert(s.remove(0) =~= Seq::<CanisterMappingOrganizationInfo>::empty());
}

} // verus!
