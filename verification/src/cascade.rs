//! The cascade steps run after unit-registry writes: upserting the global
//! rollup entry of a canister, and keeping its reverse-index list of
//! (organization, floor) pairs in lockstep.
use vstd::prelude::*;

use crate::alist::{
    lemma_map_values_insert, lemma_remove_insert_is_update, lemma_str_idx_of, lemma_str_push,
    lemma_str_update, str_map, str_pos,
};
use crate::store::{first_org_idx, has_org, rollup_merge, Store};
use crate::types::{CanisterMappingOrganizationInfo, Opts, PubilcCanisterInfo};

verus! {

/// A reverse-index list after the first pair of `org` got the floor
/// `min_cycles` (the organization name of the pair is kept as stored).
pub open spec fn reverse_updated(
    s: Seq<CanisterMappingOrganizationInfo>,
    org: Seq<char>,
    min_cycles: u64,
) -> Seq<CanisterMappingOrganizationInfo> {
    s.update(
        first_org_idx(s, org),
        (CanisterMappingOrganizationInfo {
            organize_name: s[first_org_idx(s, org)].organize_name,
            min_cycles,
        }),
    )
}

/// A position holding `org`, before which no position does, is what
/// `first_org_idx` denotes.
pub proof fn lemma_first_org_idx(s: Seq<CanisterMappingOrganizationInfo>, org: Seq<char>, i: int)
    requires
        0 <= i < s.len(),
        s[i].organize_name@ == org,
        forall|j: int| 0 <= j < i ==> (#[trigger] s[j].organize_name@) != org,
    ensures
        first_org_idx(s, org) == i,
        has_org(s, org),
    decreases i,
{
    if i == 0 {
    } else {
        let t = s.drop_first();
        assert(t[i - 1] == s[i]);
        assert forall|j: int| 0 <= j < i - 1 implies (#[trigger] t[j].organize_name@) != org by {
            assert(t[j] == s[j + 1]);
        }
        lemma_first_org_idx(t, org, i - 1);
        assert(s[0].organize_name@ != org);
    }
}

/// When some pair of `org` is present, `first_org_idx` denotes a valid
/// position holding `org`.
pub proof fn lemma_first_org_exists(s: Seq<CanisterMappingOrganizationInfo>, org: Seq<char>)
    requires
        has_org(s, org),
    ensures
        0 <= first_org_idx(s, org) < s.len(),
        s[first_org_idx(s, org)].organize_name@ == org,
    decreases s.len(),
{
    if s[0].organize_name@ == org {
    } else {
        let t = s.drop_first();
        let i = choose|i: int| 0 <= i < s.len() && (#[trigger] s[i].organize_name@) == org;
        assert(i != 0);
        assert(t[i - 1] == s[i]);
        assert(has_org(t, org));
        lemma_first_org_exists(t, org);
        assert(s[1 + first_org_idx(t, org)] == t[first_org_idx(t, org)]);
    }
}

/// Appending a pair keeps every organization already present, and adds the
/// appended one.
pub proof fn lemma_has_org_push(
    s: Seq<CanisterMappingOrganizationInfo>,
    x: CanisterMappingOrganizationInfo,
    org: Seq<char>,
)
    ensures
        has_org(s.push(x), org) <==> (has_org(s, org) || x.organize_name@ == org),
{
    if has_org(s, org) {
        let i = choose|i: int| 0 <= i < s.len() && (#[trigger] s[i].organize_name@) == org;
        assert(s.push(x)[i] == s[i]);
    }
    if x.organize_name@ == org {
        assert(s.push(x)[s.len() as int] == x);
    }
    if has_org(s.push(x), org) {
        let i = choose|i: int|
            0 <= i < s.push(x).len() && (#[trigger] s.push(x)[i].organize_name@) == org;
        if i < s.len() {
            assert(s[i] == s.push(x)[i]);
        }
    }
}

/// Replacing a pair by one of the same organization moves no organization in
/// or out of the list.
pub proof fn lemma_has_org_update_same(
    s: Seq<CanisterMappingOrganizationInfo>,
    i: int,
    x: CanisterMappingOrganizationInfo,
    org: Seq<char>,
)
    requires
        0 <= i < s.len(),
        x.organize_name@ == s[i].organize_name@,
    ensures
        has_org(s.update(i, x), org) <==> has_org(s, org),
{
    if has_org(s, org) {
        let j = choose|j: int| 0 <= j < s.len() && (#[trigger] s[j].organize_name@) == org;
        if j == i {
            assert(s.update(i, x)[i] == x);
        } else {
            assert(s.update(i, x)[j] == s[j]);
        }
    }
    if has_org(s.update(i, x), org) {
        let j = choose|j: int|
            0 <= j < s.update(i, x).len() && (#[trigger] s.update(i, x)[j].organize_name@) == org;
        if j == i {
        } else {
            assert(s.update(i, x)[j] == s[j]);
        }
    }
}

/// Removing one organization's pair keeps every other organization present.
pub proof fn lemma_has_org_remove_other(
    s: Seq<CanisterMappingOrganizationInfo>,
    i: int,
    org: Seq<char>,
)
    requires
        0 <= i < s.len(),
        s[i].organize_name@ != org,
        has_org(s, org),
    ensures
        has_org(s.remove(i), org),
{
    let j = choose|j: int| 0 <= j < s.len() && (#[trigger] s[j].organize_name@) == org;
    if j < i {
        assert(s.remove(i)[j] == s[j]);
    } else {
        assert(s.remove(i)[j - 1] == s[j]);
    }
}

/// The first pair of `org` in the list, or `None` when the organization has
/// no pair there.
fn find_org_pos(v: &Vec<CanisterMappingOrganizationInfo>, org: &String) -> (r: Option<usize>)
    ensures
        match r {
            Some(i) => i < v.len() && v@[i as int].organize_name@ == org@ && first_org_idx(
                v@,
                org@,
            ) == i && has_org(v@, org@),
            None => !has_org(v@, org@),
        },
{
    let mut i: usize = 0;
    while i < v.len()
        invariant
            i <= v.len(),
            forall|j: int| 0 <= j < i ==> (#[trigger] v@[j].organize_name@) != org@,
        decreases v.len() - i,
    {
        if v[i].organize_name == *org {
            proof {
                lemma_first_org_idx(v@, org@, i as int);
            }
            return Some(i);
        }
        i += 1;
    }
    None
}

impl Store {
    /// Upserts the global rollup entry of a canister: keep the tightest
    /// interval and floor and the loosest ceiling seen so far, and
    /// unconditionally take the new timestamp and balance.
    pub fn add_or_update_public_canisters(
        &mut self,
        canister_id: String,
        updtime: u64,
        cycles_balance: u64,
        time_interval: u64,
        cycles_minimum: u64,
        cycles_highest: u64,
    )
        requires
            old(self).rep_wf(),
        ensures
            final(self).rep_wf(),
            final(self)@.rollup == old(self)@.rollup.insert(
                canister_id@,
                rollup_merge(
                    old(self)@.rollup,
                    canister_id@,
                    updtime,
                    cycles_balance,
                    time_interval,
                    cycles_minimum,
                    cycles_highest,
                ),
            ),
            final(self)@.org_names == old(self)@.org_names,
            final(self)@.owners == old(self)@.owners,
            final(self)@.members == old(self)@.members,
            final(self)@.canisters == old(self)@.canisters,
            final(self)@.reverse == old(self)@.reverse,
    {
        match str_pos(&self.public_canisters, &canister_id) {
            Some(i) => {
                proof {
                    lemma_str_idx_of(self.public_canisters@, canister_id@, i as int);
                }
                let prev = self.public_canisters[i].1;
                let merged = PubilcCanisterInfo {
                    updtime,
                    cycles_balance,
                    time_interval: if prev.time_interval <= time_interval {
                        prev.time_interval
                    } else {
                        time_interval
                    },
                    cycles_minimum: if prev.cycles_minimum <= cycles_minimum {
                        prev.cycles_minimum
                    } else {
                        cycles_minimum
                    },
                    cycles_highest: if prev.cycles_highest >= cycles_highest {
                        prev.cycles_highest
                    } else {
                        cycles_highest
                    },
                };
                let ghost pre_rep = self.public_canisters@;
                let entry = self.public_canisters.remove(i);
                self.public_canisters.insert(i, (entry.0, merged));
                proof {
                    let p = (entry.0, merged);
                    lemma_remove_insert_is_update(pre_rep, i as int, p);
                    assert(self.public_canisters@ == pre_rep.update(i as int, p));
                    lemma_str_update(pre_rep, i as int, p);
                }
            },
            None => {
                let ghost pre_rep = self.public_canisters@;
                let fresh = PubilcCanisterInfo {
                    updtime,
                    cycles_balance,
                    time_interval,
                    cycles_minimum,
                    cycles_highest,
                };
                self.public_canisters.push((canister_id, fresh));
                proof {
                    lemma_str_push(pre_rep, (canister_id, fresh));
                }
            },
        }
    }

    /// Maintains the reverse index for one canister: `ADD` appends the
    /// organization's pair (creating the list), `UPDATE` rewrites the floor of
    /// its first pair, `DELETE` drops that pair. `UPDATE` and `DELETE` demand
    /// the pair's presence: missing it would be a consistency bug of the
    /// cascade discipline, not a user error, so those paths are proved
    /// unreachable and trap if ever entered from unverified code.
    pub fn canister_mapping_organization_deal_with(
        &mut self,
        opt: Opts,
        canister_id: String,
        organize_name: String,
        min_cycles: u64,
    )
        requires
            old(self).rep_wf(),
            opt != Opts::ADD ==> old(self)@.reverse.contains_key(canister_id@) && has_org(
                old(self)@.reverse[canister_id@],
                organize_name@,
            ),
        ensures
            final(self).rep_wf(),
            final(self)@.org_names == old(self)@.org_names,
            final(self)@.owners == old(self)@.owners,
            final(self)@.members == old(self)@.members,
            final(self)@.canisters == old(self)@.canisters,
            final(self)@.rollup == old(self)@.rollup,
            ({
                let pre = old(self)@;
                let post = final(self)@;
                match opt {
                    Opts::ADD => post.reverse == pre.reverse.insert(
                        canister_id@,
                        (if pre.reverse.contains_key(canister_id@) {
                            pre.reverse[canister_id@]
                        } else {
                            Seq::<CanisterMappingOrganizationInfo>::empty()
                        }).push(
                            (CanisterMappingOrganizationInfo { organize_name, min_cycles }),
                        ),
                    ),
                    Opts::UPDATE => post.reverse == pre.reverse.insert(
                        canister_id@,
                        reverse_updated(pre.reverse[canister_id@], organize_name@, min_cycles),
                    ),
                    Opts::DELETE => post.reverse == pre.reverse.insert(
                        canister_id@,
                        pre.reverse[canister_id@].remove(
                            first_org_idx(pre.reverse[canister_id@], organize_name@),
                        ),
                    ),
                }
            }),
    {
        let ghost pre = self@;
        match opt {
            Opts::ADD => {
                match str_pos(&self.canisters_to_organizes, &canister_id) {
                    None => {
                        let ghost pre_rep = self.canisters_to_organizes@;
                        let mut fresh: Vec<CanisterMappingOrganizationInfo> = Vec::new();
                        fresh.push(CanisterMappingOrganizationInfo { organize_name, min_cycles });
                        let ghost fresh_rep = fresh@;
                        self.canisters_to_organizes.push((canister_id, fresh));
                        proof {
                            let p = (canister_id, self.canisters_to_organizes@.last().1);
                            lemma_str_push(pre_rep, p);
                            lemma_map_values_insert(
                                str_map(pre_rep),
                                |b: Vec<CanisterMappingOrganizationInfo>| b@,
                                canister_id@,
                                p.1,
                            );
                            assert(fresh_rep =~= Seq::<CanisterMappingOrganizationInfo>::empty().push(
                                CanisterMappingOrganizationInfo { organize_name, min_cycles },
                            ));
                        }
                    },
                    Some(i) => {
                        proof {
                            lemma_str_idx_of(self.canisters_to_organizes@, canister_id@, i as int);
                        }
                        let ghost pre_rep = self.canisters_to_organizes@;
                        let ghost pre_bucket = pre_rep[i as int].1@;
                        let entry = self.canisters_to_organizes.remove(i);
                        let key = entry.0;
                        let mut bucket = entry.1;
                        bucket.push(CanisterMappingOrganizationInfo { organize_name, min_cycles });
                        self.canisters_to_organizes.insert(i, (key, bucket));
                        proof {
                            let p = (pre_rep[i as int].0, self.canisters_to_organizes@[i as int].1);
                            lemma_remove_insert_is_update(pre_rep, i as int, p);
                            assert(self.canisters_to_organizes@ == pre_rep.update(i as int, p));
                            lemma_str_update(pre_rep, i as int, p);
                            lemma_map_values_insert(
                                str_map(pre_rep),
                                |b: Vec<CanisterMappingOrganizationInfo>| b@,
                                canister_id@,
                                p.1,
                            );
                            assert(pre.reverse[canister_id@] == pre_bucket);
                        }
                    },
                }
            },
            Opts::UPDATE => {
                match str_pos(&self.canisters_to_organizes, &canister_id) {
                    None => vstd::pervasive::unreached(),
                    Some(i) => {
                        proof {
                            lemma_str_idx_of(self.canisters_to_organizes@, canister_id@, i as int);
                        }
                        match find_org_pos(&self.canisters_to_organizes[i].1, &organize_name) {
                            None => vstd::pervasive::unreached(),
                            Some(ei) => {
                                let ghost pre_rep = self.canisters_to_organizes@;
                                let ghost pre_bucket = pre_rep[i as int].1@;
                                let entry = self.canisters_to_organizes.remove(i);
                                let key = entry.0;
                                let mut bucket = entry.1;
                                let old_elem = bucket.remove(ei);
                                let kept_name = old_elem.organize_name;
                                bucket.insert(
                                    ei,
                                    CanisterMappingOrganizationInfo {
                                        organize_name: kept_name,
                                        min_cycles,
                                    },
                                );
                                self.canisters_to_organizes.insert(i, (key, bucket));
                                proof {
                                    let x = CanisterMappingOrganizationInfo {
                                        organize_name: pre_bucket[ei as int].organize_name,
                                        min_cycles,
                                    };
                                    lemma_remove_insert_is_update(pre_bucket, ei as int, x);
                                    assert(bucket@ == pre_bucket.update(ei as int, x));
                                    let p = (pre_rep[i as int].0, self.canisters_to_organizes@[i as int].1);
                                    lemma_remove_insert_is_update(pre_rep, i as int, p);
                                    assert(self.canisters_to_organizes@ == pre_rep.update(
                                        i as int,
                                        p,
                                    ));
                                    lemma_str_update(pre_rep, i as int, p);
                                    lemma_map_values_insert(
                                        str_map(pre_rep),
                                        |b: Vec<CanisterMappingOrganizationInfo>| b@,
                                        canister_id@,
                                        p.1,
                                    );
                                    assert(pre.reverse[canister_id@] == pre_bucket);
                                    assert(p.1@ == reverse_updated(
                                        pre_bucket,
                                        organize_name@,
                                        min_cycles,
                                    ));
                                }
                            },
                        }
                    },
                }
            },
            Opts::DELETE => {
                match str_pos(&self.canisters_to_organizes, &canister_id) {
                    None => vstd::pervasive::unreached(),
                    Some(i) => {
                        proof {
                            lemma_str_idx_of(self.canisters_to_organizes@, canister_id@, i as int);
                        }
                        match find_org_pos(&self.canisters_to_organizes[i].1, &organize_name) {
                            None => vstd::pervasive::unreached(),
                            Some(ei) => {
                                let ghost pre_rep = self.canisters_to_organizes@;
                                let ghost pre_bucket = pre_rep[i as int].1@;
                                let entry = self.canisters_to_organizes.remove(i);
                                let key = entry.0;
                                let mut bucket = entry.1;
                                bucket.remove(ei);
                                self.canisters_to_organizes.insert(i, (key, bucket));
                                proof {
                                    let p = (pre_rep[i as int].0, self.canisters_to_organizes@[i as int].1);
                                    lemma_remove_insert_is_update(pre_rep, i as int, p);
                                    assert(self.canisters_to_organizes@ == pre_rep.update(
                                        i as int,
                                        p,
                                    ));
                                    lemma_str_update(pre_rep, i as int, p);
                                    lemma_map_values_insert(
                                        str_map(pre_rep),
                                        |b: Vec<CanisterMappingOrganizationInfo>| b@,
                                        canister_id@,
                                        p.1,
                                    );
                                    assert(pre.reverse[canister_id@] == pre_bucket);
                                    assert(p.1@ == pre_bucket.remove(
                                        first_org_idx(pre_bucket, organize_name@),
                                    ));
                                }
                            },
                        }
                    },
                }
            },
        }
    }
}

} // verus!
