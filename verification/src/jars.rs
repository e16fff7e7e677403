//! Monitored canisters ("jars"): adding one under an organization, modifying
//! its configuration, deleting it, and the owner's read-only views. Every
//! write cascades into the global rollup and the reverse index.
use vstd::prelude::*;

use crate::alist::{
    keys_of, lemma_map_values_insert, lemma_remove_insert_is_update, lemma_str_idx_of,
    lemma_str_push, lemma_str_remove, lemma_str_update, str_map, str_pos, str_uniq,
};
use crate::cascade::{
    lemma_has_org_push, lemma_has_org_remove_other, lemma_has_org_update_same, reverse_updated,
};
use crate::members::{owned_filter, owned_pred};
use crate::store::{first_org_idx, has_org, rollup_merge, tracks, Store};
use crate::types::{CanisterInfo, CanisterMappingOrganizationInfo, Opts, OrgError, PubilcCanisterInfo};

verus! {

impl Store {
    /// Adds a canister under an organization with its polling interval and
    /// thresholds; the observed balance and the clock arrive as arguments.
    /// Only the owner may; a canister already tracked by this organization is
    /// refused. On success the rollup entry is upserted and the reverse index
    /// gains this organization's pair.
    pub fn the_organization_owner_adds_a_new_jar_to_the_organization(
        &mut self,
        organize_name: String,
        canister_name: String,
        canister_id: String,
        time_interval: u64,
        cycles_minimum: u64,
        cycles_highest: u64,
        caller: String,
        now: u64,
        cycle_balance: u64,
    ) -> (r: Result<(), OrgError>)
        requires
            old(self).wf(),
        ensures
            final(self).wf(),
            ({
                let pre = old(self)@;
                let post = final(self)@;
                match r {
                    Ok(_) => {
                        &&& pre.owners.contains_key(organize_name@)
                        &&& pre.owners[organize_name@] == caller@
                        &&& !tracks(pre, organize_name@, canister_id@)
                        &&& post.canisters == pre.canisters.insert(
                            organize_name@,
                            (if pre.canisters.contains_key(organize_name@) {
                                pre.canisters[organize_name@]
                            } else {
                                Map::<Seq<char>, CanisterInfo>::empty()
                            }).insert(
                                canister_id@,
                                (CanisterInfo {
                                    nickname: canister_name,
                                    instime: now,
                                    updtime: now,
                                    cycles_balance: cycle_balance,
                                    time_interval,
                                    cycles_minimum,
                                    cycles_highest,
                                }),
                            ),
                        )
                        &&& post.rollup == pre.rollup.insert(
                            canister_id@,
                            rollup_merge(
                                pre.rollup,
                                canister_id@,
                                now,
                                cycle_balance,
                                time_interval,
                                cycles_minimum,
                                cycles_highest,
                            ),
                        )
                        &&& post.reverse == pre.reverse.insert(
                            canister_id@,
                            (if pre.reverse.contains_key(canister_id@) {
                                pre.reverse[canister_id@]
                            } else {
                                Seq::<CanisterMappingOrganizationInfo>::empty()
                            }).push(
                                (CanisterMappingOrganizationInfo {
                                    organize_name,
                                    min_cycles: cycles_minimum,
                                }),
                            ),
                        )
                        &&& post.org_names == pre.org_names
                        &&& post.owners == pre.owners
                        &&& post.members == pre.members
                    },
                    Err(e) => {
                        &&& post == pre
                        &&& (e == OrgError::NotFound <==> !pre.owners.contains_key(organize_name@))
                        &&& (e == OrgError::Unauthorized <==> pre.owners.contains_key(organize_name@)
                            && pre.owners[organize_name@] != caller@)
                        &&& (e == OrgError::AlreadyExists <==> pre.owners.contains_key(
                            organize_name@,
                        ) && pre.owners[organize_name@] == caller@ && tracks(
                            pre,
                            organize_name@,
                            canister_id@,
                        ))
                        &&& (e == OrgError::NotFound || e == OrgError::Unauthorized || e
                            == OrgError::AlreadyExists)
                    },
                }
            }),
    {
        let ghost pre = self@;
        match str_pos(&self.organizes_to_owner, &organize_name) {
            None => Err(OrgError::NotFound),
            Some(oi) => {
                proof {
                    lemma_str_idx_of(self.organizes_to_owner@, organize_name@, oi as int);
                }
                if self.organizes_to_owner[oi].1 == caller {
                    match str_pos(&self.organizes_to_canisters, &organize_name) {
                        Some(bi) => {
                            proof {
                                lemma_str_idx_of(
                                    self.organizes_to_canisters@,
                                    organize_name@,
                                    bi as int,
                                );
                            }
                            match str_pos(&self.organizes_to_canisters[bi].1, &canister_id) {
                                Some(ci) => {
                                    proof {
                                        lemma_str_idx_of(
                                            self.organizes_to_canisters@[bi as int].1@,
                                            canister_id@,
                                            ci as int,
                                        );
                                    }
                                    Err(OrgError::AlreadyExists)
                                },
                                None => {
                                    let ghost pre_outer = self.organizes_to_canisters@;
                                    let ghost pre_bucket = pre_outer[bi as int].1@;
                                    let info = CanisterInfo {
                                        nickname: canister_name,
                                        instime: now,
                                        updtime: now,
                                        cycles_balance: cycle_balance,
                                        time_interval,
                                        cycles_minimum,
                                        cycles_highest,
                                    };
                                    let entry = self.organizes_to_canisters.remove(bi);
                                    let key = entry.0;
                                    let mut bucket = entry.1;
                                    bucket.push((canister_id.clone(), info));
                                    self.organizes_to_canisters.insert(bi, (key, bucket));
                                    proof {
                                        let ghost_info = CanisterInfo {
                                            nickname: canister_name,
                                            instime: now,
                                            updtime: now,
                                            cycles_balance: cycle_balance,
                                            time_interval,
                                            cycles_minimum,
                                            cycles_highest,
                                        };
                                        lemma_str_push(pre_bucket, (canister_id, ghost_info));
                                        assert(self.organizes_to_canisters@[bi as int].1@
                                            == pre_bucket.push((canister_id, ghost_info)));
                                        let p = (pre_outer[bi as int].0, self.organizes_to_canisters@[bi as int].1);
                                        lemma_remove_insert_is_update(pre_outer, bi as int, p);
                                        assert(self.organizes_to_canisters@ == pre_outer.update(
                                            bi as int,
                                            p,
                                        ));
                                        lemma_str_update(pre_outer, bi as int, p);
                                        lemma_map_values_insert(
                                            str_map(pre_outer),
                                            |b: Vec<(String, CanisterInfo)>| str_map(b@),
                                            organize_name@,
                                            p.1,
                                        );
                                        assert(pre.canisters[organize_name@] == str_map(pre_bucket));
                                        assert forall|j: int|
                                            0 <= j < self.organizes_to_canisters@.len() implies
                                            str_uniq(
                                            #[trigger] self.organizes_to_canisters@[j].1@,
                                        ) by {
                                            if j != bi as int {
                                                assert(self.organizes_to_canisters@[j]
                                                    == pre_outer[j]);
                                            }
                                        }
                                    }
                                    self.add_or_update_public_canisters(
                                        canister_id.clone(),
                                        now,
                                        cycle_balance,
                                        time_interval,
                                        cycles_minimum,
                                        cycles_highest,
                                    );
                                    self.canister_mapping_organization_deal_with(
                                        Opts::ADD,
                                        canister_id,
                                        organize_name,
                                        cycles_minimum,
                                    );
                                    proof {
                                        self.lemma_add_jar_consistent(
                                            pre,
                                            organize_name@,
                                            canister_id@,
                                            organize_name,
                                            cycles_minimum,
                                        );
                                    }
                                    Ok(())
                                },
                            }
                        },
                        None => {
                            let ghost pre_outer = self.organizes_to_canisters@;
                            let info = CanisterInfo {
                                nickname: canister_name,
                                instime: now,
                                updtime: now,
                                cycles_balance: cycle_balance,
                                time_interval,
                                cycles_minimum,
                                cycles_highest,
                            };
                            let mut bucket: Vec<(String, CanisterInfo)> = Vec::new();
                            bucket.push((canister_id.clone(), info));
                            let ghost bucket_rep = bucket@;
                            self.organizes_to_canisters.push((organize_name.clone(), bucket));
                            proof {
                                let ghost_info = CanisterInfo {
                                    nickname: canister_name,
                                    instime: now,
                                    updtime: now,
                                    cycles_balance: cycle_balance,
                                    time_interval,
                                    cycles_minimum,
                                    cycles_highest,
                                };
                                lemma_str_push(
                                    Seq::<(String, CanisterInfo)>::empty(),
                                    (canister_id, ghost_info),
                                );
                                assert(bucket_rep == Seq::<(String, CanisterInfo)>::empty().push(
                                    (canister_id, ghost_info),
                                ));
                                assert(str_map(Seq::<(String, CanisterInfo)>::empty())
                                    =~= Map::<Seq<char>, CanisterInfo>::empty());
                                let p = (self.organizes_to_canisters@.last().0, self.organizes_to_canisters@.last().1);
                                assert(p.0@ == organize_name@);
                                assert(self.organizes_to_canisters@ == pre_outer.push(p));
                                lemma_str_push(pre_outer, p);
                                lemma_map_values_insert(
                                    str_map(pre_outer),
                                    |b: Vec<(String, CanisterInfo)>| str_map(b@),
                                    organize_name@,
                                    p.1,
                                );
                                assert forall|j: int|
                                    0 <= j < self.organizes_to_canisters@.len() implies str_uniq(
                                    #[trigger] self.organizes_to_canisters@[j].1@,
                                ) by {
                                    if j < pre_outer.len() {
                                        assert(self.organizes_to_canisters@[j] == pre_outer[j]);
                                    }
                                }
                            }
                            self.add_or_update_public_canisters(
                                canister_id.clone(),
                                now,
                                cycle_balance,
                                time_interval,
                                cycles_minimum,
                                cycles_highest,
                            );
                            self.canister_mapping_organization_deal_with(
                                Opts::ADD,
                                canister_id,
                                organize_name,
                                cycles_minimum,
                            );
                            proof {
                                self.lemma_add_jar_consistent(
                                    pre,
                                    organize_name@,
                                    canister_id@,
                                    organize_name,
                                    cycles_minimum,
                                );
                            }
                            Ok(())
                        },
                    }
                } else {
                    Err(OrgError::Unauthorized)
                }
            },
        }
    }

    /// After an add: the new state is consistent again.
    proof fn lemma_add_jar_consistent(
        &self,
        pre: crate::store::StoreView,
        org: Seq<char>,
        c: Seq<char>,
        org_string: String,
        cycles_minimum: u64,
    )
        requires
            crate::store::consistent(pre),
            pre.owners.contains_key(org),
            org_string@ == org,
            self@.org_names == pre.org_names,
            self@.owners == pre.owners,
            self@.members == pre.members,
            self@.canisters == pre.canisters.insert(
                org,
                (if pre.canisters.contains_key(org) {
                    pre.canisters[org]
                } else {
                    Map::<Seq<char>, CanisterInfo>::empty()
                }).insert(c, self@.canisters[org][c]),
            ),
            self@.rollup.contains_key(c),
            forall|c2: Seq<char>|
                c2 != c ==> (#[trigger] self@.rollup.contains_key(c2) <==> pre.rollup.contains_key(
                    c2,
                )),
            self@.reverse == pre.reverse.insert(
                c,
                (if pre.reverse.contains_key(c) {
                    pre.reverse[c]
                } else {
                    Seq::<CanisterMappingOrganizationInfo>::empty()
                }).push(
                    (CanisterMappingOrganizationInfo {
                        organize_name: org_string,
                        min_cycles: cycles_minimum,
                    }),
                ),
            ),
        ensures
            crate::store::consistent(self@),
    {
        let post = self@;
        let newpair = CanisterMappingOrganizationInfo {
            organize_name: org_string,
            min_cycles: cycles_minimum,
        };
        let base = if pre.reverse.contains_key(c) {
            pre.reverse[c]
        } else {
            Seq::<CanisterMappingOrganizationInfo>::empty()
        };
        assert(post.canisters.dom() =~= pre.canisters.dom().insert(org));
        assert forall|org2: Seq<char>, c2: Seq<char>| tracks(post, org2, c2) implies post
            .reverse.contains_key(c2) && has_org(post.reverse[c2], org2)
            && post.rollup.contains_key(c2) by {
            lemma_has_org_push(base, newpair, org2);
            if org2 == org {
                if c2 == c {
                } else {
                    if pre.canisters.contains_key(org) {
                        assert(tracks(pre, org2, c2));
                    }
                }
            } else {
                assert(tracks(pre, org2, c2));
            }
        }
    }

    /// Overwrites the interval, the thresholds, the observed balance and the
    /// observation time of a canister the organization tracks; only the owner
    /// may. The rollup is upserted and the organization's reverse-index pair
    /// gets the new floor.
    pub fn organization_owner_modify_jar(
        &mut self,
        organize_name: String,
        canister_id: String,
        time_interval: u64,
        cycles_minimum: u64,
        cycles_highest: u64,
        caller: String,
        now: u64,
        cycle_balance: u64,
    ) -> (r: Result<(), OrgError>)
        requires
            old(self).wf(),
        ensures
            final(self).wf(),
            ({
                let pre = old(self)@;
                let post = final(self)@;
                match r {
                    Ok(_) => {
                        &&& pre.owners.contains_key(organize_name@)
                        &&& pre.owners[organize_name@] == caller@
                        &&& tracks(pre, organize_name@, canister_id@)
                        &&& post.canisters == pre.canisters.insert(
                            organize_name@,
                            pre.canisters[organize_name@].insert(
                                canister_id@,
                                (CanisterInfo {
                                    nickname: pre.canisters[organize_name@][canister_id@].nickname,
                                    instime: pre.canisters[organize_name@][canister_id@].instime,
                                    updtime: now,
                                    cycles_balance: cycle_balance,
                                    time_interval,
                                    cycles_minimum,
                                    cycles_highest,
                                }),
                            ),
                        )
                        &&& post.rollup == pre.rollup.insert(
                            canister_id@,
                            rollup_merge(
                                pre.rollup,
                                canister_id@,
                                now,
                                cycle_balance,
                                time_interval,
                                cycles_minimum,
                                cycles_highest,
                            ),
                        )
                        &&& post.reverse == pre.reverse.insert(
                            canister_id@,
                            reverse_updated(pre.reverse[canister_id@], organize_name@, cycles_minimum),
                        )
                        &&& post.org_names == pre.org_names
                        &&& post.owners == pre.owners
                        &&& post.members == pre.members
                    },
                    Err(e) => {
                        &&& post == pre
                        &&& (e == OrgError::NotFound <==> (!pre.owners.contains_key(organize_name@)
                            || (pre.owners[organize_name@] == caller@ && !tracks(
                            pre,
                            organize_name@,
                            canister_id@,
                        ))))
                        &&& (e == OrgError::Unauthorized <==> pre.owners.contains_key(organize_name@)
                            && pre.owners[organize_name@] != caller@)
                        &&& (e == OrgError::NotFound || e == OrgError::Unauthorized)
                    },
                }
            }),
    {
        let ghost pre = self@;
        match str_pos(&self.organizes_to_owner, &organize_name) {
            None => Err(OrgError::NotFound),
            Some(oi) => {
                proof {
                    lemma_str_idx_of(self.organizes_to_owner@, organize_name@, oi as int);
                }
                if self.organizes_to_owner[oi].1 == caller {
                    match str_pos(&self.organizes_to_canisters, &organize_name) {
                        None => Err(OrgError::NotFound),
                        Some(bi) => {
                            proof {
                                lemma_str_idx_of(
                                    self.organizes_to_canisters@,
                                    organize_name@,
                                    bi as int,
                                );
                            }
                            match str_pos(&self.organizes_to_canisters[bi].1, &canister_id) {
                                None => Err(OrgError::NotFound),
                                Some(ci) => {
                                    let ghost pre_outer = self.organizes_to_canisters@;
                                    let ghost pre_bucket = pre_outer[bi as int].1@;
                                    let entry = self.organizes_to_canisters.remove(bi);
                                    let key = entry.0;
                                    let mut bucket = entry.1;
                                    let old_pair = bucket.remove(ci);
                                    let ckey = old_pair.0;
                                    let old_info = old_pair.1;
                                    let new_info = CanisterInfo {
                                        nickname: old_info.nickname,
                                        instime: old_info.instime,
                                        updtime: now,
                                        cycles_balance: cycle_balance,
                                        time_interval,
                                        cycles_minimum,
                                        cycles_highest,
                                    };
                                    bucket.insert(ci, (ckey, new_info));
                                    self.organizes_to_canisters.insert(bi, (key, bucket));
                                    proof {
                                        lemma_str_idx_of(pre_bucket, canister_id@, ci as int);
                                        let x = (pre_bucket[ci as int].0, (CanisterInfo {
                                            nickname: pre_bucket[ci as int].1.nickname,
                                            instime: pre_bucket[ci as int].1.instime,
                                            updtime: now,
                                            cycles_balance: cycle_balance,
                                            time_interval,
                                            cycles_minimum,
                                            cycles_highest,
                                        }));
                                        lemma_remove_insert_is_update(pre_bucket, ci as int, x);
                                        assert(self.organizes_to_canisters@[bi as int].1@
                                            == pre_bucket.update(ci as int, x));
                                        lemma_str_update(pre_bucket, ci as int, x);
                                        let p = (pre_outer[bi as int].0, self.organizes_to_canisters@[bi as int].1);
                                        lemma_remove_insert_is_update(pre_outer, bi as int, p);
                                        assert(self.organizes_to_canisters@ == pre_outer.update(
                                            bi as int,
                                            p,
                                        ));
                                        lemma_str_update(pre_outer, bi as int, p);
                                        lemma_map_values_insert(
                                            str_map(pre_outer),
                                            |b: Vec<(String, CanisterInfo)>| str_map(b@),
                                            organize_name@,
                                            p.1,
                                        );
                                        assert(pre.canisters[organize_name@] == str_map(pre_bucket));
                                        assert(pre.canisters[organize_name@][canister_id@]
                                            == pre_bucket[ci as int].1);
                                        assert forall|j: int|
                                            0 <= j < self.organizes_to_canisters@.len() implies
                                            str_uniq(
                                            #[trigger] self.organizes_to_canisters@[j].1@,
                                        ) by {
                                            if j != bi as int {
                                                assert(self.organizes_to_canisters@[j]
                                                    == pre_outer[j]);
                                            }
                                        }
                                    }
                                    self.add_or_update_public_canisters(
                                        canister_id.clone(),
                                        now,
                                        cycle_balance,
                                        time_interval,
                                        cycles_minimum,
                                        cycles_highest,
                                    );
                                    proof {
                                        assert(tracks(pre, organize_name@, canister_id@));
                                    }
                                    self.canister_mapping_organization_deal_with(
                                        Opts::UPDATE,
                                        canister_id,
                                        organize_name,
                                        cycles_minimum,
                                    );
                                    proof {
                                        let post = self@;
                                        let rev = pre.reverse[canister_id@];
                                        let fi = first_org_idx(rev, organize_name@);
                                        assert(has_org(rev, organize_name@));
                                        crate::cascade::lemma_first_org_exists(rev, organize_name@);
                                        assert(post.canisters.dom() =~= pre.canisters.dom());
                                        assert forall|org2: Seq<char>, c2: Seq<char>|
                                            tracks(post, org2, c2) implies post.reverse.contains_key(
                                            c2,
                                        ) && has_org(post.reverse[c2], org2)
                                            && post.rollup.contains_key(c2) by {
                                            if org2 == organize_name@ {
                                                assert(pre.canisters[org2].contains_key(c2)
                                                    || c2 == canister_id@);
                                            }
                                            assert(tracks(pre, org2, c2));
                                            if c2 == canister_id@ {
                                                lemma_has_org_update_same(
                                                    rev,
                                                    fi,
                                                    (CanisterMappingOrganizationInfo {
                                                        organize_name: rev[fi].organize_name,
                                                        min_cycles: cycles_minimum,
                                                    }),
                                                    org2,
                                                );
                                            }
                                        }
                                    }
                                    Ok(())
                                },
                            }
                        },
                    }
                } else {
                    Err(OrgError::Unauthorized)
                }
            },
        }
    }

    /// Removes a canister from an organization; only the owner may. The
    /// organization's reverse-index pair is dropped with it, while the rollup
    /// entry deliberately stays as documented stale data.
    pub fn organization_owner_delete_jar(
        &mut self,
        organize_name: String,
        canister_id: String,
        caller: String,
    ) -> (r: Result<(), OrgError>)
        requires
            old(self).wf(),
        ensures
            final(self).wf(),
            ({
                let pre = old(self)@;
                let post = final(self)@;
                match r {
                    Ok(_) => {
                        &&& pre.owners.contains_key(organize_name@)
                        &&& pre.owners[organize_name@] == caller@
                        &&& tracks(pre, organize_name@, canister_id@)
                        &&& post.canisters == pre.canisters.insert(
                            organize_name@,
                            pre.canisters[organize_name@].remove(canister_id@),
                        )
                        &&& post.reverse == pre.reverse.insert(
                            canister_id@,
                            pre.reverse[canister_id@].remove(
                                first_org_idx(pre.reverse[canister_id@], organize_name@),
                            ),
                        )
                        &&& post.rollup == pre.rollup
                        &&& post.org_names == pre.org_names
                        &&& post.owners == pre.owners
                        &&& post.members == pre.members
                    },
                    Err(e) => {
                        &&& post == pre
                        &&& (e == OrgError::NotFound <==> (!pre.owners.contains_key(organize_name@)
                            || (pre.owners[organize_name@] == caller@ && !tracks(
                            pre,
                            organize_name@,
                            canister_id@,
                        ))))
                        &&& (e == OrgError::Unauthorized <==> pre.owners.contains_key(organize_name@)
                            && pre.owners[organize_name@] != caller@)
                        &&& (e == OrgError::NotFound || e == OrgError::Unauthorized)
                    },
                }
            }),
    {
        let ghost pre = self@;
        match str_pos(&self.organizes_to_owner, &organize_name) {
            None => Err(OrgError::NotFound),
            Some(oi) => {
                proof {
                    lemma_str_idx_of(self.organizes_to_owner@, organize_name@, oi as int);
                }
                if self.organizes_to_owner[oi].1 == caller {
                    match str_pos(&self.organizes_to_canisters, &organize_name) {
                        None => Err(OrgError::NotFound),
                        Some(bi) => {
                            proof {
                                lemma_str_idx_of(
                                    self.organizes_to_canisters@,
                                    organize_name@,
                                    bi as int,
                                );
                            }
                            match str_pos(&self.organizes_to_canisters[bi].1, &canister_id) {
                                None => Err(OrgError::NotFound),
                                Some(ci) => {
                                    let ghost pre_outer = self.organizes_to_canisters@;
                                    let ghost pre_bucket = pre_outer[bi as int].1@;
                                    let entry = self.organizes_to_canisters.remove(bi);
                                    let key = entry.0;
                                    let mut bucket = entry.1;
                                    bucket.remove(ci);
                                    self.organizes_to_canisters.insert(bi, (key, bucket));
                                    proof {
                                        lemma_str_idx_of(pre_bucket, canister_id@, ci as int);
                                        lemma_str_remove(pre_bucket, ci as int);
                                        let p = (pre_outer[bi as int].0, self.organizes_to_canisters@[bi as int].1);
                                        lemma_remove_insert_is_update(pre_outer, bi as int, p);
                                        assert(self.organizes_to_canisters@ == pre_outer.update(
                                            bi as int,
                                            p,
                                        ));
                                        lemma_str_update(pre_outer, bi as int, p);
                                        lemma_map_values_insert(
                                            str_map(pre_outer),
                                            |b: Vec<(String, CanisterInfo)>| str_map(b@),
                                            organize_name@,
                                            p.1,
                                        );
                                        assert(pre.canisters[organize_name@] == str_map(pre_bucket));
                                        assert forall|j: int|
                                            0 <= j < self.organizes_to_canisters@.len() implies
                                            str_uniq(
                                            #[trigger] self.organizes_to_canisters@[j].1@,
                                        ) by {
                                            if j != bi as int {
                                                assert(self.organizes_to_canisters@[j]
                                                    == pre_outer[j]);
                                            }
                                        }
                                        assert(tracks(pre, organize_name@, canister_id@));
                                    }
                                    self.canister_mapping_organization_deal_with(
                                        Opts::DELETE,
                                        canister_id,
                                        organize_name,
                                        0u64,
                                    );
                                    proof {
                                        let post = self@;
                                        let rev = pre.reverse[canister_id@];
                                        let fi = first_org_idx(rev, organize_name@);
                                        crate::cascade::lemma_first_org_exists(rev, organize_name@);
                                        assert(post.canisters.dom() =~= pre.canisters.dom());
                                        assert forall|org2: Seq<char>, c2: Seq<char>|
                                            tracks(post, org2, c2) implies post.reverse.contains_key(
                                            c2,
                                        ) && has_org(post.reverse[c2], org2)
                                            && post.rollup.contains_key(c2) by {
                                            if org2 == organize_name@ {
                                                assert(pre.canisters[org2].contains_key(c2));
                                                assert(c2 != canister_id@);
                                            }
                                            assert(tracks(pre, org2, c2));
                                            if c2 == canister_id@ {
                                                assert(org2 != organize_name@);
                                                assert(rev[fi].organize_name@ == organize_name@);
                                                lemma_has_org_remove_other(rev, fi, org2);
                                            }
                                        }
                                    }
                                    Ok(())
                                },
                            }
                        },
                    }
                } else {
                    Err(OrgError::Unauthorized)
                }
            },
        }
    }
}

/// An element-exact copy of a canister bucket.
fn clone_canister_bucket(v: &Vec<(String, CanisterInfo)>) -> (r: Vec<(String, CanisterInfo)>)
    ensures
        r@ == v@,
{
    let mut r: Vec<(String, CanisterInfo)> = Vec::new();
    let mut i: usize = 0;
    while i < v.len()
        invariant
            i <= v.len(),
            r@ == v@.take(i as int),
        decreases v.len() - i,
    {
        let p = &v[i];
        r.push((p.0.clone(), p.1.clone()));
        proof {
            assert(v@.take(i as int + 1) =~= v@.take(i as int).push(v@[i as int]));
        }
        i += 1;
    }
    proof {
        assert(v@.take(v@.len() as int) =~= v@);
    }
    r
}

impl Store {
    /// Every organization the caller owns, in registration order, each with a
    /// copy of its canister bucket (empty if none was ever created).
    /// Read-only.
    pub fn organization_owner_query_the_organization_under_his_name_and_the_tanks_under_the_organization(
        &self,
        caller: &String,
    ) -> (r: Vec<(String, Vec<(String, CanisterInfo)>)>)
        requires
            self.wf(),
        ensures
            keys_of(r@) == owned_filter(self@, caller@),
            forall|i: int|
                0 <= i < r@.len() ==> {
                    let org = (#[trigger] r@[i]).0@;
                    &&& self@.owners.contains_key(org)
                    &&& self@.owners[org] == caller@
                    &&& str_uniq(r@[i].1@)
                    &&& str_map(r@[i].1@) == (if self@.canisters.contains_key(org) {
                        self@.canisters[org]
                    } else {
                        Map::<Seq<char>, CanisterInfo>::empty()
                    })
                },
    {
        let ghost pred = owned_pred(self@, caller@);
        let mut out: Vec<(String, Vec<(String, CanisterInfo)>)> = Vec::new();
        let mut i: usize = 0;
        while i < self.organizes_to_owner.len()
            invariant
                self.wf(),
                i <= self.organizes_to_owner.len(),
                pred == owned_pred(self@, caller@),
                keys_of(out@) == self@.org_names.take(i as int).filter(pred),
                forall|j: int|
                    0 <= j < out@.len() ==> {
                        let org = (#[trigger] out@[j]).0@;
                        &&& self@.owners.contains_key(org)
                        &&& self@.owners[org] == caller@
                        &&& str_uniq(out@[j].1@)
                        &&& str_map(out@[j].1@) == (if self@.canisters.contains_key(org) {
                            self@.canisters[org]
                        } else {
                            Map::<Seq<char>, CanisterInfo>::empty()
                        })
                    },
            decreases self.organizes_to_owner.len() - i,
        {
            let ghost prefix = self@.org_names.take(i as int);
            let ghost name_i = self@.org_names[i as int];
            proof {
                lemma_str_idx_of(
                    self.organizes_to_owner@,
                    self.organizes_to_owner@[i as int].0@,
                    i as int,
                );
                assert(self@.org_names.take(i as int + 1) =~= prefix.push(name_i));
                prefix.lemma_filter_push(name_i, pred);
            }
            if self.organizes_to_owner[i].1 == *caller {
                let name = self.organizes_to_owner[i].0.clone();
                let bucket: Vec<(String, CanisterInfo)> = match str_pos(
                    &self.organizes_to_canisters,
                    &name,
                ) {
                    Some(bi) => {
                        proof {
                            lemma_str_idx_of(self.organizes_to_canisters@, name@, bi as int);
                        }
                        clone_canister_bucket(&self.organizes_to_canisters[bi].1)
                    },
                    None => Vec::new(),
                };
                let ghost pre_out = out@;
                out.push((name, bucket));
                proof {
                    assert(keys_of(out@) =~= keys_of(pre_out).push(name@));
                    assert(pred(name_i));
                    if !self@.canisters.contains_key(name@) {
                        assert(str_map(bucket@) =~= Map::<Seq<char>, CanisterInfo>::empty());
                    }
                }
            } else {
                proof {
                    assert(!pred(name_i));
                }
            }
            i += 1;
        }
        proof {
            assert(self@.org_names.take(self@.org_names.len() as int) =~= self@.org_names);
        }
        out
    }

    /// A full snapshot of the global rollup. Read-only.
    pub fn query_the_structure_of_the_public_rotation_training_tank(&self) -> (r: Vec<
        (String, PubilcCanisterInfo),
    >)
        requires
            self.wf(),
        ensures
            str_uniq(r@),
            str_map(r@) == self@.rollup,
    {
        let mut r: Vec<(String, PubilcCanisterInfo)> = Vec::new();
        let mut i: usize = 0;
        while i < self.public_canisters.len()
            invariant
                self.wf(),
                i <= self.public_canisters.len(),
                r@ == self.public_canisters@.take(i as int),
            decreases self.public_canisters.len() - i,
        {
            let p = &self.public_canisters[i];
            r.push((p.0.clone(), p.1));
            proof {
                assert(self.public_canisters@.take(i as int + 1) =~= self.public_canisters@.take(
                    i as int,
                ).push(self.public_canisters@[i as int]));
            }
            i += 1;
        }
        proof {
            assert(self.public_canisters@.take(self.public_canisters@.len() as int)
                =~= self.public_canisters@);
        }
        r
    }
}

} // verus!
