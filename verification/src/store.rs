//! The store: five mutually consistent indexes over organizations, their
//! members and the canisters they monitor, with the derived global rollup and
//! the reverse index from canister to tracking organizations.
use vstd::prelude::*;

use crate::alist::{
    keys_of, lemma_keys_membership, lemma_keys_no_duplicates, lemma_map_values_insert,
    lemma_map_values_remove, lemma_remove_insert_is_update, lemma_str_idx_of, lemma_str_push,
    lemma_str_remove, lemma_str_update, str_map, str_pos, str_uniq,
};
use crate::types::{
    CanisterInfo, CanisterMappingOrganizationInfo, MemberInfo, OrgError, PubilcCanisterInfo,
};

verus! {

/// The smaller of two balances or intervals.
pub open spec fn min64(a: u64, b: u64) -> u64 {
    if a <= b {
        a
    } else {
        b
    }
}

/// The larger of two balances or intervals.
pub open spec fn max64(a: u64, b: u64) -> u64 {
    if a >= b {
        a
    } else {
        b
    }
}

/// What the global rollup holds for canister `c` after one more observation:
/// the tightest interval and floor, the loosest ceiling, and always the
/// freshest timestamp and balance.
pub open spec fn rollup_merge(
    prev: Map<Seq<char>, PubilcCanisterInfo>,
    c: Seq<char>,
    updtime: u64,
    cycles_balance: u64,
    time_interval: u64,
    cycles_minimum: u64,
    cycles_highest: u64,
) -> PubilcCanisterInfo {
    if prev.contains_key(c) {
        PubilcCanisterInfo {
            updtime,
            cycles_balance,
            time_interval: min64(prev[c].time_interval, time_interval),
            cycles_minimum: min64(prev[c].cycles_minimum, cycles_minimum),
            cycles_highest: max64(prev[c].cycles_highest, cycles_highest),
        }
    } else {
        PubilcCanisterInfo {
            updtime,
            cycles_balance,
            time_interval,
            cycles_minimum,
            cycles_highest,
        }
    }
}

/// Some element of a reverse-index list belongs to organization `org`.
pub open spec fn has_org(s: Seq<CanisterMappingOrganizationInfo>, org: Seq<char>) -> bool {
    exists|i: int| 0 <= i < s.len() && (#[trigger] s[i].organize_name@) == org
}

/// The first element of a reverse-index list that belongs to `org`.
pub open spec fn first_org_idx(s: Seq<CanisterMappingOrganizationInfo>, org: Seq<char>) -> int
    decreases s.len(),
{
    if s.len() == 0 {
        0
    } else if s[0].organize_name@ == org {
        0
    } else {
        1 + first_org_idx(s.drop_first(), org)
    }
}

/// The store read abstractly: the registration order of organization names,
/// and five maps over mathematical keys.
pub struct StoreView {
    /// Organization names in registration order (no duplicates).
    pub org_names: Seq<Seq<char>>,
    /// Organization name to owner identity.
    pub owners: Map<Seq<char>, Seq<char>>,
    /// Organization name to its member bucket (absent until first add).
    pub members: Map<Seq<char>, Map<Seq<char>, MemberInfo>>,
    /// Organization name to its canister bucket (absent until first add).
    pub canisters: Map<Seq<char>, Map<Seq<char>, CanisterInfo>>,
    /// Canister to its merged rollup entry (never pruned).
    pub rollup: Map<Seq<char>, PubilcCanisterInfo>,
    /// Canister to the (organization, floor) pairs tracking it, in insertion
    /// order; pairs of disbanded organizations deliberately linger.
    pub reverse: Map<Seq<char>, Seq<CanisterMappingOrganizationInfo>>,
}

/// Organization `org` currently tracks canister `c`.
pub open spec fn tracks(v: StoreView, org: Seq<char>, c: Seq<char>) -> bool {
    v.canisters.contains_key(org) && v.canisters[org].contains_key(c)
}

/// The cross-index consistency the cascade discipline maintains: the name
/// order matches the ownership map, buckets belong to live organizations, and
/// every tracked canister has a rollup entry and a reverse-index pair for each
/// organization tracking it.
pub open spec fn consistent(v: StoreView) -> bool {
    &&& v.org_names.no_duplicates()
    &&& forall|n: Seq<char>|
        #![trigger v.org_names.contains(n)]
        #![trigger v.owners.contains_key(n)]
        v.org_names.contains(n) <==> v.owners.contains_key(n)
    &&& v.members.dom().subset_of(v.owners.dom())
    &&& v.canisters.dom().subset_of(v.owners.dom())
    &&& forall|org: Seq<char>, c: Seq<char>|
        #![trigger tracks(v, org, c)]
        tracks(v, org, c) ==> v.reverse.contains_key(c) && has_org(v.reverse[c], org)
            && v.rollup.contains_key(c)
}

/// The five indexes. Each is an association list with distinct keys; the
/// operations keep them mutually consistent (`wf`).
pub struct Store {
    pub organizes_to_owner: Vec<(String, String)>,
    pub organizes_to_members: Vec<(String, Vec<(String, MemberInfo)>)>,
    pub organizes_to_canisters: Vec<(String, Vec<(String, CanisterInfo)>)>,
    pub public_canisters: Vec<(String, PubilcCanisterInfo)>,
    pub canisters_to_organizes: Vec<(String, Vec<CanisterMappingOrganizationInfo>)>,
}

impl View for Store {
    type V = StoreView;

    open spec fn view(&self) -> StoreView {
        StoreView {
            org_names: keys_of(self.organizes_to_owner@),
            owners: str_map(self.organizes_to_owner@).map_values(|v: String| v@),
            members: str_map(self.organizes_to_members@).map_values(
                |b: Vec<(String, MemberInfo)>| str_map(b@),
            ),
            canisters: str_map(self.organizes_to_canisters@).map_values(
                |b: Vec<(String, CanisterInfo)>| str_map(b@),
            ),
            rollup: str_map(self.public_canisters@),
            reverse: str_map(self.canisters_to_organizes@).map_values(
                |b: Vec<CanisterMappingOrganizationInfo>| b@,
            ),
        }
    }
}

impl Store {
    /// Each association list, outer and inner, has distinct keys.
    pub open spec fn rep_wf(&self) -> bool {
        &&& str_uniq(self.organizes_to_owner@)
        &&& str_uniq(self.organizes_to_members@)
        &&& forall|i: int|
            0 <= i < self.organizes_to_members@.len() ==> str_uniq(
                #[trigger] self.organizes_to_members@[i].1@,
            )
        &&& str_uniq(self.organizes_to_canisters@)
        &&& forall|i: int|
            0 <= i < self.organizes_to_canisters@.len() ==> str_uniq(
                #[trigger] self.organizes_to_canisters@[i].1@,
            )
        &&& str_uniq(self.public_canisters@)
        &&& str_uniq(self.canisters_to_organizes@)
    }

    /// Well-formed: sound representation and mutually consistent indexes.
    pub open spec fn wf(&self) -> bool {
        self.rep_wf() && consistent(self@)
    }

    /// An empty store.
    pub fn new() -> (r: Store)
        ensures
            r.wf(),
            r@.org_names == Seq::<Seq<char>>::empty(),
            r@.owners == Map::<Seq<char>, Seq<char>>::empty(),
            r@.members == Map::<Seq<char>, Map<Seq<char>, MemberInfo>>::empty(),
            r@.canisters == Map::<Seq<char>, Map<Seq<char>, CanisterInfo>>::empty(),
            r@.rollup == Map::<Seq<char>, PubilcCanisterInfo>::empty(),
            r@.reverse == Map::<Seq<char>, Seq<CanisterMappingOrganizationInfo>>::empty(),
    {
        let r = Store {
            organizes_to_owner: Vec::new(),
            organizes_to_members: Vec::new(),
            organizes_to_canisters: Vec::new(),
            public_canisters: Vec::new(),
            canisters_to_organizes: Vec::new(),
        };
        proof {
            assert(r@.org_names =~= Seq::<Seq<char>>::empty());
            assert(r@.owners =~= Map::<Seq<char>, Seq<char>>::empty());
            assert(r@.members =~= Map::<Seq<char>, Map<Seq<char>, MemberInfo>>::empty());
            assert(r@.canisters =~= Map::<Seq<char>, Map<Seq<char>, CanisterInfo>>::empty());
            assert(r@.rollup =~= Map::<Seq<char>, PubilcCanisterInfo>::empty());
            assert(r@.reverse =~= Map::<Seq<char>, Seq<CanisterMappingOrganizationInfo>>::empty());
        }
        r
    }

    /// Pure lookup: the organization exists and `caller` is its recorded
    /// owner. Every mutating operation applies exactly this test.
    pub fn authorize(&self, organize_name: &String, caller: &String) -> (r: bool)
        requires
            self.wf(),
        ensures
            r == (self@.owners.contains_key(organize_name@) && self@.owners[organize_name@]
                == caller@),
    {
        match str_pos(&self.organizes_to_owner, organize_name) {
            None => false,
            Some(i) => {
                proof {
                    lemma_str_idx_of(self.organizes_to_owner@, organize_name@, i as int);
                }
                self.organizes_to_owner[i].1 == *caller
            },
        }
    }

    /// Registers a fresh organization name to the caller; refused with
    /// `AlreadyExists` while the name is taken.
    pub fn create_organize(&mut self, organize_name: String, caller: String) -> (r: Result<
        (),
        OrgError,
    >)
        requires
            old(self).wf(),
        ensures
            final(self).wf(),
            ({
                let pre = old(self)@;
                let post = final(self)@;
                match r {
                    Ok(_) => {
                        &&& !pre.owners.contains_key(organize_name@)
                        &&& post.owners == pre.owners.insert(organize_name@, caller@)
                        &&& post.org_names == pre.org_names.push(organize_name@)
                        &&& post.members == pre.members
                        &&& post.canisters == pre.canisters
                        &&& post.rollup == pre.rollup
                        &&& post.reverse == pre.reverse
                    },
                    Err(e) => {
                        &&& e == OrgError::AlreadyExists
                        &&& pre.owners.contains_key(organize_name@)
                        &&& post == pre
                    },
                }
            }),
    {
        match str_pos(&self.organizes_to_owner, &organize_name) {
            Some(i) => {
                proof {
                    lemma_str_idx_of(self.organizes_to_owner@, organize_name@, i as int);
                }
                Err(OrgError::AlreadyExists)
            },
            None => {
                let ghost pre_rep = self.organizes_to_owner@;
                let ghost pre = self@;
                self.organizes_to_owner.push((organize_name, caller));
                proof {
                    let p = (organize_name, caller);
                    lemma_str_push(pre_rep, p);
                    lemma_map_values_insert(str_map(pre_rep), |v: String| v@, organize_name@, caller);
                    lemma_keys_no_duplicates(self.organizes_to_owner@);
                    assert forall|n: Seq<char>|
                        self@.org_names.contains(n) <==> self@.owners.contains_key(n) by {
                        broadcast use vstd::seq_lib::lemma_seq_contains_after_push;

                        assert(self@.org_names == pre.org_names.push(organize_name@));
                    }
                    assert forall|org: Seq<char>, c: Seq<char>| tracks(self@, org, c) implies self@
                        .reverse.contains_key(c) && has_org(self@.reverse[c], org) && self@
                        .rollup.contains_key(c) by {
                        assert(tracks(pre, org, c));
                    }
                }
                Ok(())
            },
        }
    }

    /// Rebinds an organization to a new owner; only the current owner may do
    /// this.
    pub fn transfer_organization_ownership(
        &mut self,
        organize_name: String,
        new_owner: String,
        caller: String,
    ) -> (r: Result<(), OrgError>)
        requires
            old(self).wf(),
        ensures
            final(self).wf(),
            ({
                let pre = old(self)@;
                let post = final(self)@;
                match r {
                    Ok(_) => {
                        &&& pre.owners.contains_key(organize_name@)
                        &&& pre.owners[organize_name@] == caller@
                        &&& post.owners == pre.owners.insert(organize_name@, new_owner@)
                        &&& post.org_names == pre.org_names
                        &&& post.members == pre.members
                        &&& post.canisters == pre.canisters
                        &&& post.rollup == pre.rollup
                        &&& post.reverse == pre.reverse
                    },
                    Err(e) => {
                        &&& post == pre
                        &&& (e == OrgError::NotFound <==> !pre.owners.contains_key(organize_name@))
                        &&& (e == OrgError::Unauthorized <==> pre.owners.contains_key(organize_name@)
                            && pre.owners[organize_name@] != caller@)
                        &&& (e == OrgError::NotFound || e == OrgError::Unauthorized)
                    },
                }
            }),
    {
        match str_pos(&self.organizes_to_owner, &organize_name) {
            None => Err(OrgError::NotFound),
            Some(i) => {
                proof {
                    lemma_str_idx_of(self.organizes_to_owner@, organize_name@, i as int);
                }
                if self.organizes_to_owner[i].1 == caller {
                    let ghost pre_rep = self.organizes_to_owner@;
                    let ghost pre = self@;
                    let entry = self.organizes_to_owner.remove(i);
                    self.organizes_to_owner.insert(i, (entry.0, new_owner));
                    proof {
                        let p = (entry.0, new_owner);
                        lemma_remove_insert_is_update(pre_rep, i as int, p);
                        assert(self.organizes_to_owner@ == pre_rep.update(i as int, p));
                        lemma_str_update(pre_rep, i as int, p);
                        lemma_map_values_insert(
                            str_map(pre_rep),
                            |v: String| v@,
                            organize_name@,
                            new_owner,
                        );
                        assert forall|org: Seq<char>, c: Seq<char>| tracks(self@, org, c) implies
                            self@.reverse.contains_key(c) && has_org(self@.reverse[c], org)
                            && self@.rollup.contains_key(c) by {
                            assert(tracks(pre, org, c));
                        }
                        assert forall|n: Seq<char>|
                            self@.org_names.contains(n) <==> self@.owners.contains_key(n) by {
                            assert(self@.org_names == pre.org_names);
                            assert(self@.owners.contains_key(n) <==> pre.owners.contains_key(n));
                        }
                    }
                    Ok(())
                } else {
                    Err(OrgError::Unauthorized)
                }
            },
        }
    }

    /// Drops the member bucket and the canister bucket of an organization, if
    /// present. The rollup and the reverse index are deliberately left alone.
    pub fn delete_synchronously(&mut self, organize_name: &String)
        requires
            old(self).rep_wf(),
        ensures
            final(self).rep_wf(),
            final(self)@.members == old(self)@.members.remove(organize_name@),
            final(self)@.canisters == old(self)@.canisters.remove(organize_name@),
            final(self)@.org_names == old(self)@.org_names,
            final(self)@.owners == old(self)@.owners,
            final(self)@.rollup == old(self)@.rollup,
            final(self)@.reverse == old(self)@.reverse,
    {
        let ghost pre = self@;
        match str_pos(&self.organizes_to_members, organize_name) {
            Some(i) => {
                let ghost pre_rep = self.organizes_to_members@;
                self.organizes_to_members.remove(i);
                proof {
                    lemma_str_idx_of(pre_rep, organize_name@, i as int);
                    lemma_str_remove(pre_rep, i as int);
                    lemma_map_values_remove(
                        str_map(pre_rep),
                        |b: Vec<(String, MemberInfo)>| str_map(b@),
                        organize_name@,
                    );
                    assert forall|j: int| 0 <= j < self.organizes_to_members@.len() implies str_uniq(
                        self.organizes_to_members@[j].1@,
                    ) by {
                        if j < i {
                            assert(self.organizes_to_members@[j] == pre_rep[j]);
                        } else {
                            assert(self.organizes_to_members@[j] == pre_rep[j + 1]);
                        }
                    }
                }
            },
            None => {
                proof {
                    assert(!pre.members.contains_key(organize_name@));
                    assert(self@.members =~= pre.members.remove(organize_name@));
                }
            },
        }
        match str_pos(&self.organizes_to_canisters, organize_name) {
            Some(i) => {
                let ghost pre_rep = self.organizes_to_canisters@;
                self.organizes_to_canisters.remove(i);
                proof {
                    lemma_str_idx_of(pre_rep, organize_name@, i as int);
                    lemma_str_remove(pre_rep, i as int);
                    lemma_map_values_remove(
                        str_map(pre_rep),
                        |b: Vec<(String, CanisterInfo)>| str_map(b@),
                        organize_name@,
                    );
                    assert forall|j: int| 0 <= j < self.organizes_to_canisters@.len() implies
                        str_uniq(self.organizes_to_canisters@[j].1@) by {
                        if j < i {
                            assert(self.organizes_to_canisters@[j] == pre_rep[j]);
                        } else {
                            assert(self.organizes_to_canisters@[j] == pre_rep[j + 1]);
                        }
                    }
                }
            },
            None => {
                proof {
                    assert(!self@.canisters.contains_key(organize_name@));
                    assert(self@.canisters =~= pre.canisters.remove(organize_name@));
                }
            },
        }
    }

    /// Disbands an organization: only the owner may; the name becomes free
    /// again and both buckets are purged in the same step. Reverse-index
    /// pairs and the rollup entry are deliberately not pruned, so stale pairs
    /// of a disbanded organization linger until the canister itself is
    /// deleted.
    pub fn disband_the_organization(&mut self, organize_name: String, caller: String) -> (r: Result<
        (),
        OrgError,
    >)
        requires
            old(self).wf(),
        ensures
            final(self).wf(),
            ({
                let pre = old(self)@;
                let post = final(self)@;
                match r {
                    Ok(_) => {
                        &&& pre.owners.contains_key(organize_name@)
                        &&& pre.owners[organize_name@] == caller@
                        &&& post.owners == pre.owners.remove(organize_name@)
                        &&& post.org_names == pre.org_names.remove_value(organize_name@)
                        &&& post.members == pre.members.remove(organize_name@)
                        &&& post.canisters == pre.canisters.remove(organize_name@)
                        &&& post.rollup == pre.rollup
                        &&& post.reverse == pre.reverse
                    },
                    Err(e) => {
                        &&& post == pre
                        &&& (e == OrgError::NotFound <==> !pre.owners.contains_key(organize_name@))
                        &&& (e == OrgError::Unauthorized <==> pre.owners.contains_key(organize_name@)
                            && pre.owners[organize_name@] != caller@)
                        &&& (e == OrgError::NotFound || e == OrgError::Unauthorized)
                    },
                }
            }),
    {
        match str_pos(&self.organizes_to_owner, &organize_name) {
            None => Err(OrgError::NotFound),
            Some(i) => {
                proof {
                    lemma_str_idx_of(self.organizes_to_owner@, organize_name@, i as int);
                }
                if self.organizes_to_owner[i].1 == caller {
                    let ghost pre_rep = self.organizes_to_owner@;
                    let ghost pre = self@;
                    self.organizes_to_owner.remove(i);
                    proof {
                        lemma_str_remove(pre_rep, i as int);
                        lemma_map_values_remove(str_map(pre_rep), |v: String| v@, organize_name@);
                    }
                    self.delete_synchronously(&organize_name);
                    proof {
                        let post = final(self)@;
                        lemma_keys_no_duplicates(self.organizes_to_owner@);
                        assert forall|n: Seq<char>|
                            post.org_names.contains(n) <==> post.owners.contains_key(n) by {
                            lemma_keys_membership(self.organizes_to_owner@, n);
                            lemma_keys_membership(pre_rep, n);
                        }
                        assert forall|org: Seq<char>, c: Seq<char>| tracks(post, org, c) implies
                            post.reverse.contains_key(c) && has_org(post.reverse[c], org)
                            && post.rollup.contains_key(c) by {
                            assert(tracks(pre, org, c));
                        }
                    }
                    Ok(())
                } else {
                    Err(OrgError::Unauthorized)
                }
            },
        }
    }
}

} // verus!
