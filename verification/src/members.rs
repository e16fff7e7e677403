//! Membership: attaching members to an organization, removing them, and the
//! owner's view of every organization it owns together with the members.
use vstd::prelude::*;

use crate::alist::{
    keys_of, lemma_map_values_insert, lemma_remove_insert_is_update, lemma_str_idx_of,
    lemma_str_push, lemma_str_remove, lemma_str_update, str_map, str_pos, str_uniq,
};
use crate::store::{has_org, tracks, Store, StoreView};
use crate::types::{MemberInfo, OrgError};

verus! {

/// Holds of the organization names that `caller` owns.
pub open spec fn owned_pred(v: StoreView, caller: Seq<char>) -> spec_fn(Seq<char>) -> bool {
    |n: Seq<char>| v.owners[n] == caller
}

/// The names of the organizations `caller` owns, in registration order.
pub open spec fn owned_filter(v: StoreView, caller: Seq<char>) -> Seq<Seq<char>> {
    v.org_names.filter(owned_pred(v, caller))
}

impl Store {
    /// Inserts a member under an organization; only the owner may, and a
    /// member already present is refused. The bucket is created on first use.
    pub fn organization_owner_add_members_to_organization(
        &mut self,
        member_id: String,
        member_name: String,
        organize_name: String,
        caller: String,
        now: u64,
    ) -> (r: Result<(), OrgError>)
        requires
            old(self).wf(),
        ensures
            final(self).wf(),
            ({
                let pre = old(self)@;
                let post = final(self)@;
                match r {
                    Ok(_) => {
                        &&& pre.owners.contains_key(organize_name@)
                        &&& pre.owners[organize_name@] == caller@
                        &&& !(pre.members.contains_key(organize_name@)
                            && pre.members[organize_name@].contains_key(member_id@))
                        &&& post.members == pre.members.insert(
                            organize_name@,
                            (if pre.members.contains_key(organize_name@) {
                                pre.members[organize_name@]
                            } else {
                                Map::<Seq<char>, MemberInfo>::empty()
                            }).insert(member_id@, (MemberInfo { nickname: member_name, instime: now })),
                        )
                        &&& post.org_names == pre.org_names
                        &&& post.owners == pre.owners
                        &&& post.canisters == pre.canisters
                        &&& post.rollup == pre.rollup
                        &&& post.reverse == pre.reverse
                    },
                    Err(e) => {
                        &&& post == pre
                        &&& (e == OrgError::NotFound <==> !pre.owners.contains_key(organize_name@))
                        &&& (e == OrgError::Unauthorized <==> pre.owners.contains_key(organize_name@)
                            && pre.owners[organize_name@] != caller@)
                        &&& (e == OrgError::AlreadyMember <==> pre.owners.contains_key(
                            organize_name@,
                        ) && pre.owners[organize_name@] == caller@ && pre.members.contains_key(
                            organize_name@,
                        ) && pre.members[organize_name@].contains_key(member_id@))
                        &&& (e == OrgError::NotFound || e == OrgError::Unauthorized || e
                            == OrgError::AlreadyMember)
                    },
                }
            }),
    {
        let ghost pre = self@;
        match str_pos(&self.organizes_to_owner, &organize_name) {
            None => Err(OrgError::NotFound),
            Some(oi) => {
                proof {
                    lemma_str_idx_of(self.organizes_to_owner@, organize_name@, oi as int);
                }
                if self.organizes_to_owner[oi].1 == caller {
                    match str_pos(&self.organizes_to_members, &organize_name) {
                        Some(bi) => {
                            proof {
                                lemma_str_idx_of(
                                    self.organizes_to_members@,
                                    organize_name@,
                                    bi as int,
                                );
                            }
                            match str_pos(&self.organizes_to_members[bi].1, &member_id) {
                                Some(mi) => {
                                    proof {
                                        lemma_str_idx_of(
                                            self.organizes_to_members@[bi as int].1@,
                                            member_id@,
                                            mi as int,
                                        );
                                    }
                                    Err(OrgError::AlreadyMember)
                                },
                                None => {
                                    let ghost pre_outer = self.organizes_to_members@;
                                    let entry = self.organizes_to_members.remove(bi);
                                    let key = entry.0;
                                    let mut bucket = entry.1;
                                    let ghost pre_bucket = bucket@;
                                    bucket.push(
                                        (member_id, MemberInfo { nickname: member_name, instime: now }),
                                    );
                                    self.organizes_to_members.insert(bi, (key, bucket));
                                    proof {
                                        let info = MemberInfo {
                                            nickname: member_name,
                                            instime: now,
                                        };
                                        lemma_str_push(pre_bucket, (member_id, info));
                                        let p = (pre_outer[bi as int].0, self.organizes_to_members@[bi as int].1);
                                        lemma_remove_insert_is_update(pre_outer, bi as int, p);
                                        assert(self.organizes_to_members@ == pre_outer.update(
                                            bi as int,
                                            p,
                                        ));
                                        lemma_str_update(pre_outer, bi as int, p);
                                        lemma_map_values_insert(
                                            str_map(pre_outer),
                                            |b: Vec<(String, MemberInfo)>| str_map(b@),
                                            organize_name@,
                                            p.1,
                                        );
                                        assert(pre.members[organize_name@] == str_map(pre_bucket));
                                        assert(str_map(p.1@) == str_map(pre_bucket).insert(
                                            member_id@,
                                            info,
                                        ));
                                        assert forall|j: int|
                                            0 <= j < self.organizes_to_members@.len() implies
                                            str_uniq(
                                            #[trigger] self.organizes_to_members@[j].1@,
                                        ) by {
                                            if j != bi as int {
                                                assert(self.organizes_to_members@[j]
                                                    == pre_outer[j]);
                                            }
                                        }
                                        assert forall|org: Seq<char>, c: Seq<char>|
                                            tracks(self@, org, c) implies self@
                                            .reverse.contains_key(c) && has_org(
                                            self@.reverse[c],
                                            org,
                                        ) && self@.rollup.contains_key(c) by {
                                            assert(tracks(pre, org, c));
                                        }
                                        assert(self@.members.dom() =~= pre.members.dom().insert(
                                            organize_name@,
                                        ));
                                    }
                                    Ok(())
                                },
                            }
                        },
                        None => {
                            let ghost pre_outer = self.organizes_to_members@;
                            let mut bucket: Vec<(String, MemberInfo)> = Vec::new();
                            bucket.push(
                                (member_id, MemberInfo { nickname: member_name, instime: now }),
                            );
                            let ghost bucket_rep = bucket@;
                            self.organizes_to_members.push((organize_name, bucket));
                            proof {
                                let info = MemberInfo { nickname: member_name, instime: now };
                                lemma_str_push(
                                    Seq::<(String, MemberInfo)>::empty(),
                                    (member_id, info),
                                );
                                assert(bucket_rep == Seq::<(String, MemberInfo)>::empty().push(
                                    (member_id, info),
                                ));
                                assert(str_map(Seq::<(String, MemberInfo)>::empty())
                                    =~= Map::<Seq<char>, MemberInfo>::empty());
                                let p = (organize_name, self.organizes_to_members@.last().1);
                                lemma_str_push(pre_outer, p);
                                lemma_map_values_insert(
                                    str_map(pre_outer),
                                    |b: Vec<(String, MemberInfo)>| str_map(b@),
                                    organize_name@,
                                    p.1,
                                );
                                assert forall|j: int|
                                    0 <= j < self.organizes_to_members@.len() implies str_uniq(
                                    #[trigger] self.organizes_to_members@[j].1@,
                                ) by {
                                    if j < pre_outer.len() {
                                        assert(self.organizes_to_members@[j] == pre_outer[j]);
                                    }
                                }
                                assert forall|org: Seq<char>, c: Seq<char>|
                                    tracks(self@, org, c) implies self@.reverse.contains_key(c)
                                    && has_org(self@.reverse[c], org) && self@.rollup.contains_key(
                                    c,
                                ) by {
                                    assert(tracks(pre, org, c));
                                }
                                assert(self@.members.dom() =~= pre.members.dom().insert(
                                    organize_name@,
                                ));
                            }
                            Ok(())
                        },
                    }
                } else {
                    Err(OrgError::Unauthorized)
                }
            },
        }
    }

    /// Removes a member from an organization; only the owner may, and a
    /// missing member (or a bucket never created) is `NotFound`.
    pub fn organization_owner_minus_organization_members(
        &mut self,
        member_id: String,
        organize_name: String,
        caller: String,
    ) -> (r: Result<(), OrgError>)
        requires
            old(self).wf(),
        ensures
            final(self).wf(),
            ({
                let pre = old(self)@;
                let post = final(self)@;
                match r {
                    Ok(_) => {
                        &&& pre.owners.contains_key(organize_name@)
                        &&& pre.owners[organize_name@] == caller@
                        &&& pre.members.contains_key(organize_name@)
                        &&& pre.members[organize_name@].contains_key(member_id@)
                        &&& post.members == pre.members.insert(
                            organize_name@,
                            pre.members[organize_name@].remove(member_id@),
                        )
                        &&& post.org_names == pre.org_names
                        &&& post.owners == pre.owners
                        &&& post.canisters == pre.canisters
                        &&& post.rollup == pre.rollup
                        &&& post.reverse == pre.reverse
                    },
                    Err(e) => {
                        &&& post == pre
                        &&& (e == OrgError::NotFound <==> (!pre.owners.contains_key(organize_name@)
                            || (pre.owners[organize_name@] == caller@ && !(pre.members.contains_key(
                            organize_name@,
                        ) && pre.members[organize_name@].contains_key(member_id@)))))
                        &&& (e == OrgError::Unauthorized <==> pre.owners.contains_key(organize_name@)
                            && pre.owners[organize_name@] != caller@)
                        &&& (e == OrgError::NotFound || e == OrgError::Unauthorized)
                    },
                }
            }),
    {
        let ghost pre = self@;
        match str_pos(&self.organizes_to_owner, &organize_name) {
            None => Err(OrgError::NotFound),
            Some(oi) => {
                proof {
                    lemma_str_idx_of(self.organizes_to_owner@, organize_name@, oi as int);
                }
                if self.organizes_to_owner[oi].1 == caller {
                    match str_pos(&self.organizes_to_members, &organize_name) {
                        None => Err(OrgError::NotFound),
                        Some(bi) => {
                            proof {
                                lemma_str_idx_of(
                                    self.organizes_to_members@,
                                    organize_name@,
                                    bi as int,
                                );
                            }
                            match str_pos(&self.organizes_to_members[bi].1, &member_id) {
                                None => Err(OrgError::NotFound),
                                Some(mi) => {
                                    let ghost pre_outer = self.organizes_to_members@;
                                    let ghost pre_bucket = pre_outer[bi as int].1@;
                                    let entry = self.organizes_to_members.remove(bi);
                                    let key = entry.0;
                                    let mut bucket = entry.1;
                                    bucket.remove(mi);
                                    self.organizes_to_members.insert(bi, (key, bucket));
                                    proof {
                                        lemma_str_idx_of(pre_bucket, member_id@, mi as int);
                                        lemma_str_remove(pre_bucket, mi as int);
                                        let p = (pre_outer[bi as int].0, self.organizes_to_members@[bi as int].1);
                                        lemma_remove_insert_is_update(pre_outer, bi as int, p);
                                        assert(self.organizes_to_members@ == pre_outer.update(
                                            bi as int,
                                            p,
                                        ));
                                        lemma_str_update(pre_outer, bi as int, p);
                                        lemma_map_values_insert(
                                            str_map(pre_outer),
                                            |b: Vec<(String, MemberInfo)>| str_map(b@),
                                            organize_name@,
                                            p.1,
                                        );
                                        assert(pre.members[organize_name@] == str_map(pre_bucket));
                                        assert(str_map(p.1@) == str_map(pre_bucket).remove(
                                            member_id@,
                                        ));
                                        assert forall|j: int|
                                            0 <= j < self.organizes_to_members@.len() implies
                                            str_uniq(
                                            #[trigger] self.organizes_to_members@[j].1@,
                                        ) by {
                                            if j != bi as int {
                                                assert(self.organizes_to_members@[j]
                                                    == pre_outer[j]);
                                            }
                                        }
                                        assert forall|org: Seq<char>, c: Seq<char>|
                                            tracks(self@, org, c) implies self@
                                            .reverse.contains_key(c) && has_org(
                                            self@.reverse[c],
                                            org,
                                        ) && self@.rollup.contains_key(c) by {
                                            assert(tracks(pre, org, c));
                                        }
                                        assert(self@.members.dom() =~= pre.members.dom().insert(
                                            organize_name@,
                                        ));
                                        assert(self@.members.dom() =~= pre.members.dom());
                                    }
                                    Ok(())
                                },
                            }
                        },
                    }
                } else {
                    Err(OrgError::Unauthorized)
                }
            },
        }
    }
}

/// An element-exact copy of a member bucket.
fn clone_member_bucket(v: &Vec<(String, MemberInfo)>) -> (r: Vec<(String, MemberInfo)>)
    ensures
        r@ == v@,
{
    let mut r: Vec<(String, MemberInfo)> = Vec::new();
    let mut i: usize = 0;
    while i < v.len()
        invariant
            i <= v.len(),
            r@ == v@.take(i as int),
        decreases v.len() - i,
    {
        let p = &v[i];
        r.push((p.0.clone(), p.1.clone()));
        proof {
            assert(v@.take(i as int + 1) =~= v@.take(i as int).push(v@[i as int]));
        }
        i += 1;
    }
    proof {
        assert(v@.take(v@.len() as int) =~= v@);
    }
    r
}

impl Store {
    /// Every organization the caller owns, in registration order, each with a
    /// copy of its member bucket (empty if none was ever created). Read-only.
    pub fn the_organization_owner_queries_the_organization_under_his_own_name_and_the_users_under_the_organization(
        &self,
        caller: &String,
    ) -> (r: Vec<(String, Vec<(String, MemberInfo)>)>)
        requires
            self.wf(),
        ensures
            keys_of(r@) == owned_filter(self@, caller@),
            forall|i: int|
                0 <= i < r@.len() ==> {
                    let org = (#[trigger] r@[i]).0@;
                    &&& self@.owners.contains_key(org)
                    &&& self@.owners[org] == caller@
                    &&& str_uniq(r@[i].1@)
                    &&& str_map(r@[i].1@) == (if self@.members.contains_key(org) {
                        self@.members[org]
                    } else {
                        Map::<Seq<char>, MemberInfo>::empty()
                    })
                },
    {
        let ghost pred = owned_pred(self@, caller@);
        let mut out: Vec<(String, Vec<(String, MemberInfo)>)> = Vec::new();
        let mut i: usize = 0;
        while i < self.organizes_to_owner.len()
            invariant
                self.wf(),
                i <= self.organizes_to_owner.len(),
                pred == owned_pred(self@, caller@),
                keys_of(out@) == self@.org_names.take(i as int).filter(pred),
                forall|j: int|
                    0 <= j < out@.len() ==> {
                        let org = (#[trigger] out@[j]).0@;
                        &&& self@.owners.contains_key(org)
                        &&& self@.owners[org] == caller@
                        &&& str_uniq(out@[j].1@)
                        &&& str_map(out@[j].1@) == (if self@.members.contains_key(org) {
                            self@.members[org]
                        } else {
                            Map::<Seq<char>, MemberInfo>::empty()
                        })
                    },
            decreases self.organizes_to_owner.len() - i,
        {
            let ghost prefix = self@.org_names.take(i as int);
            let ghost name_i = self@.org_names[i as int];
            proof {
                lemma_str_idx_of(self.organizes_to_owner@, self.organizes_to_owner@[i as int].0@, i as int);
                assert(self@.org_names.take(i as int + 1) =~= prefix.push(name_i));
                prefix.lemma_filter_push(name_i, pred);
            }
            if self.organizes_to_owner[i].1 == *caller {
                let name = self.organizes_to_owner[i].0.clone();
                let bucket: Vec<(String, MemberInfo)> = match str_pos(
                    &self.organizes_to_members,
                    &name,
                ) {
                    Some(bi) => {
                        proof {
                            lemma_str_idx_of(self.organizes_to_members@, name@, bi as int);
                        }
                        clone_member_bucket(&self.organizes_to_members[bi].1)
                    },
                    None => Vec::new(),
                };
                let ghost pre_out = out@;
                out.push((name, bucket));
                proof {
                    assert(keys_of(out@) =~= keys_of(pre_out).push(name@));
                    assert(pred(name_i));
                    if !self@.members.contains_key(name@) {
                        assert(str_map(bucket@) =~= Map::<Seq<char>, MemberInfo>::empty());
                    }
                }
            } else {
                proof {
                    assert(!pred(name_i));
                }
            }
            i += 1;
        }
        proof {
            assert(self@.org_names.take(self@.org_names.len() as int) =~= self@.org_names);
        }
        out
    }
}

} // verus!
