//! Ranking a canister's reverse-index list: the pairs sorted by floor
//! threshold, highest first, pairs with equal floors keeping their insertion
//! order (a stable sort).
use vstd::prelude::*;

use crate::alist::{lemma_str_idx_of, str_pos};
use crate::store::Store;
use crate::types::CanisterMappingOrganizationInfo;

verus! {

/// Floors never increase along the sequence.
pub open spec fn sorted_desc(s: Seq<CanisterMappingOrganizationInfo>) -> bool {
    forall|i: int, j: int|
        0 <= i < j < s.len() ==> (#[trigger] s[i].min_cycles) >= (#[trigger] s[j].min_cycles)
}

/// Holds of the pairs whose floor is exactly `k`.
pub open spec fn key_pred(k: u64) -> spec_fn(CanisterMappingOrganizationInfo) -> bool {
    |p: CanisterMappingOrganizationInfo| p.min_cycles == k
}

/// `x` inserted after every pair with a floor at least as high: the stable
/// insertion step.
pub open spec fn insert_desc(
    s: Seq<CanisterMappingOrganizationInfo>,
    x: CanisterMappingOrganizationInfo,
) -> Seq<CanisterMappingOrganizationInfo>
    decreases s.len(),
{
    if s.len() == 0 {
        seq![x]
    } else if s.last().min_cycles < x.min_cycles {
        insert_desc(s.drop_last(), x).push(s.last())
    } else {
        s.push(x)
    }
}

/// The list sorted by floor, highest first, stable on ties.
pub open spec fn sort_desc(s: Seq<CanisterMappingOrganizationInfo>) -> Seq<
    CanisterMappingOrganizationInfo,
>
    decreases s.len(),
{
    if s.len() == 0 {
        Seq::<CanisterMappingOrganizationInfo>::empty()
    } else {
        insert_desc(sort_desc(s.drop_last()), s.last())
    }
}

/// Inserting at the position the exec loop finds is what `insert_desc` means:
/// before everything strictly smaller at the tail, after everything else.
proof fn lemma_insert_desc_at(
    s: Seq<CanisterMappingOrganizationInfo>,
    x: CanisterMappingOrganizationInfo,
    j: int,
)
    requires
        0 <= j <= s.len(),
        forall|t: int| j <= t < s.len() ==> (#[trigger] s[t].min_cycles) < x.min_cycles,
        j > 0 ==> s[j - 1].min_cycles >= x.min_cycles,
    ensures
        insert_desc(s, x) == s.subrange(0, j) + seq![x] + s.subrange(j, s.len() as int),
    decreases s.len(),
{
    if s.len() == 0 {
        assert(insert_desc(s, x) =~= s.subrange(0, j) + seq![x] + s.subrange(j, s.len() as int));
    } else if s.last().min_cycles < x.min_cycles {
        assert(j < s.len());
        let dl = s.drop_last();
        lemma_insert_desc_at(dl, x, j);
        assert(insert_desc(s, x) == (dl.subrange(0, j) + seq![x] + dl.subrange(
            j,
            dl.len() as int,
        )).push(s.last()));
        assert(dl.subrange(0, j) =~= s.subrange(0, j));
        assert((dl.subrange(0, j) + seq![x] + dl.subrange(j, dl.len() as int)).push(s.last())
            =~= s.subrange(0, j) + seq![x] + s.subrange(j, s.len() as int));
    } else {
        assert(j == s.len());
        assert(insert_desc(s, x) == s.push(x));
        assert(s.push(x) =~= s.subrange(0, j) + seq![x] + s.subrange(j, s.len() as int));
    }
}

/// One insertion step adds exactly the new pair to the multiset of pairs.
proof fn lemma_insert_desc_multiset(
    s: Seq<CanisterMappingOrganizationInfo>,
    x: CanisterMappingOrganizationInfo,
)
    ensures
        insert_desc(s, x).to_multiset() == s.to_multiset().insert(x),
    decreases s.len(),
{
    broadcast use vstd::seq_lib::group_to_multiset_ensures;

    if s.len() == 0 {
        assert(insert_desc(s, x) =~= s.push(x));
    } else if s.last().min_cycles < x.min_cycles {
        let dl = s.drop_last();
        lemma_insert_desc_multiset(dl, x);
        assert(s =~= dl.push(s.last()));
        assert(s.to_multiset() == dl.to_multiset().insert(s.last()));
        assert(insert_desc(s, x).to_multiset() == dl.to_multiset().insert(x).insert(s.last()));
        assert(dl.to_multiset().insert(x).insert(s.last()) =~= dl.to_multiset().insert(
            s.last(),
        ).insert(x));
    } else {
    }
}

/// One insertion step keeps a sorted list sorted.
proof fn lemma_insert_desc_sorted(
    s: Seq<CanisterMappingOrganizationInfo>,
    x: CanisterMappingOrganizationInfo,
)
    requires
        sorted_desc(s),
    ensures
        sorted_desc(insert_desc(s, x)),
    decreases s.len(),
{
    broadcast use vstd::seq_lib::group_to_multiset_ensures;

    if s.len() == 0 {
    } else if s.last().min_cycles < x.min_cycles {
        let dl = s.drop_last();
        assert(sorted_desc(dl)) by {
            assert forall|i: int, j: int| 0 <= i < j < dl.len() implies (#[trigger] dl[i].min_cycles)
                >= (#[trigger] dl[j].min_cycles) by {
                assert(dl[i] == s[i]);
                assert(dl[j] == s[j]);
            }
        }
        lemma_insert_desc_sorted(dl, x);
        lemma_insert_desc_multiset(dl, x);
        let a = insert_desc(dl, x);
        let res = a.push(s.last());
        assert forall|i: int, j: int| 0 <= i < j < res.len() implies (#[trigger] res[i].min_cycles)
            >= (#[trigger] res[j].min_cycles) by {
            if j < a.len() {
                assert(res[i] == a[i]);
                assert(res[j] == a[j]);
            } else {
                assert(res[j] == s.last());
                assert(res[i] == a[i]);
                assert(a.contains(a[i]));
                assert(a.to_multiset().count(a[i]) > 0);
                if a[i] == x {
                } else {
                    assert(dl.to_multiset().count(a[i]) > 0);
                    assert(dl.contains(a[i]));
                    let t = choose|t: int| 0 <= t < dl.len() && dl[t] == a[i];
                    assert(s[t] == dl[t]);
                    assert(s[t].min_cycles >= s.last().min_cycles);
                }
            }
        }
        assert(insert_desc(s, x) == res);
    } else {
        let res = s.push(x);
        assert forall|i: int, j: int| 0 <= i < j < res.len() implies (#[trigger] res[i].min_cycles)
            >= (#[trigger] res[j].min_cycles) by {
            if j == s.len() {
                assert(res[j] == x);
                assert(res[i] == s[i]);
                if i < s.len() - 1 {
                    assert(s[i].min_cycles >= s[s.len() - 1].min_cycles);
                }
            } else {
                assert(res[i] == s[i]);
                assert(res[j] == s[j]);
            }
        }
    }
}

/// One insertion step appends the new pair to the pairs of its own floor and
/// leaves every other floor's subsequence alone.
proof fn lemma_insert_desc_filter(
    s: Seq<CanisterMappingOrganizationInfo>,
    x: CanisterMappingOrganizationInfo,
    k: u64,
)
    ensures
        insert_desc(s, x).filter(key_pred(k)) == (if x.min_cycles == k {
            s.filter(key_pred(k)).push(x)
        } else {
            s.filter(key_pred(k))
        }),
    decreases s.len(),
{
    let pred = key_pred(k);
    if s.len() == 0 {
        assert(insert_desc(s, x) == s.push(x));
        s.lemma_filter_push(x, pred);
    } else if s.last().min_cycles < x.min_cycles {
        let dl = s.drop_last();
        lemma_insert_desc_filter(dl, x, k);
        let a = insert_desc(dl, x);
        a.lemma_filter_push(s.last(), pred);
        assert(s =~= dl.push(s.last()));
        dl.lemma_filter_push(s.last(), pred);
        assert(insert_desc(s, x) == a.push(s.last()));
    } else {
        assert(insert_desc(s, x) == s.push(x));
        s.lemma_filter_push(x, pred);
    }
}

/// The ranking is sorted: floors never increase along it.
pub proof fn lemma_sort_desc_sorted(s: Seq<CanisterMappingOrganizationInfo>)
    ensures
        sorted_desc(sort_desc(s)),
    decreases s.len(),
{
    if s.len() == 0 {
    } else {
        lemma_sort_desc_sorted(s.drop_last());
        lemma_insert_desc_sorted(sort_desc(s.drop_last()), s.last());
    }
}

/// The ranking is a permutation of the list it ranks: same pairs, same
/// multiplicities.
pub proof fn lemma_sort_desc_permutes(s: Seq<CanisterMappingOrganizationInfo>)
    ensures
        sort_desc(s).to_multiset() == s.to_multiset(),
    decreases s.len(),
{
    broadcast use vstd::seq_lib::group_to_multiset_ensures;

    if s.len() == 0 {
    } else {
        let dl = s.drop_last();
        lemma_sort_desc_permutes(dl);
        lemma_insert_desc_multiset(sort_desc(dl), s.last());
        assert(s =~= dl.push(s.last()));
        assert(s.to_multiset() == dl.to_multiset().insert(s.last()));
    }
}

/// The ranking is stable: for every floor value, the pairs holding exactly
/// that floor appear in the ranking in the same order as in the list being
/// ranked.
pub proof fn lemma_sort_desc_stable(s: Seq<CanisterMappingOrganizationInfo>, k: u64)
    ensures
        sort_desc(s).filter(key_pred(k)) == s.filter(key_pred(k)),
    decreases s.len(),
{
    let pred = key_pred(k);
    if s.len() == 0 {
    } else {
        let dl = s.drop_last();
        lemma_sort_desc_stable(dl, k);
        lemma_insert_desc_filter(sort_desc(dl), s.last(), k);
        assert(s =~= dl.push(s.last()));
        dl.lemma_filter_push(s.last(), pred);
    }
}

impl Store {
    /// Whether the canister has a reverse-index list at all (it may be
    /// empty): the condition under which it can be ranked.
    pub fn canister_has_reverse_index(&self, canister_id: &String) -> (r: bool)
        ensures
            r == self@.reverse.contains_key(canister_id@),
    {
        match str_pos(&self.canisters_to_organizes, canister_id) {
            Some(i) => {
                proof {
                    assert(crate::alist::str_has(self.canisters_to_organizes@, canister_id@));
                }
                true
            },
            None => false,
        }
    }

    /// The organizations tracking a canister, ranked by floor threshold,
    /// tightest (highest) first; ties keep their insertion order. Read-only;
    /// the canister must have a reverse-index list (possibly empty).
    pub fn organize_according_to_cycles_sorting(&self, canister_id: &String) -> (r: Vec<
        CanisterMappingOrganizationInfo,
    >)
        requires
            self.wf(),
            self@.reverse.contains_key(canister_id@),
        ensures
            r@ == sort_desc(self@.reverse[canister_id@]),
    {
        let bi: usize = match str_pos(&self.canisters_to_organizes, canister_id) {
            Some(bi) => bi,
            None => vstd::pervasive::unreached(),
        };
        proof {
            lemma_str_idx_of(self.canisters_to_organizes@, canister_id@, bi as int);
        }
        let v = &self.canisters_to_organizes[bi].1;
        let ghost whole = v@;
        let mut out: Vec<CanisterMappingOrganizationInfo> = Vec::new();
        let mut i: usize = 0;
        while i < v.len()
            invariant
                i <= v.len(),
                v@ == whole,
                out@ == sort_desc(whole.take(i as int)),
            decreases v.len() - i,
        {
            let x = v[i].clone();
            let ghost pre_out = out@;
            let mut j: usize = out.len();
            while j > 0 && out[j - 1].min_cycles < x.min_cycles
                invariant
                    j <= out.len(),
                    out@ == pre_out,
                    x == whole[i as int],
                    forall|t: int|
                        j <= t < out@.len() ==> (#[trigger] out@[t].min_cycles) < x.min_cycles,
                decreases j,
            {
                j -= 1;
            }
            out.insert(j, x);
            proof {
                lemma_insert_desc_at(pre_out, x, j as int);
                assert(out@ =~= pre_out.subrange(0, j as int) + seq![x] + pre_out.subrange(
                    j as int,
                    pre_out.len() as int,
                ));
                assert(out@ == insert_desc(pre_out, x));
                let s2 = whole.take(i as int + 1);
                assert(s2.drop_last() =~= whole.take(i as int));
                assert(s2.last() == whole[i as int]);
                assert(out@ == sort_desc(s2));
            }
            i += 1;
        }
        proof {
            assert(whole.take(whole.len() as int) =~= whole);
        }
        out
    }
}

} // verus!
