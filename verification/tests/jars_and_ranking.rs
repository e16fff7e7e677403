use icp_bd_backend::store::Store;
use icp_bd_backend::types::{OrgError, PubilcCanisterInfo};

fn s(x: &str) -> String {
    x.to_string()
}

fn rollup_entry(store: &Store, id: &str) -> Option<PubilcCanisterInfo> {
    let snapshot = store.query_the_structure_of_the_public_rotation_training_tank();
    for (cid, entry) in snapshot {
        if cid == id {
            return Some(entry);
        }
    }
    None
}

#[test]
fn add_jar_and_rollup() {
    let mut store = Store::new();
    assert_eq!(store.create_organize(s("Acme"), s("A")), Ok(()));
    assert_eq!(
        store.the_organization_owner_adds_a_new_jar_to_the_organization(
            s("Acme"),
            s("tank-one"),
            s("U1"),
            60,
            1000,
            5000,
            s("A"),
            11,
            999,
        ),
        Ok(())
    );
    let entry = rollup_entry(&store, "U1").expect("rollup entry for U1");
    assert_eq!(entry.time_interval, 60);
    assert_eq!(entry.cycles_minimum, 1000);
    assert_eq!(entry.cycles_highest, 5000);
    assert_eq!(entry.updtime, 11);
    assert_eq!(entry.cycles_balance, 999);
    let listed = store
        .organization_owner_query_the_organization_under_his_name_and_the_tanks_under_the_organization(
            &s("A"),
        );
    assert_eq!(listed.len(), 1);
    assert_eq!(listed[0].0, "Acme");
    assert_eq!(listed[0].1.len(), 1);
    assert_eq!(listed[0].1[0].0, "U1");
    assert_eq!(listed[0].1[0].1.nickname, "tank-one");
    assert_eq!(listed[0].1[0].1.instime, 11);
    assert_eq!(listed[0].1[0].1.updtime, 11);
    assert_eq!(listed[0].1[0].1.cycles_balance, 999);
}

#[test]
fn two_orgs_rollup_and_ranked() {
    let mut store = Store::new();
    assert_eq!(store.create_organize(s("Acme"), s("A")), Ok(()));
    assert_eq!(
        store.the_organization_owner_adds_a_new_jar_to_the_organization(
            s("Acme"),
            s("tank"),
            s("U1"),
            60,
            1000,
            5000,
            s("A"),
            11,
            999,
        ),
        Ok(())
    );
    assert_eq!(store.create_organize(s("Beta"), s("B")), Ok(()));
    assert_eq!(
        store.the_organization_owner_adds_a_new_jar_to_the_organization(
            s("Beta"),
            s("tank"),
            s("U1"),
            30,
            500,
            9000,
            s("B"),
            22,
            888,
        ),
        Ok(())
    );
    let entry = rollup_entry(&store, "U1").expect("rollup entry for U1");
    assert_eq!(entry.time_interval, 30);
    assert_eq!(entry.cycles_minimum, 500);
    assert_eq!(entry.cycles_highest, 9000);
    // the observation is as fresh as the latest write, whoever made it
    assert_eq!(entry.updtime, 22);
    assert_eq!(entry.cycles_balance, 888);
    let ranked = store.organize_according_to_cycles_sorting(&s("U1"));
    assert_eq!(ranked.len(), 2);
    assert_eq!(ranked[0].organize_name, "Acme");
    assert_eq!(ranked[0].min_cycles, 1000);
    assert_eq!(ranked[1].organize_name, "Beta");
    assert_eq!(ranked[1].min_cycles, 500);
}

#[test]
fn disband_leaves_stale_ranked_pair() {
    let mut store = Store::new();
    assert_eq!(store.create_organize(s("Acme"), s("A")), Ok(()));
    assert_eq!(
        store.the_organization_owner_adds_a_new_jar_to_the_organization(
            s("Acme"),
            s("tank"),
            s("U1"),
            60,
            1000,
            5000,
            s("A"),
            11,
            999,
        ),
        Ok(())
    );
    assert_eq!(store.create_organize(s("Beta"), s("B")), Ok(()));
    assert_eq!(
        store.the_organization_owner_adds_a_new_jar_to_the_organization(
            s("Beta"),
            s("tank"),
            s("U1"),
            30,
            500,
            9000,
            s("B"),
            22,
            888,
        ),
        Ok(())
    );
    assert_eq!(store.disband_the_organization(s("Acme"), s("A")), Ok(()));
    let listed = store
        .the_organization_owner_queries_the_organization_under_his_own_name_and_the_users_under_the_organization(
            &s("A"),
        );
    assert_eq!(listed.len(), 0);
    // the reverse index is deliberately not pruned on disband: the stale
    // ("Acme", 1000) pair is still ranked first
    let ranked = store.organize_according_to_cycles_sorting(&s("U1"));
    assert_eq!(ranked.len(), 2);
    assert_eq!(ranked[0].organize_name, "Acme");
    assert_eq!(ranked[0].min_cycles, 1000);
    assert_eq!(ranked[1].organize_name, "Beta");
    assert_eq!(ranked[1].min_cycles, 500);
}

#[test]
fn add_jar_duplicate_and_auth_errors() {
    let mut store = Store::new();
    assert_eq!(
        store.the_organization_owner_adds_a_new_jar_to_the_organization(
            s("Acme"),
            s("tank"),
            s("U1"),
            60,
            1000,
            5000,
            s("A"),
            1,
            999,
        ),
        Err(OrgError::NotFound)
    );
    assert_eq!(store.create_organize(s("Acme"), s("A")), Ok(()));
    assert_eq!(
        store.the_organization_owner_adds_a_new_jar_to_the_organization(
            s("Acme"),
            s("tank"),
            s("U1"),
            60,
            1000,
            5000,
            s("B"),
            1,
            999,
        ),
        Err(OrgError::Unauthorized)
    );
    assert_eq!(
        store.the_organization_owner_adds_a_new_jar_to_the_organization(
            s("Acme"),
            s("tank"),
            s("U1"),
            60,
            1000,
            5000,
            s("A"),
            1,
            999,
        ),
        Ok(())
    );
    assert_eq!(
        store.the_organization_owner_adds_a_new_jar_to_the_organization(
            s("Acme"),
            s("tank-again"),
            s("U1"),
            61,
            1001,
            5001,
            s("A"),
            2,
            998,
        ),
        Err(OrgError::AlreadyExists)
    );
}

#[test]
fn modify_jar_updates_fields_and_rollup() {
    let mut store = Store::new();
    assert_eq!(store.create_organize(s("Acme"), s("A")), Ok(()));
    assert_eq!(
        store.the_organization_owner_adds_a_new_jar_to_the_organization(
            s("Acme"),
            s("tank"),
            s("U1"),
            60,
            1000,
            5000,
            s("A"),
            11,
            999,
        ),
        Ok(())
    );
    assert_eq!(
        store.organization_owner_modify_jar(s("Acme"), s("U1"), 45, 1500, 4000, s("A"), 33, 777),
        Ok(())
    );
    let listed = store
        .organization_owner_query_the_organization_under_his_name_and_the_tanks_under_the_organization(
            &s("A"),
        );
    let info = &listed[0].1[0].1;
    assert_eq!(info.nickname, "tank");
    assert_eq!(info.instime, 11);
    assert_eq!(info.updtime, 33);
    assert_eq!(info.cycles_balance, 777);
    assert_eq!(info.time_interval, 45);
    assert_eq!(info.cycles_minimum, 1500);
    assert_eq!(info.cycles_highest, 4000);
    // the rollup merges: a raised floor does not raise the recorded minimum,
    // a lowered ceiling does not lower the recorded maximum, but the
    // observation is refreshed
    let entry = rollup_entry(&store, "U1").expect("rollup entry for U1");
    assert_eq!(entry.time_interval, 45);
    assert_eq!(entry.cycles_minimum, 1000);
    assert_eq!(entry.cycles_highest, 5000);
    assert_eq!(entry.updtime, 33);
    assert_eq!(entry.cycles_balance, 777);
    // the organization's own reverse-index floor did move
    let ranked = store.organize_according_to_cycles_sorting(&s("U1"));
    assert_eq!(ranked.len(), 1);
    assert_eq!(ranked[0].organize_name, "Acme");
    assert_eq!(ranked[0].min_cycles, 1500);
}

#[test]
fn modify_jar_errors() {
    let mut store = Store::new();
    assert_eq!(
        store.organization_owner_modify_jar(s("Acme"), s("U1"), 1, 2, 3, s("A"), 4, 5),
        Err(OrgError::NotFound)
    );
    assert_eq!(store.create_organize(s("Acme"), s("A")), Ok(()));
    assert_eq!(
        store.organization_owner_modify_jar(s("Acme"), s("U1"), 1, 2, 3, s("B"), 4, 5),
        Err(OrgError::Unauthorized)
    );
    assert_eq!(
        store.organization_owner_modify_jar(s("Acme"), s("U1"), 1, 2, 3, s("A"), 4, 5),
        Err(OrgError::NotFound)
    );
}

#[test]
fn delete_last_tracker_empties_ranked_but_keeps_rollup() {
    let mut store = Store::new();
    assert_eq!(store.create_organize(s("Acme"), s("A")), Ok(()));
    assert_eq!(
        store.the_organization_owner_adds_a_new_jar_to_the_organization(
            s("Acme"),
            s("tank"),
            s("U1"),
            60,
            1000,
            5000,
            s("A"),
            11,
            999,
        ),
        Ok(())
    );
    assert_eq!(store.organization_owner_delete_jar(s("Acme"), s("U1"), s("A")), Ok(()));
    let ranked = store.organize_according_to_cycles_sorting(&s("U1"));
    assert_eq!(ranked.len(), 0);
    // the rollup entry stays, untouched, as documented stale data
    let entry = rollup_entry(&store, "U1").expect("rollup entry for U1");
    assert_eq!(entry.time_interval, 60);
    assert_eq!(entry.cycles_minimum, 1000);
    assert_eq!(entry.cycles_highest, 5000);
    assert_eq!(entry.updtime, 11);
    assert_eq!(entry.cycles_balance, 999);
}

#[test]
fn delete_jar_errors() {
    let mut store = Store::new();
    assert_eq!(
        store.organization_owner_delete_jar(s("Acme"), s("U1"), s("A")),
        Err(OrgError::NotFound)
    );
    assert_eq!(store.create_organize(s("Acme"), s("A")), Ok(()));
    assert_eq!(
        store.organization_owner_delete_jar(s("Acme"), s("U1"), s("B")),
        Err(OrgError::Unauthorized)
    );
    assert_eq!(
        store.organization_owner_delete_jar(s("Acme"), s("U1"), s("A")),
        Err(OrgError::NotFound)
    );
}

#[test]
fn ranked_is_stable_on_ties_and_sorted() {
    let mut store = Store::new();
    for (org, owner, floor) in [
        ("One", "A", 700u64),
        ("Two", "B", 900),
        ("Three", "C", 700),
        ("Four", "D", 800),
        ("Five", "E", 700),
    ] {
        assert_eq!(store.create_organize(s(org), s(owner)), Ok(()));
        assert_eq!(
            store.the_organization_owner_adds_a_new_jar_to_the_organization(
                s(org),
                s("tank"),
                s("U1"),
                60,
                floor,
                9000,
                s(owner),
                1,
                999,
            ),
            Ok(())
        );
    }
    let ranked = store.organize_according_to_cycles_sorting(&s("U1"));
    let got: Vec<(String, u64)> =
        ranked.iter().map(|p| (p.organize_name.clone(), p.min_cycles)).collect();
    // descending by floor; the three 700-pairs keep their insertion order
    assert_eq!(
        got,
        vec![
            (s("Two"), 900),
            (s("Four"), 800),
            (s("One"), 700),
            (s("Three"), 700),
            (s("Five"), 700),
        ]
    );
}

#[test]
fn rollup_snapshot_lists_every_canister() {
    let mut store = Store::new();
    assert_eq!(store.create_organize(s("Acme"), s("A")), Ok(()));
    assert_eq!(
        store.the_organization_owner_adds_a_new_jar_to_the_organization(
            s("Acme"),
            s("t1"),
            s("U1"),
            60,
            1000,
            5000,
            s("A"),
            1,
            10,
        ),
        Ok(())
    );
    assert_eq!(
        store.the_organization_owner_adds_a_new_jar_to_the_organization(
            s("Acme"),
            s("t2"),
            s("U2"),
            30,
            200,
            900,
            s("A"),
            2,
            20,
        ),
        Ok(())
    );
    let snapshot = store.query_the_structure_of_the_public_rotation_training_tank();
    assert_eq!(snapshot.len(), 2);
    assert!(rollup_entry(&store, "U1").is_some());
    assert!(rollup_entry(&store, "U2").is_some());
}

#[test]
fn recreated_org_gains_a_second_pair_and_modify_hits_the_first() {
    let mut store = Store::new();
    assert_eq!(store.create_organize(s("Acme"), s("A")), Ok(()));
    assert_eq!(
        store.the_organization_owner_adds_a_new_jar_to_the_organization(
            s("Acme"),
            s("tank"),
            s("U1"),
            60,
            1000,
            5000,
            s("A"),
            1,
            999,
        ),
        Ok(())
    );
    assert_eq!(store.disband_the_organization(s("Acme"), s("A")), Ok(()));
    // the stale ("Acme", 1000) pair lingers; a recreated "Acme" tracking the
    // same canister appends a second pair rather than reusing the stale one
    assert_eq!(store.create_organize(s("Acme"), s("B")), Ok(()));
    assert_eq!(
        store.the_organization_owner_adds_a_new_jar_to_the_organization(
            s("Acme"),
            s("tank"),
            s("U1"),
            30,
            700,
            5000,
            s("B"),
            2,
            999,
        ),
        Ok(())
    );
    let ranked = store.organize_according_to_cycles_sorting(&s("U1"));
    assert_eq!(ranked.len(), 2);
    assert_eq!(ranked[0].min_cycles, 1000);
    assert_eq!(ranked[1].min_cycles, 700);
    // a modify rewrites the first "Acme" pair in insertion order: the stale
    // one, leaving the live pair behind — the documented cost of not pruning
    assert_eq!(
        store.organization_owner_modify_jar(s("Acme"), s("U1"), 30, 800, 5000, s("B"), 3, 999),
        Ok(())
    );
    let ranked = store.organize_according_to_cycles_sorting(&s("U1"));
    assert_eq!(ranked.len(), 2);
    assert_eq!(ranked[0].min_cycles, 800);
    assert_eq!(ranked[1].min_cycles, 700);
}

#[test]
fn reverse_index_presence_follows_first_add() {
    let mut store = Store::new();
    assert!(!store.canister_has_reverse_index(&s("U1")));
    assert_eq!(store.create_organize(s("Acme"), s("A")), Ok(()));
    assert_eq!(
        store.the_organization_owner_adds_a_new_jar_to_the_organization(
            s("Acme"),
            s("tank"),
            s("U1"),
            60,
            1000,
            5000,
            s("A"),
            1,
            999,
        ),
        Ok(())
    );
    assert!(store.canister_has_reverse_index(&s("U1")));
    // deleting the canister keeps the (now empty) list
    assert_eq!(store.organization_owner_delete_jar(s("Acme"), s("U1"), s("A")), Ok(()));
    assert!(store.canister_has_reverse_index(&s("U1")));
}
