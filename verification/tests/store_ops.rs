use icp_bd_backend::store::Store;
use icp_bd_backend::types::OrgError;

fn s(x: &str) -> String {
    x.to_string()
}

#[test]
fn create_then_duplicate_fails() {
    let mut store = Store::new();
    assert_eq!(store.create_organize(s("Acme"), s("A")), Ok(()));
    assert_eq!(store.create_organize(s("Acme"), s("A")), Err(OrgError::AlreadyExists));
    // a different caller is blocked just the same
    assert_eq!(store.create_organize(s("Acme"), s("B")), Err(OrgError::AlreadyExists));
    // other names are unaffected
    assert_eq!(store.create_organize(s("Beta"), s("B")), Ok(()));
    assert_eq!(store.create_organize(s("Acme"), s("A")), Err(OrgError::AlreadyExists));
}

#[test]
fn create_after_disband_succeeds() {
    let mut store = Store::new();
    assert_eq!(store.create_organize(s("Acme"), s("A")), Ok(()));
    // transfers keep the name taken
    assert_eq!(store.transfer_organization_ownership(s("Acme"), s("B"), s("A")), Ok(()));
    assert_eq!(store.create_organize(s("Acme"), s("A")), Err(OrgError::AlreadyExists));
    // only a disband frees it
    assert_eq!(store.disband_the_organization(s("Acme"), s("B")), Ok(()));
    assert_eq!(store.create_organize(s("Acme"), s("C")), Ok(()));
}

#[test]
fn transfer_ownership_flow() {
    let mut store = Store::new();
    assert_eq!(store.create_organize(s("Acme"), s("A")), Ok(()));
    assert_eq!(
        store.transfer_organization_ownership(s("Acme"), s("C"), s("B")),
        Err(OrgError::Unauthorized)
    );
    assert_eq!(store.transfer_organization_ownership(s("Acme"), s("B"), s("A")), Ok(()));
    // the old owner lost its rights
    assert_eq!(
        store.transfer_organization_ownership(s("Acme"), s("A"), s("A")),
        Err(OrgError::Unauthorized)
    );
    // the new owner may disband
    assert_eq!(store.disband_the_organization(s("Acme"), s("B")), Ok(()));
}

#[test]
fn transfer_missing_org_not_found() {
    let mut store = Store::new();
    assert_eq!(
        store.transfer_organization_ownership(s("Ghost"), s("B"), s("A")),
        Err(OrgError::NotFound)
    );
}

#[test]
fn disband_unauthorized_and_missing() {
    let mut store = Store::new();
    assert_eq!(store.disband_the_organization(s("Acme"), s("A")), Err(OrgError::NotFound));
    assert_eq!(store.create_organize(s("Acme"), s("A")), Ok(()));
    assert_eq!(store.disband_the_organization(s("Acme"), s("B")), Err(OrgError::Unauthorized));
    assert_eq!(store.disband_the_organization(s("Acme"), s("A")), Ok(()));
    assert_eq!(store.disband_the_organization(s("Acme"), s("A")), Err(OrgError::NotFound));
}

#[test]
fn add_member_and_duplicate() {
    let mut store = Store::new();
    assert_eq!(store.create_organize(s("Acme"), s("A")), Ok(()));
    assert_eq!(
        store.organization_owner_add_members_to_organization(s("m1"), s("alice"), s("Acme"), s("A"), 100),
        Ok(())
    );
    assert_eq!(
        store.organization_owner_add_members_to_organization(s("m1"), s("alice2"), s("Acme"), s("A"), 200),
        Err(OrgError::AlreadyMember)
    );
    // a second member is fine
    assert_eq!(
        store.organization_owner_add_members_to_organization(s("m2"), s("bob"), s("Acme"), s("A"), 300),
        Ok(())
    );
}

#[test]
fn add_member_unauthorized_and_missing_org() {
    let mut store = Store::new();
    assert_eq!(
        store.organization_owner_add_members_to_organization(s("m1"), s("alice"), s("Acme"), s("A"), 1),
        Err(OrgError::NotFound)
    );
    assert_eq!(store.create_organize(s("Acme"), s("A")), Ok(()));
    assert_eq!(
        store.organization_owner_add_members_to_organization(s("m1"), s("alice"), s("Acme"), s("B"), 1),
        Err(OrgError::Unauthorized)
    );
}

#[test]
fn remove_member_flow() {
    let mut store = Store::new();
    assert_eq!(store.create_organize(s("Acme"), s("A")), Ok(()));
    // no bucket yet
    assert_eq!(
        store.organization_owner_minus_organization_members(s("m1"), s("Acme"), s("A")),
        Err(OrgError::NotFound)
    );
    assert_eq!(
        store.organization_owner_add_members_to_organization(s("m1"), s("alice"), s("Acme"), s("A"), 100),
        Ok(())
    );
    assert_eq!(
        store.organization_owner_minus_organization_members(s("m1"), s("Acme"), s("B")),
        Err(OrgError::Unauthorized)
    );
    assert_eq!(
        store.organization_owner_minus_organization_members(s("m1"), s("Acme"), s("A")),
        Ok(())
    );
    assert_eq!(
        store.organization_owner_minus_organization_members(s("m1"), s("Acme"), s("A")),
        Err(OrgError::NotFound)
    );
    assert_eq!(
        store.organization_owner_minus_organization_members(s("m1"), s("Ghost"), s("A")),
        Err(OrgError::NotFound)
    );
}

#[test]
fn list_owned_members_contents() {
    let mut store = Store::new();
    assert_eq!(store.create_organize(s("Acme"), s("A")), Ok(()));
    assert_eq!(store.create_organize(s("Beta"), s("B")), Ok(()));
    assert_eq!(store.create_organize(s("Ares"), s("A")), Ok(()));
    assert_eq!(
        store.organization_owner_add_members_to_organization(s("m1"), s("alice"), s("Acme"), s("A"), 100),
        Ok(())
    );
    assert_eq!(
        store.organization_owner_add_members_to_organization(s("m2"), s("bob"), s("Acme"), s("A"), 200),
        Ok(())
    );
    let listed = store
        .the_organization_owner_queries_the_organization_under_his_own_name_and_the_users_under_the_organization(
            &s("A"),
        );
    assert_eq!(listed.len(), 2);
    assert_eq!(listed[0].0, "Acme");
    assert_eq!(listed[0].1.len(), 2);
    assert_eq!(listed[0].1[0].0, "m1");
    assert_eq!(listed[0].1[0].1.nickname, "alice");
    assert_eq!(listed[0].1[0].1.instime, 100);
    assert_eq!(listed[0].1[1].0, "m2");
    assert_eq!(listed[0].1[1].1.nickname, "bob");
    assert_eq!(listed[0].1[1].1.instime, 200);
    // an organization without a member bucket is listed with an empty set
    assert_eq!(listed[1].0, "Ares");
    assert_eq!(listed[1].1.len(), 0);
    // an owner with no organizations gets an empty listing
    let none = store
        .the_organization_owner_queries_the_organization_under_his_own_name_and_the_users_under_the_organization(
            &s("Z"),
        );
    assert_eq!(none.len(), 0);
}

#[test]
fn member_disappears_with_disband() {
    let mut store = Store::new();
    assert_eq!(store.create_organize(s("Acme"), s("A")), Ok(()));
    assert_eq!(
        store.organization_owner_add_members_to_organization(s("m1"), s("alice"), s("Acme"), s("A"), 1),
        Ok(())
    );
    assert_eq!(store.disband_the_organization(s("Acme"), s("A")), Ok(()));
    // recreating the organization starts with no members
    assert_eq!(store.create_organize(s("Acme"), s("A")), Ok(()));
    let listed = store
        .the_organization_owner_queries_the_organization_under_his_own_name_and_the_users_under_the_organization(
            &s("A"),
        );
    assert_eq!(listed.len(), 1);
    assert_eq!(listed[0].1.len(), 0);
}

#[test]
fn authorize_is_the_ownership_test() {
    let mut store = Store::new();
    assert!(!store.authorize(&s("Acme"), &s("A")));
    assert_eq!(store.create_organize(s("Acme"), s("A")), Ok(()));
    assert!(store.authorize(&s("Acme"), &s("A")));
    assert!(!store.authorize(&s("Acme"), &s("B")));
    assert_eq!(store.transfer_organization_ownership(s("Acme"), s("B"), s("A")), Ok(()));
    assert!(!store.authorize(&s("Acme"), &s("A")));
    assert!(store.authorize(&s("Acme"), &s("B")));
    assert_eq!(store.disband_the_organization(s("Acme"), s("B")), Ok(()));
    assert!(!store.authorize(&s("Acme"), &s("B")));
}

#[test]
fn delete_synchronously_purges_both_buckets() {
    let mut store = Store::new();
    assert_eq!(store.create_organize(s("Acme"), s("A")), Ok(()));
    assert_eq!(
        store.organization_owner_add_members_to_organization(s("m1"), s("alice"), s("Acme"), s("A"), 1),
        Ok(())
    );
    assert_eq!(
        store.the_organization_owner_adds_a_new_jar_to_the_organization(
            s("Acme"),
            s("tank"),
            s("U1"),
            60,
            1000,
            5000,
            s("A"),
            2,
            999,
        ),
        Ok(())
    );
    store.delete_synchronously(&s("Acme"));
    // the ownership binding survives: only the buckets were purged
    assert!(store.authorize(&s("Acme"), &s("A")));
    let members = store
        .the_organization_owner_queries_the_organization_under_his_own_name_and_the_users_under_the_organization(
            &s("A"),
        );
    assert_eq!(members.len(), 1);
    assert_eq!(members[0].1.len(), 0);
    let tanks = store
        .organization_owner_query_the_organization_under_his_name_and_the_tanks_under_the_organization(
            &s("A"),
        );
    assert_eq!(tanks.len(), 1);
    assert_eq!(tanks[0].1.len(), 0);
}
