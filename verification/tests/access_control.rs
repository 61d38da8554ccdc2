use dao_core::access_control::AccessControlContract;
use dao_core::access_control::AclEvent;
use dao_core::access_control::Error;
use dao_core::access_control::Role;
use dao_core::address::Address;

fn setup() -> (Address, AccessControlContract) {
    let owner = Address::new(1);
    let contract = AccessControlContract::new();
    (owner, contract)
}

#[test]
fn test_initialize() {
    let (owner, mut client) = setup();

    client.initialize(owner, 0).unwrap();

    let summary = client.get_summary().unwrap();
    assert_eq!(summary.owner, owner);
    assert_eq!(summary.total_members, 1);
    assert_eq!(summary.owner_count, 1);
}

#[test]
fn test_assign_roles() {
    let (owner, mut client) = setup();

    client.initialize(owner, 0).unwrap();

    let admin = Address::new(2);
    let member = Address::new(3);
    let viewer = Address::new(4);

    // Owner assigns Admin
    client.assign_role(owner, admin, Role::Admin, 1).unwrap();
    // Owner assigns Member
    client.assign_role(owner, member, Role::Member, 2).unwrap();
    // Admin assigns Viewer
    client.assign_role(admin, viewer, Role::Viewer, 3).unwrap();

    let summary = client.get_summary().unwrap();
    assert_eq!(summary.total_members, 4);
    assert_eq!(summary.admin_count, 1);
    assert_eq!(summary.member_count, 1);
    assert_eq!(summary.viewer_count, 1);
}

#[test]
fn test_permission_checks() {
    let (owner, mut client) = setup();

    client.initialize(owner, 0).unwrap();

    let member = Address::new(2);
    client.assign_role(owner, member, Role::Member, 1).unwrap();

    assert_eq!(client.is_owner(owner), true);
    assert_eq!(client.is_owner(member), false);
    assert_eq!(client.is_member_or_above(member), true);
    assert_eq!(client.is_admin_or_above(member), false);
    assert_eq!(client.has_permission(member, Role::Viewer), true);
    assert_eq!(client.has_permission(member, Role::Admin), false);
}

#[test]
fn test_revoke_role() {
    let (owner, mut client) = setup();

    client.initialize(owner, 0).unwrap();

    let member = Address::new(2);
    client.assign_role(owner, member, Role::Member, 1).unwrap();

    assert_eq!(client.is_member_or_above(member), true);

    client.revoke_role(owner, member).unwrap();

    assert_eq!(client.is_member_or_above(member), false);
}

#[test]
fn test_privilege_escalation_blocked() {
    let (owner, mut client) = setup();

    client.initialize(owner, 0).unwrap();
    let admin = Address::new(2);
    let member = Address::new(3);
    let viewer = Address::new(4);
    client.assign_role(owner, admin, Role::Admin, 1).unwrap();
    client.assign_role(admin, member, Role::Member, 2).unwrap();
    client.assign_role(admin, viewer, Role::Viewer, 3).unwrap();
    let before = client.get_summary().unwrap();

    // An admin may not grant the Admin role.
    let r = client.assign_role(admin, member, Role::Admin, 4);
    assert_eq!(r, Err(Error::InsufficientPrivilege));

    // Nothing moved.
    let after = client.get_summary().unwrap();
    assert_eq!(before, after);
    assert_eq!(client.get_role(member).unwrap().role, Role::Member);
}

#[test]
fn test_assign_then_revoke_restores() {
    let (owner, mut client) = setup();

    client.initialize(owner, 0).unwrap();
    let member = Address::new(2);
    client.assign_role(owner, member, Role::Member, 1).unwrap();

    let summary_before = client.get_summary().unwrap();
    let members_before = client.get_all_members();

    let fresh = Address::new(9);
    client.assign_role(owner, fresh, Role::Admin, 2).unwrap();
    client.revoke_role(owner, fresh).unwrap();

    assert_eq!(client.get_summary().unwrap(), summary_before);
    assert_eq!(client.get_all_members(), members_before);
    assert_eq!(client.get_role(fresh), Err(Error::RoleNotFound));
    assert_eq!(client.has_permission(fresh, Role::Viewer), false);
}

#[test]
fn test_assign_owner_role_rejected() {
    let (owner, mut client) = setup();

    client.initialize(owner, 0).unwrap();
    let other = Address::new(2);

    // A second Owner assignment would break the single-owner invariant.
    assert_eq!(client.assign_role(owner, other, Role::Owner, 1), Err(Error::InvalidRole));
    let summary = client.get_summary().unwrap();
    assert_eq!(summary.owner_count, 1);
    assert_eq!(summary.total_members, 1);
}

#[test]
fn test_reassign_owner_rejected() {
    let (owner, mut client) = setup();

    client.initialize(owner, 0).unwrap();

    // Demoting the reigning owner through assign_role is refused.
    assert_eq!(client.assign_role(owner, owner, Role::Admin, 1), Err(Error::CannotRemoveOwner));
    assert_eq!(client.is_owner(owner), true);
}

#[test]
fn test_transfer_ownership() {
    let (owner, mut client) = setup();

    client.initialize(owner, 0).unwrap();
    let heir = Address::new(2);

    client.transfer_ownership(owner, heir, 5).unwrap();

    let summary = client.get_summary().unwrap();
    assert_eq!(summary.owner, heir);
    assert_eq!(summary.owner_count, 1);
    assert_eq!(summary.admin_count, 1);
    assert_eq!(summary.total_members, 2);
    assert_eq!(client.is_owner(heir), true);
    assert_eq!(client.get_role(owner).unwrap().role, Role::Admin);

    // Only the reigning owner can transfer again.
    assert_eq!(client.transfer_ownership(owner, Address::new(3), 6), Err(Error::Unauthorized));
}

#[test]
fn test_double_initialize_fails() {
    let (owner, mut client) = setup();

    client.initialize(owner, 0).unwrap();
    assert_eq!(client.initialize(Address::new(7), 1), Err(Error::AlreadyInitialized));
}

#[test]
fn test_not_initialized_errors() {
    let (owner, mut client) = setup();

    assert_eq!(
        client.assign_role(owner, Address::new(2), Role::Member, 0),
        Err(Error::NotInitialized)
    );
    assert_eq!(client.revoke_role(owner, Address::new(2)), Err(Error::NotInitialized));
    assert_eq!(
        client.transfer_ownership(owner, Address::new(2), 0),
        Err(Error::NotInitialized)
    );
    assert_eq!(client.get_summary(), Err(Error::NotInitialized));
    assert_eq!(client.upgrade(owner), Err(Error::NotInitialized));
}

#[test]
fn test_assignor_without_role_fails() {
    let (owner, mut client) = setup();

    client.initialize(owner, 0).unwrap();
    let stranger = Address::new(8);
    assert_eq!(
        client.assign_role(stranger, Address::new(9), Role::Viewer, 1),
        Err(Error::RoleNotFound)
    );
}

#[test]
fn test_revoke_admin_requires_owner() {
    let (owner, mut client) = setup();

    client.initialize(owner, 0).unwrap();
    let a1 = Address::new(2);
    let a2 = Address::new(3);
    client.assign_role(owner, a1, Role::Admin, 1).unwrap();
    client.assign_role(owner, a2, Role::Admin, 2).unwrap();

    // An admin cannot revoke another admin; the owner can.
    assert_eq!(client.revoke_role(a1, a2), Err(Error::InsufficientPrivilege));
    client.revoke_role(owner, a2).unwrap();
    assert_eq!(client.get_role(a2), Err(Error::RoleNotFound));
}

#[test]
fn test_cannot_revoke_owner() {
    let (owner, mut client) = setup();

    client.initialize(owner, 0).unwrap();
    let admin = Address::new(2);
    client.assign_role(owner, admin, Role::Admin, 1).unwrap();

    assert_eq!(client.revoke_role(admin, owner), Err(Error::CannotRemoveOwner));
    assert_eq!(client.revoke_role(owner, owner), Err(Error::CannotRemoveOwner));
}

#[test]
fn test_reassignment_keeps_member_list() {
    let (owner, mut client) = setup();

    client.initialize(owner, 0).unwrap();
    let member = Address::new(2);
    client.assign_role(owner, member, Role::Member, 1).unwrap();
    let members_before = client.get_all_members();

    // Replacing a role moves the counts but not the membership.
    client.assign_role(owner, member, Role::Viewer, 2).unwrap();

    let summary = client.get_summary().unwrap();
    assert_eq!(summary.member_count, 0);
    assert_eq!(summary.viewer_count, 1);
    assert_eq!(summary.total_members, 2);
    assert_eq!(client.get_all_members(), members_before);
}

#[test]
fn test_acl_events() {
    let (owner, mut client) = setup();

    client.initialize(owner, 0).unwrap();
    let member = Address::new(2);
    client.assign_role(owner, member, Role::Member, 1).unwrap();
    client.revoke_role(owner, member).unwrap();

    assert_eq!(client.events.len(), 3);
    assert_eq!(client.events[0], AclEvent::Init { owner });
    assert_eq!(
        client.events[1],
        AclEvent::Assign { target: member, role: Role::Member, assignor: owner }
    );
    assert_eq!(client.events[2], AclEvent::Revoke { target: member, revoker: owner });

    // A failed call emits nothing.
    let _ = client.revoke_role(member, owner);
    assert_eq!(client.events.len(), 3);
}

#[test]
fn test_upgrade_authorization() {
    let (owner, mut client) = setup();

    client.initialize(owner, 0).unwrap();
    assert_eq!(client.upgrade(owner), Ok(()));
    assert_eq!(client.upgrade(Address::new(2)), Err(Error::Unauthorized));
}
