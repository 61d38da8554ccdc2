//! The access-control state machine: a totally ordered role hierarchy with
//! per-transition authority rules, a single reigning owner, and an ordered,
//! duplicate-free member list.

use vstd::prelude::*;
use vstd::pervasive::VecAdditionalExecFns;

use crate::address::Address;
use crate::seqs::count_where;
use crate::seqs::discard;
use crate::seqs::find_last;
use crate::seqs::lemma_count_where_at;
use crate::seqs::lemma_count_where_le_len;
use crate::seqs::lemma_count_where_push;
use crate::seqs::lemma_count_where_two;
use crate::seqs::lemma_count_where_update;
use crate::seqs::lemma_count_where_zero;
use crate::seqs::lemma_discard_len;
use crate::seqs::lemma_discard_none;
use crate::seqs::lemma_discard_other;
use crate::seqs::lemma_discard_push_dropped;
use crate::seqs::lemma_discard_single;
use crate::seqs::lemma_find_last_props;
use crate::seqs::lemma_find_last_unique;

verus! {

/// Everything that can go wrong in the access-control state machine.
#[derive(Clone, Copy, Debug, PartialEq, Eq, Structural)]
pub enum Error {
    /// The contract has not been initialized.
    NotInitialized,
    /// The contract is already initialized.
    AlreadyInitialized,
    /// The caller does not have permission.
    Unauthorized,
    /// No role is recorded for the given address.
    RoleNotFound,
    /// The address already has a role assigned.
    RoleAlreadyAssigned,
    /// The requested role may not be granted this way.
    InvalidRole,
    /// The contract owner cannot be removed or reassigned.
    CannotRemoveOwner,
    /// The action requires a higher privilege level.
    InsufficientPrivilege,
}

/// Role levels of the hierarchy; a higher level grants every permission of the
/// levels below it.
#[derive(Clone, Copy, Debug, PartialEq, Eq, Structural)]
pub enum Role {
    /// May only read data.
    Viewer,
    /// May participate (vote, deposit) but not manage.
    Member,
    /// May manage members and moderate.
    Admin,
    /// Full control.
    Owner,
}

impl Role {
    /// The numeric privilege level the hierarchy is ordered by.
    pub open spec fn spec_level(self) -> u32 {
        match self {
            Role::Viewer => 1,
            Role::Member => 2,
            Role::Admin => 3,
            Role::Owner => 4,
        }
    }

    pub fn level(self) -> (n: u32)
        ensures
            n == self.spec_level(),
    {
        match self {
            Role::Viewer => 1,
            Role::Member => 2,
            Role::Admin => 3,
            Role::Owner => 4,
        }
    }
}

/// One address's current role, with provenance.
#[derive(Clone, Copy, Debug, PartialEq, Eq, Structural)]
pub struct RoleAssignment {
    /// The address holding the role.
    pub address: Address,
    /// The assigned role.
    pub role: Role,
    /// Ledger timestamp of the assignment.
    pub assigned_at: u64,
    /// Who assigned the role.
    pub assigned_by: Address,
}

/// Aggregate view of the access-control state.
#[derive(Clone, Copy, Debug, PartialEq, Eq, Structural)]
pub struct AccessSummary {
    pub owner: Address,
    pub total_members: usize,
    pub owner_count: usize,
    pub admin_count: usize,
    pub member_count: usize,
    pub viewer_count: usize,
}

/// The events the machine emits, in emission order.
#[derive(Clone, Copy, Debug, PartialEq, Eq, Structural)]
pub enum AclEvent {
    Init { owner: Address },
    Assign { target: Address, role: Role, assignor: Address },
    Revoke { target: Address, revoker: Address },
    OwnerTransfer { prev_owner: Address, new_owner: Address },
}

/// Holds of an assignment recorded for the given address.
pub open spec fn asg_addr_is(a: Address) -> spec_fn(RoleAssignment) -> bool {
    |x: RoleAssignment| x.address == a
}

/// Holds of an assignment carrying the given role.
pub open spec fn asg_role_is(r: Role) -> spec_fn(RoleAssignment) -> bool {
    |x: RoleAssignment| x.role == r
}

/// The membership list induced by the assignments, in insertion order.
pub open spec fn addresses_of(s: Seq<RoleAssignment>) -> Seq<Address> {
    s.map_values(|x: RoleAssignment| x.address)
}

/// No address carries more than one assignment.
pub open spec fn unique_addresses(s: Seq<RoleAssignment>) -> bool {
    forall|a: Address| count_where(s, asg_addr_is(a)) <= 1
}

/// The access-control state machine: one owner, a list of role assignments
/// (one per address, insertion order preserved), and the emitted events.
pub struct AccessControlContract {
    pub initialized: bool,
    pub owner: Address,
    pub roles: Vec<RoleAssignment>,
    pub events: Vec<AclEvent>,
}

impl AccessControlContract {
    /// The assignment currently recorded for `a`.
    pub open spec fn assignment_of(self, a: Address) -> Option<RoleAssignment> {
        find_last(self.roles@, asg_addr_is(a))
    }

    /// The role currently held by `a`.
    pub open spec fn role_of(self, a: Address) -> Option<Role> {
        match self.assignment_of(a) {
            Some(x) => Some(x.role),
            None => None,
        }
    }

    /// `a` holds a role at least as privileged as `required`.
    pub open spec fn spec_has_permission(self, a: Address, required: Role) -> bool {
        match self.role_of(a) {
            Some(r) => r.spec_level() >= required.spec_level(),
            None => false,
        }
    }

    /// Well-formedness: each address appears at most once; once initialized,
    /// exactly one assignment carries the Owner role and it belongs to the
    /// address in the owner slot.
    pub open spec fn wf(self) -> bool {
        &&& unique_addresses(self.roles@)
        &&& if self.initialized {
            &&& count_where(self.roles@, asg_role_is(Role::Owner)) == 1
            &&& self.role_of(self.owner) == Some(Role::Owner)
        } else {
            &&& self.roles@.len() == 0
            &&& self.events@.len() == 0
        }
    }

    /// A fresh, uninitialized machine.
    pub fn new() -> (c: Self)
        ensures
            c.wf(),
            !c.initialized,
            c.roles@.len() == 0,
            c.events@.len() == 0,
    {
        let c = AccessControlContract {
            initialized: false,
            owner: Address { id: 0 },
            roles: Vec::new(),
            events: Vec::new(),
        };
        proof {
            assert forall|a: Address| count_where(c.roles@, asg_addr_is(a)) <= 1 by {
                lemma_count_where_le_len(c.roles@, asg_addr_is(a));
            }
        }
        c
    }

    pub open spec fn initialize_result(pre: Self) -> Result<(), Error> {
        if pre.initialized {
            Err(Error::AlreadyInitialized)
        } else {
            Ok(())
        }
    }

    /// On success the machine is initialized with `owner` as the sole member,
    /// holding the Owner role, and the init event is logged.
    pub open spec fn initialize_ok(pre: Self, post: Self, owner: Address, now: u64) -> bool {
        &&& post.initialized
        &&& post.owner == owner
        &&& post.roles@ == seq![
            RoleAssignment { address: owner, role: Role::Owner, assigned_at: now, assigned_by: owner },
        ]
        &&& post.events@ == pre.events@.push(AclEvent::Init { owner })
    }

    /// Initialize the machine, making `owner` the contract owner. The host has
    /// already authenticated `owner`; `now` is the ledger timestamp.
    pub fn initialize(&mut self, owner: Address, now: u64) -> (r: Result<(), Error>)
        requires
            old(self).wf(),
        ensures
            final(self).wf(),
            r == Self::initialize_result(*old(self)),
            r is Ok ==> Self::initialize_ok(*old(self), *final(self), owner, now),
            r is Err ==> *final(self) == *old(self),
    {
        if self.initialized {
            return Err(Error::AlreadyInitialized);
        }
        let asg = RoleAssignment {
            address: owner,
            role: Role::Owner,
            assigned_at: now,
            assigned_by: owner,
        };
        self.initialized = true;
        self.owner = owner;
        self.roles.push(asg);
        self.events.push(AclEvent::Init { owner });
        proof {
            assert(self.roles@ =~= seq![asg]);
            assert forall|a: Address| count_where(self.roles@, asg_addr_is(a)) <= 1 by {
                lemma_count_where_le_len(self.roles@, asg_addr_is(a));
            }
            lemma_count_where_push(old(self).roles@, asg, asg_role_is(Role::Owner));
        }
        Ok(())
    }

    /// Index of the assignment recorded for `a`, if any.
    fn role_index(&self, a: Address) -> (r: Option<usize>)
        requires
            self.wf(),
        ensures
            match r {
                Some(i) => i < self.roles@.len() && self.roles@[i as int].address == a
                    && self.assignment_of(a) == Some(self.roles@[i as int]),
                None => self.assignment_of(a) is None,
            },
    {
        let n = self.roles.len();
        let mut i: usize = 0;
        while i < n
            invariant
                n == self.roles@.len(),
                i <= n,
                self.wf(),
                forall|j: int| 0 <= j < i ==> self.roles@[j].address != a,
            decreases n - i,
        {
            if self.roles[i].address == a {
                proof {
                    lemma_find_last_unique(self.roles@, asg_addr_is(a), i as int);
                }
                return Some(i);
            }
            i = i + 1;
        }
        proof {
            lemma_count_where_zero(self.roles@, asg_addr_is(a));
            lemma_find_last_props(self.roles@, asg_addr_is(a));
        }
        None
    }

    /// Whether `address` holds a role at least as privileged as
    /// `required_role`; an unassigned address has no permissions.
    pub fn has_permission(&self, address: Address, required_role: Role) -> (b: bool)
        requires
            self.wf(),
        ensures
            b == self.spec_has_permission(address, required_role),
    {
        match self.role_index(address) {
            Some(i) => self.roles[i].role.level() >= required_role.level(),
            None => false,
        }
    }

    /// Whether `address` is the contract owner by role.
    pub fn is_owner(&self, address: Address) -> (b: bool)
        requires
            self.wf(),
        ensures
            b == (self.role_of(address) == Some(Role::Owner)),
    {
        match self.role_index(address) {
            Some(i) => {
                let r = self.roles[i].role;
                match r {
                    Role::Owner => true,
                    _ => false,
                }
            },
            None => false,
        }
    }

    /// Whether `address` holds the Admin role or above.
    pub fn is_admin_or_above(&self, address: Address) -> (b: bool)
        requires
            self.wf(),
        ensures
            b == self.spec_has_permission(address, Role::Admin),
    {
        self.has_permission(address, Role::Admin)
    }

    /// Whether `address` holds the Member role or above.
    pub fn is_member_or_above(&self, address: Address) -> (b: bool)
        requires
            self.wf(),
        ensures
            b == self.spec_has_permission(address, Role::Member),
    {
        self.has_permission(address, Role::Member)
    }

    /// The assignment recorded for `address`.
    pub fn get_role(&self, address: Address) -> (r: Result<RoleAssignment, Error>)
        requires
            self.wf(),
        ensures
            r == (match self.assignment_of(address) {
                Some(x) => Ok::<RoleAssignment, Error>(x),
                None => Err::<RoleAssignment, Error>(Error::RoleNotFound),
            }),
    {
        match self.role_index(address) {
            Some(i) => Ok(self.roles[i]),
            None => Err(Error::RoleNotFound),
        }
    }

    /// All addresses currently holding a role, in insertion order.
    pub fn get_all_members(&self) -> (r: Vec<Address>)
        ensures
            r@ == addresses_of(self.roles@),
    {
        let n = self.roles.len();
        let mut r: Vec<Address> = Vec::new();
        let mut i: usize = 0;
        while i < n
            invariant
                n == self.roles@.len(),
                i <= n,
                r@ =~= addresses_of(self.roles@.take(i as int)),
            decreases n - i,
        {
            r.push(self.roles[i].address);
            proof {
                assert(self.roles@.take(i + 1).drop_last() =~= self.roles@.take(i as int));
                assert(addresses_of(self.roles@.take(i + 1)) =~= addresses_of(
                    self.roles@.take(i as int),
                ).push(self.roles@[i as int].address));
            }
            i = i + 1;
        }
        proof {
            assert(self.roles@.take(n as int) =~= self.roles@);
        }
        r
    }

    /// Exactly when `assign_role` succeeds, and with which error it fails:
    /// the machine must be initialized, the assignor must hold a role strong
    /// enough for the authority matrix, the Owner role is never granted this
    /// way, and the reigning owner is never reassigned.
    pub open spec fn assign_role_result(
        pre: Self,
        assignor: Address,
        target: Address,
        role: Role,
    ) -> Result<(), Error> {
        if !pre.initialized {
            Err(Error::NotInitialized)
        } else {
            match pre.role_of(assignor) {
                None => Err(Error::RoleNotFound),
                Some(ar) => {
                    let allowed = match role {
                        Role::Owner | Role::Admin => ar == Role::Owner,
                        Role::Member | Role::Viewer => ar == Role::Owner || ar == Role::Admin,
                    };
                    if !allowed {
                        Err(Error::InsufficientPrivilege)
                    } else if role == Role::Owner {
                        Err(Error::InvalidRole)
                    } else if target == pre.owner {
                        Err(Error::CannotRemoveOwner)
                    } else {
                        Ok(())
                    }
                },
            }
        }
    }

    /// On success the target's assignment is inserted (appending a new member)
    /// or replaced in place (keeping the member list unchanged), and the
    /// assign event is logged.
    pub open spec fn assign_role_ok(
        pre: Self,
        post: Self,
        assignor: Address,
        target: Address,
        role: Role,
        now: u64,
    ) -> bool {
        let asg = RoleAssignment {
            address: target,
            role: role,
            assigned_at: now,
            assigned_by: assignor,
        };
        &&& post.initialized
        &&& post.owner == pre.owner
        &&& if pre.assignment_of(target) is None {
            post.roles@ == pre.roles@.push(asg)
        } else {
            exists|i: int|
                #![auto]
                0 <= i < pre.roles@.len() && pre.roles@[i].address == target && post.roles@
                    == pre.roles@.update(i, asg)
        }
        &&& post.assignment_of(target) == Some(asg)
        &&& forall|a: Address| a != target ==> post.assignment_of(a) == pre.assignment_of(a)
        &&& post.events@ == pre.events@.push(AclEvent::Assign { target, role, assignor })
    }

    /// Assign `role` to `target` on behalf of the authenticated `assignor`.
    /// Owners may grant Admin and below; admins may grant Member and Viewer.
    pub fn assign_role(
        &mut self,
        assignor: Address,
        target: Address,
        role: Role,
        now: u64,
    ) -> (r: Result<(), Error>)
        requires
            old(self).wf(),
        ensures
            final(self).wf(),
            r == Self::assign_role_result(*old(self), assignor, target, role),
            r is Ok ==> Self::assign_role_ok(*old(self), *final(self), assignor, target, role, now),
            r is Err ==> *final(self) == *old(self),
    {
        if !self.initialized {
            return Err(Error::NotInitialized);
        }
        let assignor_role = match self.role_index(assignor) {
            Some(i) => self.roles[i].role,
            None => {
                return Err(Error::RoleNotFound);
            },
        };
        let allowed = match role {
            Role::Owner | Role::Admin => {
                match assignor_role {
                    Role::Owner => true,
                    _ => false,
                }
            },
            Role::Member | Role::Viewer => {
                match assignor_role {
                    Role::Owner | Role::Admin => true,
                    _ => false,
                }
            },
        };
        if !allowed {
            return Err(Error::InsufficientPrivilege);
        }
        match role {
            Role::Owner => {
                return Err(Error::InvalidRole);
            },
            _ => {},
        }
        if target == self.owner {
            return Err(Error::CannotRemoveOwner);
        }
        let asg = RoleAssignment {
            address: target,
            role: role,
            assigned_at: now,
            assigned_by: assignor,
        };
        let ghost pre = *self;
        match self.role_index(target) {
            Some(i) => {
                self.roles.set(i, asg);
                proof {
                    let s = pre.roles@;
                    let t = self.roles@;
                    assert(t == s.update(i as int, asg));
                    // The replaced slot did not carry the Owner role: the
                    // owner's slot does, and addresses are unique.
                    let x = pre.assignment_of(pre.owner)->Some_0;
                    lemma_find_last_props(s, asg_addr_is(pre.owner));
                    let j = choose|j: int| 0 <= j < s.len() && s[j] == x;
                    assert(asg_addr_is(pre.owner)(x));
                    if s[i as int].role == Role::Owner {
                        if i as int <= j {
                            lemma_count_where_two(s, asg_role_is(Role::Owner), i as int, j);
                        } else {
                            lemma_count_where_two(s, asg_role_is(Role::Owner), j, i as int);
                        }
                        assert(false);
                    }
                    lemma_count_where_update(s, i as int, asg, asg_role_is(Role::Owner));
                    assert forall|a: Address| count_where(t, asg_addr_is(a)) <= 1 by {
                        lemma_count_where_update(s, i as int, asg, asg_addr_is(a));
                    }
                    lemma_find_last_unique(t, asg_addr_is(pre.owner), j);
                    lemma_find_last_unique(t, asg_addr_is(target), i as int);
                    assert forall|a: Address| a != target implies self.assignment_of(a)
                        == pre.assignment_of(a) by {
                        Self::lemma_lookup_after_update(s, i as int, asg, a);
                    }
                }
            },
            None => {
                self.roles.push(asg);
                proof {
                    let s = pre.roles@;
                    let t = self.roles@;
                    lemma_find_last_props(s, asg_addr_is(target));
                    assert forall|a: Address| count_where(t, asg_addr_is(a)) <= 1 by {
                        lemma_count_where_push(s, asg, asg_addr_is(a));
                    }
                    lemma_count_where_push(s, asg, asg_role_is(Role::Owner));
                    assert(t.drop_last() =~= s);
                    assert(self.assignment_of(target) == Some(asg));
                    assert forall|a: Address| a != target implies self.assignment_of(a)
                        == pre.assignment_of(a) by {
                        assert(!asg_addr_is(a)(asg));
                    }
                }
            },
        }
        self.events.push(AclEvent::Assign { target, role, assignor });
        Ok(())
    }

    /// Replacing a slot keeps every other address's lookup unchanged, as long
    /// as the new entry keeps the slot's address.
    proof fn lemma_lookup_after_update(s: Seq<RoleAssignment>, i: int, x: RoleAssignment, a: Address)
        requires
            0 <= i < s.len(),
            x.address == s[i].address,
            a != x.address,
        ensures
            find_last(s.update(i, x), asg_addr_is(a)) == find_last(s, asg_addr_is(a)),
        decreases s.len(),
    {
        let t = s.update(i, x);
        if i == s.len() - 1 {
            assert(t.drop_last() =~= s.drop_last());
            assert(t.last() == x);
            assert(!asg_addr_is(a)(x));
            assert(!asg_addr_is(a)(s.last()));
        } else {
            assert(t.drop_last() =~= s.drop_last().update(i, x));
            assert(t.last() == s.last());
            Self::lemma_lookup_after_update(s.drop_last(), i, x, a);
        }
    }

    /// Exactly when `revoke_role` succeeds: admins and the owner revoke,
    /// only the owner revokes admins, and the owner is never revoked.
    pub open spec fn revoke_role_result(pre: Self, revoker: Address, target: Address) -> Result<
        (),
        Error,
    > {
        if !pre.initialized {
            Err(Error::NotInitialized)
        } else {
            match pre.role_of(revoker) {
                None => Err(Error::RoleNotFound),
                Some(rr) => {
                    if rr != Role::Owner && rr != Role::Admin {
                        Err(Error::InsufficientPrivilege)
                    } else {
                        match pre.role_of(target) {
                            None => Err(Error::RoleNotFound),
                            Some(tr) => {
                                if tr == Role::Owner {
                                    Err(Error::CannotRemoveOwner)
                                } else if tr == Role::Admin && rr != Role::Owner {
                                    Err(Error::InsufficientPrivilege)
                                } else {
                                    Ok(())
                                }
                            },
                        }
                    }
                },
            }
        }
    }

    /// On success the target's assignment disappears and the member list
    /// keeps its order; the revoke event is logged.
    pub open spec fn revoke_role_ok(pre: Self, post: Self, revoker: Address, target: Address) -> bool {
        &&& post.initialized
        &&& post.owner == pre.owner
        &&& post.roles@ == discard(pre.roles@, asg_addr_is(target))
        &&& post.assignment_of(target) is None
        &&& forall|a: Address| a != target ==> post.assignment_of(a) == pre.assignment_of(a)
        &&& post.events@ == pre.events@.push(AclEvent::Revoke { target, revoker })
    }

    /// Revoke `target`'s role on behalf of the authenticated `revoker`.
    pub fn revoke_role(&mut self, revoker: Address, target: Address) -> (r: Result<(), Error>)
        requires
            old(self).wf(),
        ensures
            final(self).wf(),
            r == Self::revoke_role_result(*old(self), revoker, target),
            r is Ok ==> Self::revoke_role_ok(*old(self), *final(self), revoker, target),
            r is Err ==> *final(self) == *old(self),
    {
        if !self.initialized {
            return Err(Error::NotInitialized);
        }
        let revoker_role = match self.role_index(revoker) {
            Some(i) => self.roles[i].role,
            None => {
                return Err(Error::RoleNotFound);
            },
        };
        let revoker_may = match revoker_role {
            Role::Owner | Role::Admin => true,
            _ => false,
        };
        if !revoker_may {
            return Err(Error::InsufficientPrivilege);
        }
        let target_role = match self.role_index(target) {
            Some(i) => self.roles[i].role,
            None => {
                return Err(Error::RoleNotFound);
            },
        };
        match target_role {
            Role::Owner => {
                return Err(Error::CannotRemoveOwner);
            },
            Role::Admin => {
                match revoker_role {
                    Role::Owner => {},
                    _ => {
                        return Err(Error::InsufficientPrivilege);
                    },
                }
            },
            _ => {},
        }
        let ghost pre = *self;
        let kept = Self::without_address(&self.roles, target);
        self.roles = kept;
        self.events.push(AclEvent::Revoke { target, revoker });
        proof {
            let s = pre.roles@;
            let p = asg_addr_is(target);
            let t = self.roles@;
            assert forall|a: Address| count_where(t, asg_addr_is(a)) <= 1 by {
                lemma_discard_single(s, p, asg_addr_is(a));
                lemma_find_last_props(s, p);
            }
            // The discarded assignment does not carry the Owner role.
            lemma_discard_single(s, p, asg_role_is(Role::Owner));
            lemma_find_last_props(s, p);
            // The owner's slot survives untouched.
            assert forall|a: Address| a != target implies self.assignment_of(a)
                == pre.assignment_of(a) by {
                lemma_discard_other(s, p, asg_addr_is(a));
            }
            lemma_discard_len(s, p);
            lemma_find_last_props(t, p);
        }
        Ok(())
    }

    /// A copy of `v` without the entries recorded for `a`, order preserved.
    fn without_address(v: &Vec<RoleAssignment>, a: Address) -> (r: Vec<RoleAssignment>)
        ensures
            r@ == discard(v@, asg_addr_is(a)),
    {
        let n = v.len();
        let mut r: Vec<RoleAssignment> = Vec::new();
        let mut i: usize = 0;
        while i < n
            invariant
                n == v@.len(),
                i <= n,
                r@ == discard(v@.take(i as int), asg_addr_is(a)),
            decreases n - i,
        {
            proof {
                assert(v@.take(i + 1).drop_last() =~= v@.take(i as int));
                assert(v@.take(i + 1).last() == v@[i as int]);
            }
            if v[i].address != a {
                r.push(v[i]);
            }
            i = i + 1;
        }
        proof {
            assert(v@.take(n as int) =~= v@);
        }
        r
    }

    /// Exactly when `transfer_ownership` succeeds: only the reigning owner
    /// may hand the contract over.
    pub open spec fn transfer_ownership_result(pre: Self, current_owner: Address) -> Result<
        (),
        Error,
    > {
        if !pre.initialized {
            Err(Error::NotInitialized)
        } else if current_owner != pre.owner {
            Err(Error::Unauthorized)
        } else {
            Ok(())
        }
    }

    /// On success the owner slot moves to `new_owner`, whose assignment
    /// becomes Owner; the outgoing owner is demoted to Admin; a new owner
    /// joins the member list, an existing one keeps its slot.
    pub open spec fn transfer_ownership_ok(
        pre: Self,
        post: Self,
        current_owner: Address,
        new_owner: Address,
        now: u64,
    ) -> bool {
        let demoted = RoleAssignment {
            address: current_owner,
            role: Role::Admin,
            assigned_at: now,
            assigned_by: current_owner,
        };
        let crowned = RoleAssignment {
            address: new_owner,
            role: Role::Owner,
            assigned_at: now,
            assigned_by: current_owner,
        };
        &&& post.initialized
        &&& post.owner == new_owner
        &&& post.assignment_of(new_owner) == Some(crowned)
        &&& (new_owner != current_owner ==> post.assignment_of(current_owner) == Some(demoted))
        &&& forall|a: Address|
            a != current_owner && a != new_owner ==> post.assignment_of(a) == pre.assignment_of(a)
        &&& post.roles@.len() == if pre.assignment_of(new_owner) is Some {
            pre.roles@.len()
        } else {
            pre.roles@.len() + 1
        }
        &&& addresses_of(post.roles@) == if pre.assignment_of(new_owner) is Some {
            addresses_of(pre.roles@)
        } else {
            addresses_of(pre.roles@).push(new_owner)
        }
        &&& post.events@ == pre.events@.push(
            AclEvent::OwnerTransfer { prev_owner: current_owner, new_owner },
        )
    }

    /// Transfer ownership from the authenticated `current_owner` to
    /// `new_owner`.
    pub fn transfer_ownership(&mut self, current_owner: Address, new_owner: Address, now: u64) -> (r:
        Result<(), Error>)
        requires
            old(self).wf(),
        ensures
            final(self).wf(),
            r == Self::transfer_ownership_result(*old(self), current_owner),
            r is Ok ==> Self::transfer_ownership_ok(
                *old(self),
                *final(self),
                current_owner,
                new_owner,
                now,
            ),
            r is Err ==> *final(self) == *old(self),
    {
        if !self.initialized {
            return Err(Error::NotInitialized);
        }
        if current_owner != self.owner {
            return Err(Error::Unauthorized);
        }
        let demoted = RoleAssignment {
            address: current_owner,
            role: Role::Admin,
            assigned_at: now,
            assigned_by: current_owner,
        };
        let crowned = RoleAssignment {
            address: new_owner,
            role: Role::Owner,
            assigned_at: now,
            assigned_by: current_owner,
        };
        let ghost pre = *self;
        let cur_idx = match self.role_index(current_owner) {
            Some(i) => i,
            None => {
                proof {
                    assert(false);
                }
                return Err(Error::Unauthorized);
            },
        };
        proof {
            // The owner's slot carries the Owner role.
            assert(pre.roles@[cur_idx as int].role == Role::Owner);
        }
        self.roles.set(cur_idx, demoted);
        let ghost mid = self.roles@;
        proof {
            let s = pre.roles@;
            lemma_count_where_update(s, cur_idx as int, demoted, asg_role_is(Role::Owner));
            assert(count_where(mid, asg_role_is(Role::Owner)) == 0);
            assert forall|a: Address| count_where(mid, asg_addr_is(a)) <= 1 by {
                lemma_count_where_update(s, cur_idx as int, demoted, asg_addr_is(a));
            }
        }
        let new_idx = self.role_index_weak(new_owner);
        match new_idx {
            Some(j) => {
                proof {
                    if mid[j as int].role == Role::Owner {
                        lemma_count_where_at(mid, asg_role_is(Role::Owner), j as int);
                        assert(false);
                    }
                }
                self.roles.set(j, crowned);
                proof {
                    lemma_count_where_update(mid, j as int, crowned, asg_role_is(Role::Owner));
                    assert forall|a: Address| count_where(self.roles@, asg_addr_is(a)) <= 1 by {
                        lemma_count_where_update(mid, j as int, crowned, asg_addr_is(a));
                    }
                    lemma_find_last_unique(self.roles@, asg_addr_is(new_owner), j as int);
                }
            },
            None => {
                self.roles.push(crowned);
                proof {
                    lemma_count_where_push(mid, crowned, asg_role_is(Role::Owner));
                    lemma_count_where_zero(mid, asg_addr_is(new_owner));
                    assert forall|a: Address| count_where(self.roles@, asg_addr_is(a)) <= 1 by {
                        lemma_count_where_push(mid, crowned, asg_addr_is(a));
                    }
                    assert(self.roles@.last() == crowned);
                }
            },
        }
        self.owner = new_owner;
        self.events.push(AclEvent::OwnerTransfer { prev_owner: current_owner, new_owner });
        proof {
            let s = pre.roles@;
            let t = self.roles@;
            assert(forall|k: int| 0 <= k < s.len() ==> #[trigger] mid[k].address == s[k].address);
            if new_owner != current_owner {
                // The demoted slot survives the second write.
                match new_idx {
                    Some(j) => {
                        assert(mid[j as int].address == new_owner);
                        assert(j as int != cur_idx as int);
                        assert(t[cur_idx as int] == demoted);
                    },
                    None => {
                        assert(t[cur_idx as int] == demoted);
                    },
                }
                lemma_find_last_unique(t, asg_addr_is(current_owner), cur_idx as int);
            }
            assert forall|a: Address| a != current_owner && a != new_owner implies
                self.assignment_of(a) == pre.assignment_of(a) by {
                match pre.assignment_of(a) {
                    Some(x) => {
                        lemma_find_last_props(s, asg_addr_is(a));
                        let k = choose|k: int| 0 <= k < s.len() && s[k] == x;
                        assert(asg_addr_is(a)(x));
                        assert(k != cur_idx as int);
                        if new_idx is Some {
                            assert(k != new_idx->Some_0 as int);
                        }
                        assert(t[k] == s[k]);
                        lemma_find_last_unique(t, asg_addr_is(a), k);
                    },
                    None => {
                        lemma_find_last_props(s, asg_addr_is(a));
                        lemma_count_where_zero(s, asg_addr_is(a));
                        assert forall|k: int| 0 <= k < t.len() implies !asg_addr_is(a)(t[k]) by {
                            if k < s.len() {
                                assert(!asg_addr_is(a)(s[k]));
                            }
                        }
                        lemma_count_where_zero(t, asg_addr_is(a));
                        lemma_find_last_props(t, asg_addr_is(a));
                    },
                }
            }
            // The member list gains the new owner only if absent before.
            match new_idx {
                Some(j) => {
                    assert(addresses_of(t) =~= addresses_of(s));
                    assert(s[j as int].address == new_owner);
                    lemma_find_last_unique(s, asg_addr_is(new_owner), j as int);
                },
                None => {
                    assert(addresses_of(t) =~= addresses_of(s).push(new_owner));
                    assert forall|k: int| 0 <= k < s.len() implies !asg_addr_is(new_owner)(
                        s[k],
                    ) by {
                        lemma_count_where_zero(mid, asg_addr_is(new_owner));
                        assert(!asg_addr_is(new_owner)(mid[k]));
                    }
                    lemma_count_where_zero(s, asg_addr_is(new_owner));
                    lemma_find_last_props(s, asg_addr_is(new_owner));
                },
            }
        }
        Ok(())
    }

    /// Index lookup that only needs unique addresses, for use mid-update.
    fn role_index_weak(&self, a: Address) -> (r: Option<usize>)
        requires
            unique_addresses(self.roles@),
        ensures
            match r {
                Some(i) => i < self.roles@.len() && self.roles@[i as int].address == a
                    && self.assignment_of(a) == Some(self.roles@[i as int]),
                None => self.assignment_of(a) is None && count_where(
                    self.roles@,
                    asg_addr_is(a),
                ) == 0,
            },
    {
        let n = self.roles.len();
        let mut i: usize = 0;
        while i < n
            invariant
                n == self.roles@.len(),
                i <= n,
                unique_addresses(self.roles@),
                forall|j: int| 0 <= j < i ==> self.roles@[j].address != a,
            decreases n - i,
        {
            if self.roles[i].address == a {
                proof {
                    lemma_find_last_unique(self.roles@, asg_addr_is(a), i as int);
                }
                return Some(i);
            }
            i = i + 1;
        }
        proof {
            lemma_count_where_zero(self.roles@, asg_addr_is(a));
            lemma_find_last_props(self.roles@, asg_addr_is(a));
        }
        None
    }

    /// Whether the authenticated `caller` may replace the contract code: only
    /// the owner may. The host performs the actual code swap after this check
    /// succeeds.
    pub fn upgrade(&self, caller: Address) -> (r: Result<(), Error>)
        ensures
            r == (if !self.initialized {
                Err::<(), Error>(Error::NotInitialized)
            } else if caller != self.owner {
                Err::<(), Error>(Error::Unauthorized)
            } else {
                Ok::<(), Error>(())
            }),
    {
        if !self.initialized {
            return Err(Error::NotInitialized);
        }
        if caller != self.owner {
            return Err(Error::Unauthorized);
        }
        Ok(())
    }

    /// The owner, the member total, and the per-role counts.
    pub fn get_summary(&self) -> (r: Result<AccessSummary, Error>)
        requires
            self.wf(),
        ensures
            !self.initialized ==> r == Err::<AccessSummary, Error>(Error::NotInitialized),
            self.initialized ==> (r matches Ok(s) && {
                &&& s.owner == self.owner
                &&& s.total_members == self.roles@.len()
                &&& s.owner_count == count_where(self.roles@, asg_role_is(Role::Owner))
                &&& s.admin_count == count_where(self.roles@, asg_role_is(Role::Admin))
                &&& s.member_count == count_where(self.roles@, asg_role_is(Role::Member))
                &&& s.viewer_count == count_where(self.roles@, asg_role_is(Role::Viewer))
            }),
    {
        if !self.initialized {
            return Err(Error::NotInitialized);
        }
        let n = self.roles.len();
        let mut owner_count: usize = 0;
        let mut admin_count: usize = 0;
        let mut member_count: usize = 0;
        let mut viewer_count: usize = 0;
        let mut i: usize = 0;
        while i < n
            invariant
                n == self.roles@.len(),
                i <= n,
                owner_count == count_where(self.roles@.take(i as int), asg_role_is(Role::Owner)),
                admin_count == count_where(self.roles@.take(i as int), asg_role_is(Role::Admin)),
                member_count == count_where(self.roles@.take(i as int), asg_role_is(Role::Member)),
                viewer_count == count_where(self.roles@.take(i as int), asg_role_is(Role::Viewer)),
            decreases n - i,
        {
            proof {
                assert(self.roles@.take(i + 1).drop_last() =~= self.roles@.take(i as int));
                assert(self.roles@.take(i + 1).last() == self.roles@[i as int]);
                lemma_count_where_le_len(self.roles@.take(i as int), asg_role_is(Role::Owner));
                lemma_count_where_le_len(self.roles@.take(i as int), asg_role_is(Role::Admin));
                lemma_count_where_le_len(self.roles@.take(i as int), asg_role_is(Role::Member));
                lemma_count_where_le_len(self.roles@.take(i as int), asg_role_is(Role::Viewer));
            }
            match self.roles[i].role {
                Role::Owner => owner_count = owner_count + 1,
                Role::Admin => admin_count = admin_count + 1,
                Role::Member => member_count = member_count + 1,
                Role::Viewer => viewer_count = viewer_count + 1,
            }
            i = i + 1;
        }
        proof {
            assert(self.roles@.take(n as int) =~= self.roles@);
        }
        Ok(
            AccessSummary {
                owner: self.owner,
                total_members: n,
                owner_count,
                admin_count,
                member_count,
                viewer_count,
            },
        )
    }
}

/// Every assignment carries exactly one of the four roles, so the four
/// per-role counts always sum to the number of assignments.
pub proof fn lemma_role_counts_total(s: Seq<RoleAssignment>)
    ensures
        count_where(s, asg_role_is(Role::Viewer)) + count_where(s, asg_role_is(Role::Member))
            + count_where(s, asg_role_is(Role::Admin)) + count_where(
            s,
            asg_role_is(Role::Owner),
        ) == s.len(),
    decreases s.len(),
{
    if s.len() > 0 {
        lemma_role_counts_total(s.drop_last());
    }
}

/// After any sequence of operations on a well-formed, initialized machine:
/// the per-role counts sum to the member total, exactly one assignment
/// carries the Owner role, and every assignment's address appears exactly
/// once in the member list.
pub proof fn lemma_counts_invariant(c: AccessControlContract)
    requires
        c.wf(),
        c.initialized,
    ensures
        count_where(c.roles@, asg_role_is(Role::Viewer)) + count_where(
            c.roles@,
            asg_role_is(Role::Member),
        ) + count_where(c.roles@, asg_role_is(Role::Admin)) + count_where(
            c.roles@,
            asg_role_is(Role::Owner),
        ) == c.roles@.len(),
        count_where(c.roles@, asg_role_is(Role::Owner)) == 1,
        forall|i: int|
            0 <= i < c.roles@.len() ==> count_where(
                c.roles@,
                asg_addr_is(#[trigger] c.roles@[i].address),
            ) == 1,
{
    lemma_role_counts_total(c.roles@);
    assert forall|i: int| 0 <= i < c.roles@.len() implies count_where(
        c.roles@,
        asg_addr_is(c.roles@[i].address),
    ) == 1 by {
        lemma_count_where_at(c.roles@, asg_addr_is(c.roles@[i].address), i);
    }
}

/// Assigning a role to a previously unassigned address and then revoking it
/// restores the assignment table exactly — and with it the member list, the
/// role counts, and every membership predicate.
pub proof fn lemma_assign_then_revoke_restores(
    pre: AccessControlContract,
    mid: AccessControlContract,
    post: AccessControlContract,
    assignor: Address,
    revoker: Address,
    target: Address,
    role: Role,
    now: u64,
)
    requires
        pre.assignment_of(target) is None,
        AccessControlContract::assign_role_ok(pre, mid, assignor, target, role, now),
        AccessControlContract::revoke_role_ok(mid, post, revoker, target),
    ensures
        post.roles@ == pre.roles@,
        post.owner == pre.owner,
        forall|a: Address| post.role_of(a) == pre.role_of(a),
        forall|r: Role|
            count_where(post.roles@, asg_role_is(r)) == count_where(pre.roles@, asg_role_is(r)),
        forall|a: Address, q: Role| post.spec_has_permission(a, q) == pre.spec_has_permission(a, q),
{
    let asg = RoleAssignment { address: target, role: role, assigned_at: now, assigned_by: assignor };
    lemma_discard_push_dropped(pre.roles@, asg, asg_addr_is(target));
    lemma_find_last_props(pre.roles@, asg_addr_is(target));
    lemma_discard_none(pre.roles@, asg_addr_is(target));
}

} // verus!
