use vstd::prelude::*;

verus! {

/// The fact that an actor holding `implied_by` also holds `implied`.
pub struct RoleImplication {
    pub implied: String,
    pub implied_by: String,
}

/// The fact that holding `role` grants `permission`.
pub struct PermissionGrant {
    pub permission: String,
    pub role: String,
}

/// One class of protected resource with its own vocabulary and facts.
pub struct ResourceType {
    pub name: String,
    pub permissions: Vec<String>,
    pub roles: Vec<String>,
    pub implications: Vec<RoleImplication>,
    pub grants: Vec<PermissionGrant>,
}

/// The requesting principal: an opaque identifier and the one role it holds.
pub struct AclUser {
    pub id: u128,
    pub role: String,
}

/// Why a policy was refused, or why a request could not be read.
#[derive(PartialEq, Eq, Structural, Clone, Copy, Debug)]
pub enum PolicyError {
    DuplicateDeclaration,
    UndeclaredRole,
    UndeclaredPermission,
    RoleCycle,
    InvalidActor,
}

/// The mathematical content of a resource type. An implication is the pair
/// `(implied, implied_by)`, a grant the pair `(permission, role)`.
pub struct ResourceTypeView {
    pub name: Seq<char>,
    pub permissions: Seq<Seq<char>>,
    pub roles: Seq<Seq<char>>,
    pub implications: Seq<(Seq<char>, Seq<char>)>,
    pub grants: Seq<(Seq<char>, Seq<char>)>,
}

pub open spec fn names(v: Seq<String>) -> Seq<Seq<char>> {
    v.map_values(|s: String| s@)
}

impl View for RoleImplication {
    type V = (Seq<char>, Seq<char>);

    open spec fn view(&self) -> (Seq<char>, Seq<char>) {
        (self.implied@, self.implied_by@)
    }
}

impl View for PermissionGrant {
    type V = (Seq<char>, Seq<char>);

    open spec fn view(&self) -> (Seq<char>, Seq<char>) {
        (self.permission@, self.role@)
    }
}

impl View for ResourceType {
    type V = ResourceTypeView;

    open spec fn view(&self) -> ResourceTypeView {
        ResourceTypeView {
            name: self.name@,
            permissions: names(self.permissions@),
            roles: names(self.roles@),
            implications: self.implications@.map_values(|i: RoleImplication| i@),
            grants: self.grants@.map_values(|g: PermissionGrant| g@),
        }
    }
}

pub open spec fn view_all(v: Seq<ResourceType>) -> Seq<ResourceTypeView> {
    v.map_values(|t: ResourceType| t@)
}

/// Holding `by` directly confers `implied`.
pub open spec fn implies_directly(t: ResourceTypeView, by: Seq<char>, implied: Seq<char>) -> bool {
    t.implications.contains((implied, by))
}

/// `to` is reached from `from` in at most `n` implication steps.
pub open spec fn reaches_within(
    t: ResourceTypeView,
    from: Seq<char>,
    to: Seq<char>,
    n: nat,
) -> bool
    decreases n,
{
    if n == 0 {
        from == to
    } else {
        reaches_within(t, from, to, (n - 1) as nat) || exists|mid: Seq<char>|
            #![trigger implies_directly(t, mid, to)]
            reaches_within(t, from, mid, (n - 1) as nat) && implies_directly(t, mid, to)
    }
}

/// Holding `from` confers `to`, through any number of implications.
pub open spec fn reaches(t: ResourceTypeView, from: Seq<char>, to: Seq<char>) -> bool {
    exists|n: nat| reaches_within(t, from, to, n)
}

/// The roles that holding `role` confers, `role` itself included.
pub open spec fn role_closure(t: ResourceTypeView, role: Seq<char>) -> Set<Seq<char>> {
    Set::new(|x: Seq<char>| reaches(t, role, x))
}

/// Some role implies itself through one or more implications.
pub open spec fn has_cycle(t: ResourceTypeView) -> bool {
    exists|a: Seq<char>, b: Seq<char>| #[trigger] implies_directly(t, a, b) && reaches(t, b, a)
}

/// Holding `role` grants `permission`, through the role's closure.
pub open spec fn grants_permission(t: ResourceTypeView, role: Seq<char>, permission: Seq<char>) -> bool {
    exists|g: Seq<char>| #[trigger] t.grants.contains((permission, g)) && reaches(t, role, g)
}

/// The permissions that holding `role` grants.
pub open spec fn permission_set(t: ResourceTypeView, role: Seq<char>) -> Set<Seq<char>> {
    Set::new(|p: Seq<char>| grants_permission(t, role, p))
}

pub open spec fn has_duplicate_names(t: ResourceTypeView) -> bool {
    !t.permissions.no_duplicates() || !t.roles.no_duplicates()
}

/// An implication or a grant names a role outside the role set.
pub open spec fn has_undeclared_role(t: ResourceTypeView) -> bool {
    (exists|i: int|
        #![trigger t.implications[i]]
        0 <= i < t.implications.len() && !t.roles.contains(t.implications[i].0)) || (exists|i: int|
        #![trigger t.implications[i]]
        0 <= i < t.implications.len() && !t.roles.contains(t.implications[i].1)) || (exists|i: int|
        #![trigger t.grants[i]]
        0 <= i < t.grants.len() && !t.roles.contains(t.grants[i].1))
}

/// A grant names a permission outside the permission set.
pub open spec fn has_undeclared_permission(t: ResourceTypeView) -> bool {
    exists|i: int| 0 <= i < t.grants.len() && !t.permissions.contains(#[trigger] t.grants[i].0)
}

pub open spec fn type_names(p: Seq<ResourceTypeView>) -> Seq<Seq<char>> {
    p.map_values(|t: ResourceTypeView| t.name)
}

/// The error a policy is refused with, checked in this order: duplicate
/// declarations, undeclared roles, undeclared permissions, cycles.
pub open spec fn policy_error(p: Seq<ResourceTypeView>) -> Option<PolicyError> {
    if !type_names(p).no_duplicates() || exists|k: int|
        0 <= k < p.len() && has_duplicate_names(#[trigger] p[k]) {
        Some(PolicyError::DuplicateDeclaration)
    } else if exists|k: int| 0 <= k < p.len() && has_undeclared_role(#[trigger] p[k]) {
        Some(PolicyError::UndeclaredRole)
    } else if exists|k: int| 0 <= k < p.len() && has_undeclared_permission(#[trigger] p[k]) {
        Some(PolicyError::UndeclaredPermission)
    } else if exists|k: int| 0 <= k < p.len() && has_cycle(#[trigger] p[k]) {
        Some(PolicyError::RoleCycle)
    } else {
        None
    }
}

/// Position `k` of `p` holds the resource type named `rt`.
pub open spec fn names_type_at(p: Seq<ResourceTypeView>, k: int, rt: Seq<char>) -> bool {
    0 <= k < p.len() && p[k].name == rt
}

pub open spec fn valid_policy(p: Seq<ResourceTypeView>) -> bool {
    policy_error(p) is None
}

/// The decision: the resource type is declared, the action is one of its
/// permissions, the role is one of its roles, and the role's closure holds a
/// role that is granted the action.
pub open spec fn allowed(
    p: Seq<ResourceTypeView>,
    role: Seq<char>,
    action: Seq<char>,
    resource_type: Seq<char>,
) -> bool {
    exists|k: int|
        0 <= k < p.len() && (#[trigger] p[k]).name == resource_type && p[k].permissions.contains(
            action,
        ) && p[k].roles.contains(role) && grants_permission(p[k], role, action)
}

} // verus!
