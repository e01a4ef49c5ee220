use vstd::prelude::*;
use crate::model::{
    has_cycle, has_duplicate_names, names_type_at, valid_policy, PermissionGrant, RoleImplication, has_undeclared_permission, has_undeclared_role,
    implies_directly, names, policy_error, reaches, type_names, view_all, PolicyError,
    ResourceType, ResourceTypeView,
};
use crate::names::{all_distinct, contains_name, index_of};
use crate::resolver::{is_marked_name, reachable_marks, targets_declared};

verus! {

/// A validated policy: read-only once built.
pub struct Policy {
    resource_types: Vec<ResourceType>,
}

impl View for Policy {
    type V = Seq<ResourceTypeView>;

    closed spec fn view(&self) -> Seq<ResourceTypeView> {
        view_all(self.resource_types@)
    }
}

/// No two resource types share a name.
fn type_names_distinct(v: &Vec<ResourceType>) -> (r: bool)
    ensures
        r == type_names(view_all(v@)).no_duplicates(),
{
    let ghost s = type_names(view_all(v@));
    let mut i: usize = 0;
    while i < v.len()
        invariant
            i <= v.len(),
            s == type_names(view_all(v@)),
            forall|a: int, b: int| 0 <= a < b < v.len() && a < i ==> s[a] != s[b],
        decreases v.len() - i,
    {
        let mut j: usize = i + 1;
        while j < v.len()
            invariant
                i < v.len(),
                i + 1 <= j <= v.len(),
                s == type_names(view_all(v@)),
                forall|a: int, b: int| 0 <= a < b < v.len() && a < i ==> s[a] != s[b],
                forall|b: int| i < b < j ==> s[i as int] != s[b],
            decreases v.len() - j,
        {
            if v[i].name == v[j].name {
                proof {
                    assert(s[i as int] == s[j as int]);
                }
                return false;
            }
            j = j + 1;
        }
        i = i + 1;
    }
    true
}

fn declares_twice(t: &ResourceType) -> (r: bool)
    ensures
        r == has_duplicate_names(t@),
{
    !all_distinct(&t.permissions) || !all_distinct(&t.roles)
}

fn names_undeclared_role(t: &ResourceType) -> (r: bool)
    ensures
        r == has_undeclared_role(t@),
{
    let ghost tv = t@;
    let mut i: usize = 0;
    while i < t.implications.len()
        invariant
            tv == t@,
            i <= t.implications.len(),
            forall|q: int| 0 <= q < i ==> tv.roles.contains((#[trigger] tv.implications[q]).0) && tv.roles.contains(tv.implications[q].1),
        decreases t.implications.len() - i,
    {
        assert(tv.implications[i as int] == t.implications@[i as int]@);
        if !contains_name(&t.roles, &t.implications[i].implied) {
            assert(!tv.roles.contains(tv.implications[i as int].0));
            return true;
        }
        if !contains_name(&t.roles, &t.implications[i].implied_by) {
            assert(!tv.roles.contains(tv.implications[i as int].1));
            return true;
        }
        i = i + 1;
    }
    let mut g: usize = 0;
    while g < t.grants.len()
        invariant
            tv == t@,
            g <= t.grants.len(),
            forall|q: int| 0 <= q < tv.implications.len() ==> tv.roles.contains((#[trigger] tv.implications[q]).0) && tv.roles.contains(tv.implications[q].1),
            forall|q: int| 0 <= q < g ==> tv.roles.contains((#[trigger] tv.grants[q]).1),
        decreases t.grants.len() - g,
    {
        assert(tv.grants[g as int] == t.grants@[g as int]@);
        if !contains_name(&t.roles, &t.grants[g].role) {
            assert(!tv.roles.contains(tv.grants[g as int].1));
            return true;
        }
        g = g + 1;
    }
    false
}

fn names_undeclared_permission(t: &ResourceType) -> (r: bool)
    ensures
        r == has_undeclared_permission(t@),
{
    let ghost tv = t@;
    let mut g: usize = 0;
    while g < t.grants.len()
        invariant
            tv == t@,
            g <= t.grants.len(),
            forall|q: int| 0 <= q < g ==> tv.permissions.contains(#[trigger] tv.grants[q].0),
        decreases t.grants.len() - g,
    {
        assert(tv.grants[g as int] == t.grants@[g as int]@);
        if !contains_name(&t.permissions, &t.grants[g].permission) {
            assert(!tv.permissions.contains(tv.grants[g as int].0));
            return true;
        }
        g = g + 1;
    }
    false
}

/// For each implication "b if a", whether b leads back to a.
fn implies_cyclically(t: &ResourceType) -> (r: bool)
    requires
        !has_undeclared_role(t@),
    ensures
        r == has_cycle(t@),
{
    let ghost tv = t@;
    assert(targets_declared(tv)) by {
        assert forall|i: int| 0 <= i < tv.implications.len() implies tv.roles.contains(#[trigger] tv.implications[i].0) by {}
    }
    let mut i: usize = 0;
    while i < t.implications.len()
        invariant
            tv == t@,
            targets_declared(tv),
            i <= t.implications.len(),
            forall|q: int| 0 <= q < i ==> !reaches(tv, (#[trigger] tv.implications[q]).0, tv.implications[q].1),
        decreases t.implications.len() - i,
    {
        assert(tv.implications[i as int] == t.implications@[i as int]@);
        match index_of(&t.roles, &t.implications[i].implied) {
            Some(b) => {
                let marks = reachable_marks(t, b);
                if is_marked_name(&t.roles, &marks, &t.implications[i].implied_by) {
                    proof {
                        let a = tv.implications[i as int].1;
                        let m = choose|m: int| 0 <= m < marks.len() && marks@[m] && #[trigger] tv.roles[m] == a;
                        assert(implies_directly(tv, a, tv.roles[b as int]));
                    }
                    return true;
                }
            },
            None => {
                proof {
                    assert(tv.roles.contains(tv.implications[i as int].0));
                }
            },
        }
        i = i + 1;
    }
    proof {
        assert forall|a: Seq<char>, b: Seq<char>| #[trigger] implies_directly(tv, a, b) implies !reaches(tv, b, a) by {
            let q = choose|q: int| 0 <= q < tv.implications.len() && tv.implications[q] == (b, a);
            assert(!reaches(tv, tv.implications[q].0, tv.implications[q].1));
        }
    }
    false
}

impl Policy {
    #[verifier::type_invariant]
    spec fn inv(&self) -> bool {
        valid_policy(self@)
    }

    /// The position of the resource type named `rt`; names are unique.
    fn find(&self, rt: &String) -> (r: Option<usize>)
        ensures
            match r {
                Some(k) => names_type_at(self@, k as int, rt@) && forall|j: int|
                    #![trigger self@[j]]
                    names_type_at(self@, j, rt@) ==> j == k,
                None => forall|j: int| #![trigger self@[j]] !names_type_at(self@, j, rt@),
            },
    {
        proof {
            use_type_invariant(self);
        }
        let ghost pv = self@;
        let mut k: usize = 0;
        while k < self.resource_types.len()
            invariant
                pv == self@,
                pv == view_all(self.resource_types@),
                type_names(pv).no_duplicates(),
                k <= self.resource_types.len(),
                forall|j: int| #![trigger pv[j]] 0 <= j < k ==> pv[j].name != rt@,
            decreases self.resource_types.len() - k,
        {
            assert(pv[k as int] == self.resource_types@[k as int]@);
            if self.resource_types[k].name == *rt {
                proof {
                    assert forall|j: int| #![trigger pv[j]] names_type_at(pv, j, rt@) implies j == k by {
                        assert(type_names(pv)[j] == pv[j].name);
                        assert(type_names(pv)[k as int] == pv[k as int].name);
                    }
                }
                return Some(k);
            }
            k = k + 1;
        }
        None
    }

    /// The resource type named `rt`, if the policy declares one.
    pub fn resource_type(&self, rt: &String) -> (r: Option<&ResourceType>)
        ensures
            match r {
                Some(t) => (exists|k: int| #![trigger self@[k]] names_type_at(self@, k, rt@) && t@ == self@[k])
                    && (forall|j: int| #![trigger self@[j]] names_type_at(self@, j, rt@) ==> t@ == self@[j])
                    && !has_undeclared_role(t@),
                None => forall|j: int| #![trigger self@[j]] !names_type_at(self@, j, rt@),
            },
    {
        proof {
            use_type_invariant(self);
        }
        match self.find(rt) {
            Some(k) => {
                assert(self@[k as int] == self.resource_types@[k as int]@);
                assert(!has_undeclared_role(self@[k as int]));
                Some(&self.resource_types[k])
            },
            None => None,
        }
    }

    /// The permissions that the resource type named `rt` exposes.
    pub fn permissions_of(&self, rt: &String) -> (r: Option<&Vec<String>>)
        ensures
            match r {
                Some(v) => exists|k: int| #![trigger self@[k]] names_type_at(self@, k, rt@) && names(v@) == self@[k].permissions,
                None => forall|j: int| #![trigger self@[j]] !names_type_at(self@, j, rt@),
            },
    {
        match self.resource_type(rt) {
            Some(t) => Some(&t.permissions),
            None => None,
        }
    }

    /// The roles valid for the resource type named `rt`.
    pub fn roles_of(&self, rt: &String) -> (r: Option<&Vec<String>>)
        ensures
            match r {
                Some(v) => exists|k: int| #![trigger self@[k]] names_type_at(self@, k, rt@) && names(v@) == self@[k].roles,
                None => forall|j: int| #![trigger self@[j]] !names_type_at(self@, j, rt@),
            },
    {
        match self.resource_type(rt) {
            Some(t) => Some(&t.roles),
            None => None,
        }
    }

    /// The role implications of the resource type named `rt`.
    pub fn implications_of(&self, rt: &String) -> (r: Option<&Vec<RoleImplication>>)
        ensures
            match r {
                Some(v) => exists|k: int| #![trigger self@[k]]
                    names_type_at(self@, k, rt@) && v@.map_values(|i: RoleImplication| i@) == self@[k].implications,
                None => forall|j: int| #![trigger self@[j]] !names_type_at(self@, j, rt@),
            },
    {
        match self.resource_type(rt) {
            Some(t) => Some(&t.implications),
            None => None,
        }
    }

    /// The permission grants of the resource type named `rt`.
    pub fn grants_of(&self, rt: &String) -> (r: Option<&Vec<PermissionGrant>>)
        ensures
            match r {
                Some(v) => exists|k: int| #![trigger self@[k]]
                    names_type_at(self@, k, rt@) && v@.map_values(|g: PermissionGrant| g@) == self@[k].grants,
                None => forall|j: int| #![trigger self@[j]] !names_type_at(self@, j, rt@),
            },
    {
        match self.resource_type(rt) {
            Some(t) => Some(&t.grants),
            None => None,
        }
    }

    /// Validates the resource types and builds the policy, or reports the
    /// first kind of violation found: duplicate declarations, then undeclared
    /// roles, then undeclared permissions, then implication cycles.
    pub fn new(resource_types: Vec<ResourceType>) -> (r: Result<Policy, PolicyError>)
        ensures
            match r {
                Ok(p) => policy_error(view_all(resource_types@)) is None && p@ == view_all(resource_types@),
                Err(e) => policy_error(view_all(resource_types@)) == Some(e),
            },
    {
        let ghost pv = view_all(resource_types@);
        let n = resource_types.len();
        if !type_names_distinct(&resource_types) {
            return Err(PolicyError::DuplicateDeclaration);
        }
        let mut k: usize = 0;
        while k < n
            invariant
                n == resource_types.len(),
                pv == view_all(resource_types@),
                k <= n,
                type_names(pv).no_duplicates(),
                forall|q: int| 0 <= q < k ==> !has_duplicate_names(#[trigger] pv[q]),
            decreases n - k,
        {
            assert(pv[k as int] == resource_types@[k as int]@);
            if declares_twice(&resource_types[k]) {
                return Err(PolicyError::DuplicateDeclaration);
            }
            k = k + 1;
        }
        let mut k: usize = 0;
        while k < n
            invariant
                n == resource_types.len(),
                pv == view_all(resource_types@),
                k <= n,
                type_names(pv).no_duplicates(),
                forall|q: int| 0 <= q < n ==> !has_duplicate_names(#[trigger] pv[q]),
                forall|q: int| 0 <= q < k ==> !has_undeclared_role(#[trigger] pv[q]),
            decreases n - k,
        {
            assert(pv[k as int] == resource_types@[k as int]@);
            if names_undeclared_role(&resource_types[k]) {
                return Err(PolicyError::UndeclaredRole);
            }
            k = k + 1;
        }
        let mut k: usize = 0;
        while k < n
            invariant
                n == resource_types.len(),
                pv == view_all(resource_types@),
                k <= n,
                type_names(pv).no_duplicates(),
                forall|q: int| 0 <= q < n ==> !has_duplicate_names(#[trigger] pv[q]),
                forall|q: int| 0 <= q < n ==> !has_undeclared_role(#[trigger] pv[q]),
                forall|q: int| 0 <= q < k ==> !has_undeclared_permission(#[trigger] pv[q]),
            decreases n - k,
        {
            assert(pv[k as int] == resource_types@[k as int]@);
            if names_undeclared_permission(&resource_types[k]) {
                return Err(PolicyError::UndeclaredPermission);
            }
            k = k + 1;
        }
        let mut k: usize = 0;
        while k < n
            invariant
                n == resource_types.len(),
                pv == view_all(resource_types@),
                k <= n,
                type_names(pv).no_duplicates(),
                forall|q: int| 0 <= q < n ==> !has_duplicate_names(#[trigger] pv[q]),
                forall|q: int| 0 <= q < n ==> !has_undeclared_role(#[trigger] pv[q]),
                forall|q: int| 0 <= q < n ==> !has_undeclared_permission(#[trigger] pv[q]),
                forall|q: int| 0 <= q < k ==> !has_cycle(#[trigger] pv[q]),
            decreases n - k,
        {
            assert(pv[k as int] == resource_types@[k as int]@);
            if implies_cyclically(&resource_types[k]) {
                return Err(PolicyError::RoleCycle);
            }
            k = k + 1;
        }
        Ok(Policy { resource_types })
    }
}

} // verus!
