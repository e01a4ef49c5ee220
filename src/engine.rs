use vstd::prelude::*;
use crate::model::{allowed, grants_permission, names, names_type_at, reaches, AclUser, PolicyError};
use crate::names::{contains_name, index_of};
use crate::policy::Policy;
use crate::resolver::{closure_of, targets_declared};

verus! {

/// The resource type named `rt` declares `role`.
pub open spec fn declares_role(p: Seq<crate::model::ResourceTypeView>, rt: Seq<char>, role: Seq<char>) -> bool {
    exists|k: int| #![trigger p[k]] names_type_at(p, k, rt) && p[k].roles.contains(role)
}

impl Policy {
    /// The roles that holding `role` on the resource type named `rt` confers,
    /// `role` itself included.
    pub fn closure(&self, rt: &String, role: &String) -> (r: Result<Vec<String>, PolicyError>)
        ensures
            match r {
                Ok(v) => exists|k: int|
                    #![trigger self@[k]]
                    names_type_at(self@, k, rt@) && self@[k].roles.contains(role@) && forall|x: Seq<char>|
                        names(v@).contains(x) <==> reaches(self@[k], role@, x),
                Err(e) => e == PolicyError::UndeclaredRole && !declares_role(self@, rt@, role@),
            },
    {
        match self.resource_type(rt) {
            Some(t) => match index_of(&t.roles, role) {
                Some(i) => {
                    proof {
                        assert(t@.roles[i as int] == t.roles@[i as int]@);
                        assert(t@.roles.contains(role@));
                        assert(targets_declared(t@)) by {
                            assert forall|q: int| 0 <= q < t@.implications.len() implies t@.roles.contains(#[trigger] t@.implications[q].0) by {}
                        }
                    }
                    Ok(closure_of(t, i))
                },
                None => Err(PolicyError::UndeclaredRole),
            },
            None => Err(PolicyError::UndeclaredRole),
        }
    }

    /// Whether `actor` may perform `action` on the resource type named
    /// `resource_type`. Unknown names are never granted.
    pub fn is_allowed(&self, actor: &AclUser, action: &String, resource_type: &String) -> (r: bool)
        ensures
            r == allowed(self@, actor.role@, action@, resource_type@),
    {
        let ghost p = self@;
        let t = match self.resource_type(resource_type) {
            Some(t) => t,
            None => return false,
        };
        if !contains_name(&t.permissions, action) {
            return false;
        }
        let roles = match self.closure(resource_type, &actor.role) {
            Ok(v) => v,
            Err(_) => return false,
        };
        let ghost tv = t@;
        let ghost k0 = choose|k: int|
            #![trigger p[k]]
            names_type_at(p, k, resource_type@) && p[k].roles.contains(actor.role@) && forall|x: Seq<char>|
                names(roles@).contains(x) <==> reaches(p[k], actor.role@, x);
        proof {
            assert(p[k0] == tv);
        }
        let mut g: usize = 0;
        while g < t.grants.len()
            invariant
                tv == t@,
                p == self@,
                names_type_at(p, k0, resource_type@),
                p[k0] == tv,
                tv.permissions.contains(action@),
                tv.roles.contains(actor.role@),
                g <= t.grants.len(),
                forall|x: Seq<char>| names(roles@).contains(x) <==> reaches(tv, actor.role@, x),
                forall|q: int|
                    0 <= q < g && (#[trigger] tv.grants[q]).0 == action@ ==> !reaches(tv, actor.role@, tv.grants[q].1),
            decreases t.grants.len() - g,
        {
            assert(tv.grants[g as int] == t.grants@[g as int]@);
            if t.grants[g].permission == *action && contains_name(&roles, &t.grants[g].role) {
                proof {
                    assert(tv.grants.contains((action@, tv.grants[g as int].1)));
                    assert(grants_permission(tv, actor.role@, action@));
                    assert(names_type_at(p, k0, resource_type@) && p[k0].permissions.contains(action@));
                    assert(p[k0].roles.contains(actor.role@));
                }
                return true;
            }
            g = g + 1;
        }
        proof {
            assert(!grants_permission(tv, actor.role@, action@)) by {
                if grants_permission(tv, actor.role@, action@) {
                    let gr = choose|gr: Seq<char>| #[trigger] tv.grants.contains((action@, gr)) && reaches(tv, actor.role@, gr);
                    let q = choose|q: int| 0 <= q < tv.grants.len() && tv.grants[q] == (action@, gr);
                    assert(tv.grants[q].0 == action@);
                }
            }
        }
        false
    }

    /// Decides a request whose actor may not have been readable. An actor that
    /// could not be read is denied, never granted.
    pub fn decide(&self, actor: &Result<AclUser, PolicyError>, action: &String, resource_type: &String) -> (r: bool)
        ensures
            r == match actor {
                Ok(a) => allowed(self@, a.role@, action@, resource_type@),
                Err(_) => false,
            },
    {
        match actor {
            Ok(a) => self.is_allowed(a, action, resource_type),
            Err(_) => false,
        }
    }
}

/// The extension's greeting.
pub fn hello_pgzan() -> (r: &'static str)
    ensures
        r@ == "Hello, pgzan"@,
{
    "Hello, pgzan"
}

} // verus!
