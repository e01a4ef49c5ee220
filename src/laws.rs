use vstd::prelude::*;
use crate::model::{
    allowed, has_cycle, has_duplicate_names, has_undeclared_permission, has_undeclared_role,
    implies_directly, names_type_at, permission_set, policy_error, reaches, reaches_within,
    role_closure, type_names, valid_policy, PolicyError, ResourceTypeView,
};
use crate::resolver::{lemma_reaches_refl, lemma_reaches_step};

verus! {

proof fn lemma_reaches_within_no_implications(t: ResourceTypeView, r: Seq<char>, x: Seq<char>, n: nat)
    requires
        t.implications.len() == 0,
        reaches_within(t, r, x, n),
    ensures
        x == r,
    decreases n,
{
    if n > 0 {
        let prev = (n - 1) as nat;
        if reaches_within(t, r, x, prev) {
            lemma_reaches_within_no_implications(t, r, x, prev);
        } else {
            let mid = choose|mid: Seq<char>|
                reaches_within(t, r, mid, prev) && #[trigger] implies_directly(t, mid, x);
            assert(t.implications.contains((x, mid)));
        }
    }
}

/// In a resource type without implications, the closure of a role is the
/// role alone.
pub proof fn lemma_closure_without_implications(t: ResourceTypeView, r: Seq<char>)
    requires
        t.implications.len() == 0,
    ensures
        role_closure(t, r) == set![r],
{
    assert forall|x: Seq<char>| role_closure(t, r).contains(x) <==> set![r].contains(x) by {
        if reaches(t, r, x) {
            let n = choose|n: nat| reaches_within(t, r, x, n);
            lemma_reaches_within_no_implications(t, r, x, n);
        }
        if x == r {
            lemma_reaches_refl(t, r);
        }
    }
    assert(role_closure(t, r) =~= set![r]);
}

/// A decision depends on the policy and the request alone: two decisions
/// made with the same arguments on the same policy agree.
pub proof fn lemma_decision_repeatable(
    p: Seq<ResourceTypeView>,
    role: Seq<char>,
    action: Seq<char>,
    rt: Seq<char>,
    first: bool,
    second: bool,
)
    requires
        first == allowed(p, role, action, rt),
        second == allowed(p, role, action, rt),
    ensures
        first == second,
{
}

/// When the resource type, the action or the role is not declared, the
/// decision is a denial.
pub proof fn lemma_fail_closed(
    p: Seq<ResourceTypeView>,
    role: Seq<char>,
    action: Seq<char>,
    rt: Seq<char>,
)
    requires
        valid_policy(p),
        forall|k: int|
            #![trigger p[k]]
            names_type_at(p, k, rt) ==> !p[k].permissions.contains(action) || !p[k].roles.contains(role),
    ensures
        !allowed(p, role, action, rt),
{
}

/// A policy whose only fault is that one resource type holds both "a if b"
/// and "b if a", in either order, is refused for a role cycle.
pub proof fn lemma_mutual_implication_rejected(p: Seq<ResourceTypeView>, k: int, i: int, j: int)
    requires
        0 <= k < p.len(),
        0 <= i < p[k].implications.len(),
        0 <= j < p[k].implications.len(),
        p[k].implications[j] == (p[k].implications[i].1, p[k].implications[i].0),
        type_names(p).no_duplicates(),
        forall|q: int| 0 <= q < p.len() ==> !has_duplicate_names(#[trigger] p[q]),
        forall|q: int| 0 <= q < p.len() ==> !has_undeclared_role(#[trigger] p[q]),
        forall|q: int| 0 <= q < p.len() ==> !has_undeclared_permission(#[trigger] p[q]),
    ensures
        policy_error(p) == Some(PolicyError::RoleCycle),
{
    let t = p[k];
    let a = t.implications[i].0;
    let b = t.implications[i].1;
    assert(implies_directly(t, b, a)) by {
        assert(t.implications[i] == (a, b));
    }
    assert(implies_directly(t, a, b)) by {
        assert(t.implications[j] == (b, a));
    }
    lemma_reaches_refl(t, a);
    lemma_reaches_step(t, a, a, b);
    assert(has_cycle(t));
}

/// `t` with the implication "implied if implied_by" added.
pub open spec fn with_implication(
    t: ResourceTypeView,
    implied: Seq<char>,
    implied_by: Seq<char>,
) -> ResourceTypeView {
    ResourceTypeView { implications: t.implications.push((implied, implied_by)), ..t }
}

proof fn lemma_reaches_within_grows(
    t: ResourceTypeView,
    implied: Seq<char>,
    implied_by: Seq<char>,
    r: Seq<char>,
    x: Seq<char>,
    n: nat,
)
    requires
        reaches_within(t, r, x, n),
    ensures
        reaches(with_implication(t, implied, implied_by), r, x),
    decreases n,
{
    let u = with_implication(t, implied, implied_by);
    if n == 0 {
        lemma_reaches_refl(u, r);
    } else {
        let prev = (n - 1) as nat;
        if reaches_within(t, r, x, prev) {
            lemma_reaches_within_grows(t, implied, implied_by, r, x, prev);
        } else {
            let mid = choose|mid: Seq<char>|
                reaches_within(t, r, mid, prev) && #[trigger] implies_directly(t, mid, x);
            lemma_reaches_within_grows(t, implied, implied_by, r, mid, prev);
            let q = choose|q: int| 0 <= q < t.implications.len() && t.implications[q] == (x, mid);
            assert(u.implications[q] == (x, mid));
            lemma_reaches_step(u, r, mid, x);
        }
    }
}

/// Adding the implication "implied if implied_by" keeps every role and every
/// permission that a role had, and gives `implied_by` the role `implied`.
pub proof fn lemma_added_implication_grows(
    t: ResourceTypeView,
    implied: Seq<char>,
    implied_by: Seq<char>,
    r: Seq<char>,
)
    ensures
        role_closure(t, r).subset_of(role_closure(with_implication(t, implied, implied_by), r)),
        permission_set(t, r).subset_of(permission_set(with_implication(t, implied, implied_by), r)),
        role_closure(with_implication(t, implied, implied_by), implied_by).contains(implied),
{
    let u = with_implication(t, implied, implied_by);
    assert forall|x: Seq<char>| reaches(t, r, x) implies reaches(u, r, x) by {
        let n = choose|n: nat| reaches_within(t, r, x, n);
        lemma_reaches_within_grows(t, implied, implied_by, r, x, n);
    }
    assert forall|perm: Seq<char>| permission_set(t, r).contains(perm) implies permission_set(u, r).contains(perm) by {
        let g = choose|g: Seq<char>| #[trigger] t.grants.contains((perm, g)) && reaches(t, r, g);
        assert(u.grants.contains((perm, g)));
    }
    assert(u.implications[t.implications.len() as int] == (implied, implied_by));
    assert(implies_directly(u, implied_by, implied));
    lemma_reaches_refl(u, implied_by);
    lemma_reaches_step(u, implied_by, implied_by, implied);
}

} // verus!
