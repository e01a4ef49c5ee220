use vstd::prelude::*;
use crate::model::{
    has_cycle, has_duplicate_names, has_undeclared_permission, has_undeclared_role,
    implies_directly, reaches, reaches_within, type_names, view_all,
    PermissionGrant, PolicyError, ResourceType, ResourceTypeView, RoleImplication,
};
use crate::policy::Policy;

verus! {

/// The resource types that the access-control schema protects.
#[derive(Clone, Copy, PartialEq, Eq, Structural, Debug)]
pub enum AclResources {
    Memberships,
    Invitations,
    Organizations,
    Operators,
    Users,
}

impl AclResources {
    pub open spec fn spec_name(self) -> Seq<char> {
        match self {
            AclResources::Memberships => "Memberships"@,
            AclResources::Invitations => "Invitations"@,
            AclResources::Organizations => "Organizations"@,
            AclResources::Operators => "Operators"@,
            AclResources::Users => "Users"@,
        }
    }

    /// The name under which the resource type stands in a policy.
    pub fn name(&self) -> (r: String)
        ensures
            r@ == self.spec_name(),
    {
        match self {
            AclResources::Memberships => "Memberships".to_owned(),
            AclResources::Invitations => "Invitations".to_owned(),
            AclResources::Organizations => "Organizations".to_owned(),
            AclResources::Operators => "Operators".to_owned(),
            AclResources::Users => "Users".to_owned(),
        }
    }
}

/// Every resource type of the schema: the permissions `list`, `details`,
/// `create`, `accept`, `update` and `delete`; the roles `readonly` and
/// `manager`; `readonly` if `manager`; `list` and `details` if `readonly`; the
/// other four if `manager`.
pub open spec fn acl_schema(name: Seq<char>) -> ResourceTypeView {
    ResourceTypeView {
        name,
        permissions: seq!["list"@, "details"@, "create"@, "accept"@, "update"@, "delete"@],
        roles: seq!["readonly"@, "manager"@],
        implications: seq![("readonly"@, "manager"@)],
        grants: seq![
            ("list"@, "readonly"@),
            ("details"@, "readonly"@),
            ("create"@, "manager"@),
            ("accept"@, "manager"@),
            ("update"@, "manager"@),
            ("delete"@, "manager"@),
        ],
    }
}

pub open spec fn acl_schema_all() -> Seq<ResourceTypeView> {
    seq![
        acl_schema("Memberships"@),
        acl_schema("Invitations"@),
        acl_schema("Organizations"@),
        acl_schema("Operators"@),
        acl_schema("Users"@),
    ]
}

fn grant(permission: &str, role: &str) -> (r: PermissionGrant)
    ensures
        r@ == (permission@, role@),
{
    PermissionGrant { permission: permission.to_owned(), role: role.to_owned() }
}

/// The schema's declarations for one resource type.
pub fn acl_resource_type(kind: AclResources) -> (r: ResourceType)
    ensures
        r@ == acl_schema(kind.spec_name()),
{
    let permissions = vec![
        "list".to_owned(),
        "details".to_owned(),
        "create".to_owned(),
        "accept".to_owned(),
        "update".to_owned(),
        "delete".to_owned(),
    ];
    let roles = vec!["readonly".to_owned(), "manager".to_owned()];
    let implications = vec![
        RoleImplication { implied: "readonly".to_owned(), implied_by: "manager".to_owned() },
    ];
    let grants = vec![
        grant("list", "readonly"),
        grant("details", "readonly"),
        grant("create", "manager"),
        grant("accept", "manager"),
        grant("update", "manager"),
        grant("delete", "manager"),
    ];
    let r = ResourceType { name: kind.name(), permissions, roles, implications, grants };
    proof {
        let s = acl_schema(kind.spec_name());
        assert(r@.permissions =~= s.permissions);
        assert(r@.roles =~= s.roles);
        assert(r@.implications =~= s.implications);
        assert(r@.grants =~= s.grants);
    }
    r
}

proof fn lemma_readonly_reaches_only_itself(name: Seq<char>, x: Seq<char>, n: nat)
    requires
        reaches_within(acl_schema(name), "readonly"@, x, n),
    ensures
        x == "readonly"@,
    decreases n,
{
    let t = acl_schema(name);
    if n > 0 {
        let prev = (n - 1) as nat;
        if reaches_within(t, "readonly"@, x, prev) {
            lemma_readonly_reaches_only_itself(name, x, prev);
        } else {
            let mid = choose|mid: Seq<char>|
                reaches_within(t, "readonly"@, mid, prev) && #[trigger] implies_directly(t, mid, x);
            lemma_readonly_reaches_only_itself(name, mid, prev);
            let q = choose|q: int| 0 <= q < t.implications.len() && t.implications[q] == (x, mid);
            assert(q == 0);
            reveal_strlit("readonly");
            reveal_strlit("manager");
            assert("readonly"@ != "manager"@) by {
                assert("readonly"@.len() != "manager"@.len());
            }
        }
    }
}

/// Each resource type of the schema is well-formed.
proof fn lemma_acl_schema_sound(name: Seq<char>)
    ensures
        !has_duplicate_names(acl_schema(name)),
        !has_undeclared_role(acl_schema(name)),
        !has_undeclared_permission(acl_schema(name)),
        !has_cycle(acl_schema(name)),
{
    let t = acl_schema(name);
    reveal_strlit("list");
    reveal_strlit("details");
    reveal_strlit("create");
    reveal_strlit("accept");
    reveal_strlit("update");
    reveal_strlit("delete");
    reveal_strlit("readonly");
    reveal_strlit("manager");
    assert(t.permissions.no_duplicates()) by {
        assert forall|i: int, j: int| 0 <= i < t.permissions.len() && 0 <= j < t.permissions.len() && i != j implies t.permissions[i] != t.permissions[j] by {
            if t.permissions[i] == t.permissions[j] {
                assert(t.permissions[i][0] == t.permissions[j][0]);
                assert(t.permissions[i].len() == t.permissions[j].len());
            }
        }
    }
    assert(t.roles.no_duplicates()) by {
        assert("readonly"@.len() != "manager"@.len());
    }
    assert(t.roles.contains("readonly"@)) by {
        assert(t.roles[0] == "readonly"@);
    }
    assert(t.roles.contains("manager"@)) by {
        assert(t.roles[1] == "manager"@);
    }
    assert forall|i: int| 0 <= i < t.grants.len() implies t.permissions.contains(#[trigger] t.grants[i].0) && t.roles.contains(t.grants[i].1) by {
        assert(t.permissions[i] == t.grants[i].0);
    }
    assert forall|a: Seq<char>, b: Seq<char>| #[trigger] implies_directly(t, a, b) implies !reaches(t, b, a) by {
        let q = choose|q: int| 0 <= q < t.implications.len() && t.implications[q] == (b, a);
        assert(q == 0);
        if reaches(t, b, a) {
            let n = choose|n: nat| reaches_within(t, b, a, n);
            lemma_readonly_reaches_only_itself(name, a, n);
            assert("readonly"@.len() != "manager"@.len());
        }
    }
}

/// The schema's resource types, one for each kind, in declaration order.
pub fn acl_resource_types() -> (r: Vec<ResourceType>)
    ensures
        view_all(r@) == acl_schema_all(),
{
    let r = vec![
        acl_resource_type(AclResources::Memberships),
        acl_resource_type(AclResources::Invitations),
        acl_resource_type(AclResources::Organizations),
        acl_resource_type(AclResources::Operators),
        acl_resource_type(AclResources::Users),
    ];
    assert(view_all(r@) =~= acl_schema_all());
    r
}

/// The schema's policy, validated.
pub fn acl_policy() -> (r: Result<Policy, PolicyError>)
    ensures
        r is Ok,
        match r {
            Ok(p) => p@ == acl_schema_all(),
            Err(_) => false,
        },
{
    let defs = acl_resource_types();
    proof {
        let p = acl_schema_all();
        reveal_strlit("Memberships");
        reveal_strlit("Invitations");
        reveal_strlit("Organizations");
        reveal_strlit("Operators");
        reveal_strlit("Users");
        assert(type_names(p) =~= seq!["Memberships"@, "Invitations"@, "Organizations"@, "Operators"@, "Users"@]);
        assert(type_names(p).no_duplicates()) by {
            assert forall|i: int, j: int| 0 <= i < 5 && 0 <= j < 5 && i != j implies type_names(p)[i] != type_names(p)[j] by {
                if type_names(p)[i] == type_names(p)[j] {
                    assert(type_names(p)[i][0] == type_names(p)[j][0]);
                    assert(type_names(p)[i].len() == type_names(p)[j].len());
                }
            }
        }
        lemma_acl_schema_sound("Memberships"@);
        lemma_acl_schema_sound("Invitations"@);
        lemma_acl_schema_sound("Organizations"@);
        lemma_acl_schema_sound("Operators"@);
        lemma_acl_schema_sound("Users"@);
        assert forall|q: int| 0 <= q < p.len() implies !has_duplicate_names(#[trigger] p[q]) && !has_undeclared_role(p[q])
            && !has_undeclared_permission(p[q]) && !has_cycle(p[q]) by {
            assert(p[q] == acl_schema(p[q].name));
        }
    }
    Policy::new(defs)
}

} // verus!
