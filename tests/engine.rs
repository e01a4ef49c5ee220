use pgzan::{
    acl_policy, acl_resource_types, hello_pgzan, AclResources, AclUser, PermissionGrant, Policy,
    PolicyError, ResourceType, RoleImplication,
};

fn strings(v: &[&str]) -> Vec<String> {
    v.iter().map(|s| s.to_string()).collect()
}

fn resource(
    name: &str,
    permissions: &[&str],
    roles: &[&str],
    implications: &[(&str, &str)],
    grants: &[(&str, &str)],
) -> ResourceType {
    ResourceType {
        name: name.to_string(),
        permissions: strings(permissions),
        roles: strings(roles),
        implications: implications
            .iter()
            .map(|(implied, by)| RoleImplication {
                implied: implied.to_string(),
                implied_by: by.to_string(),
            })
            .collect(),
        grants: grants
            .iter()
            .map(|(p, r)| PermissionGrant { permission: p.to_string(), role: r.to_string() })
            .collect(),
    }
}

fn actor(role: &str) -> AclUser {
    AclUser { id: 7, role: role.to_string() }
}

fn allowed(p: &Policy, role: &str, action: &str, rt: &str) -> bool {
    p.is_allowed(&actor(role), &action.to_string(), &rt.to_string())
}

fn sorted(mut v: Vec<String>) -> Vec<String> {
    v.sort();
    v
}

fn error_of(r: Result<Policy, PolicyError>) -> PolicyError {
    match r {
        Ok(_) => panic!("policy was accepted"),
        Err(e) => e,
    }
}

#[test]
fn greeting() {
    assert_eq!("Hello, pgzan", hello_pgzan());
}

#[test]
fn manager_may_update_organizations() {
    let p = acl_policy().unwrap();
    assert!(allowed(&p, "manager", "update", "Organizations"));
}

#[test]
fn readonly_may_not_update_organizations() {
    let p = acl_policy().unwrap();
    assert!(!allowed(&p, "readonly", "update", "Organizations"));
}

#[test]
fn readonly_may_list_organizations() {
    let p = acl_policy().unwrap();
    assert!(allowed(&p, "readonly", "list", "Organizations"));
}

#[test]
fn manager_may_list_through_closure() {
    let p = acl_policy().unwrap();
    assert!(allowed(&p, "manager", "list", "Organizations"));
}

#[test]
fn unknown_role_is_denied() {
    let p = acl_policy().unwrap();
    assert!(!allowed(&p, "unknown", "list", "Organizations"));
}

#[test]
fn unknown_action_is_denied() {
    let p = acl_policy().unwrap();
    assert!(!allowed(&p, "manager", "nonexistent_action", "Organizations"));
}

#[test]
fn unknown_resource_type_is_denied() {
    let p = acl_policy().unwrap();
    assert!(!allowed(&p, "manager", "update", "Invoices"));
}

#[test]
fn every_schema_permission_by_role() {
    let p = acl_policy().unwrap();
    for kind in [
        AclResources::Memberships,
        AclResources::Invitations,
        AclResources::Organizations,
        AclResources::Operators,
        AclResources::Users,
    ] {
        let rt = kind.name();
        for action in ["list", "details", "create", "accept", "update", "delete"] {
            assert!(allowed(&p, "manager", action, &rt));
            let readable = action == "list" || action == "details";
            assert_eq!(allowed(&p, "readonly", action, &rt), readable);
        }
    }
}

#[test]
fn resource_names() {
    assert_eq!(AclResources::Organizations.name(), "Organizations");
    assert_eq!(AclResources::Users.name(), "Users");
    assert_eq!(acl_resource_types().len(), 5);
}

#[test]
fn decisions_repeat() {
    let p = acl_policy().unwrap();
    for _ in 0..3 {
        assert!(allowed(&p, "manager", "delete", "Users"));
        assert!(!allowed(&p, "readonly", "delete", "Users"));
    }
}

#[test]
fn unreadable_actor_is_denied() {
    let p = acl_policy().unwrap();
    let update = "update".to_string();
    let orgs = "Organizations".to_string();
    assert!(!p.decide(&Err(PolicyError::InvalidActor), &update, &orgs));
    assert!(p.decide(&Ok(actor("manager")), &update, &orgs));
    assert!(!p.decide(&Ok(actor("readonly")), &update, &orgs));
}

#[test]
fn closure_of_manager() {
    let p = acl_policy().unwrap();
    let c = p.closure(&"Organizations".to_string(), &"manager".to_string()).unwrap();
    assert_eq!(sorted(c), strings(&["manager", "readonly"]));
    let c = p.closure(&"Organizations".to_string(), &"readonly".to_string()).unwrap();
    assert_eq!(c, strings(&["readonly"]));
}

#[test]
fn closure_of_undeclared_role() {
    let p = acl_policy().unwrap();
    let r = p.closure(&"Organizations".to_string(), &"owner".to_string());
    assert_eq!(r.unwrap_err(), PolicyError::UndeclaredRole);
    let r = p.closure(&"Invoices".to_string(), &"manager".to_string());
    assert_eq!(r.unwrap_err(), PolicyError::UndeclaredRole);
}

#[test]
fn closure_without_implications_is_the_role() {
    let t = resource("Docs", &["read"], &["a", "b", "c"], &[], &[("read", "a")]);
    let p = Policy::new(vec![t]).unwrap();
    for role in ["a", "b", "c"] {
        let c = p.closure(&"Docs".to_string(), &role.to_string()).unwrap();
        assert_eq!(c, strings(&[role]));
    }
}

#[test]
fn closure_is_transitive() {
    let t = resource(
        "Docs",
        &["read", "write", "admin"],
        &["viewer", "editor", "owner", "guest"],
        &[("viewer", "editor"), ("editor", "owner")],
        &[("read", "viewer"), ("write", "editor"), ("admin", "owner")],
    );
    let p = Policy::new(vec![t]).unwrap();
    let c = p.closure(&"Docs".to_string(), &"owner".to_string()).unwrap();
    assert_eq!(sorted(c), strings(&["editor", "owner", "viewer"]));
    assert!(allowed(&p, "owner", "read", "Docs"));
    assert!(allowed(&p, "editor", "read", "Docs"));
    assert!(!allowed(&p, "editor", "admin", "Docs"));
    assert!(!allowed(&p, "guest", "read", "Docs"));
}

#[test]
fn permissions_are_scoped_to_their_resource_type() {
    let a = resource("A", &["read"], &["r"], &[], &[("read", "r")]);
    let b = resource("B", &["read", "write"], &["r"], &[], &[("write", "r")]);
    let p = Policy::new(vec![a, b]).unwrap();
    assert!(allowed(&p, "r", "read", "A"));
    assert!(!allowed(&p, "r", "read", "B"));
    assert!(allowed(&p, "r", "write", "B"));
    assert!(!allowed(&p, "r", "write", "A"));
}

#[test]
fn lookups() {
    let p = acl_policy().unwrap();
    let orgs = "Organizations".to_string();
    assert_eq!(p.permissions_of(&orgs).unwrap().len(), 6);
    assert_eq!(p.roles_of(&orgs).unwrap(), &strings(&["readonly", "manager"]));
    let imps = p.implications_of(&orgs).unwrap();
    assert_eq!(imps.len(), 1);
    assert_eq!(imps[0].implied, "readonly");
    assert_eq!(imps[0].implied_by, "manager");
    assert_eq!(p.grants_of(&orgs).unwrap().len(), 6);
    assert!(p.resource_type(&"Invoices".to_string()).is_none());
    assert!(p.permissions_of(&"Invoices".to_string()).is_none());
}

#[test]
fn duplicate_resource_type_is_refused() {
    let a = resource("A", &["read"], &["r"], &[], &[]);
    let b = resource("A", &["write"], &["w"], &[], &[]);
    assert_eq!(error_of(Policy::new(vec![a, b])), PolicyError::DuplicateDeclaration);
}

#[test]
fn duplicate_permission_is_refused() {
    let a = resource("A", &["read", "read"], &["r"], &[], &[]);
    assert_eq!(error_of(Policy::new(vec![a])), PolicyError::DuplicateDeclaration);
}

#[test]
fn duplicate_role_is_refused() {
    let a = resource("A", &["read"], &["r", "w", "r"], &[], &[]);
    assert_eq!(error_of(Policy::new(vec![a])), PolicyError::DuplicateDeclaration);
}

#[test]
fn undeclared_role_in_implication_is_refused() {
    let a = resource("A", &["read"], &["r"], &[("r", "boss")], &[]);
    assert_eq!(error_of(Policy::new(vec![a])), PolicyError::UndeclaredRole);
}

#[test]
fn undeclared_role_in_grant_is_refused() {
    let a = resource("A", &["read"], &["r"], &[], &[("read", "boss")]);
    assert_eq!(error_of(Policy::new(vec![a])), PolicyError::UndeclaredRole);
}

#[test]
fn undeclared_permission_is_refused() {
    let a = resource("A", &["read"], &["r"], &[], &[("write", "r")]);
    assert_eq!(error_of(Policy::new(vec![a])), PolicyError::UndeclaredPermission);
}

#[test]
fn mutual_implication_is_refused_in_either_order() {
    let a = resource("A", &["read"], &["x", "y"], &[("x", "y"), ("y", "x")], &[]);
    assert_eq!(error_of(Policy::new(vec![a])), PolicyError::RoleCycle);
    let a = resource("A", &["read"], &["x", "y"], &[("y", "x"), ("x", "y")], &[]);
    assert_eq!(error_of(Policy::new(vec![a])), PolicyError::RoleCycle);
}

#[test]
fn longer_and_self_cycles_are_refused() {
    let a = resource("A", &[], &["x", "y", "z"], &[("y", "x"), ("z", "y"), ("x", "z")], &[]);
    assert_eq!(error_of(Policy::new(vec![a])), PolicyError::RoleCycle);
    let a = resource("A", &[], &["x"], &[("x", "x")], &[]);
    assert_eq!(error_of(Policy::new(vec![a])), PolicyError::RoleCycle);
}

#[test]
fn diamond_is_not_a_cycle() {
    let a = resource(
        "A",
        &["p"],
        &["top", "left", "right", "bottom"],
        &[("left", "top"), ("right", "top"), ("bottom", "left"), ("bottom", "right")],
        &[("p", "bottom")],
    );
    let p = Policy::new(vec![a]).unwrap();
    assert!(allowed(&p, "top", "p", "A"));
    assert!(allowed(&p, "left", "p", "A"));
}

#[test]
fn duplicates_are_reported_before_cycles() {
    let a = resource("A", &["p", "p"], &["x", "y"], &[("x", "y"), ("y", "x")], &[]);
    assert_eq!(error_of(Policy::new(vec![a])), PolicyError::DuplicateDeclaration);
}

#[test]
fn adding_an_implication_grows_permissions() {
    let before = resource(
        "A",
        &["read", "write"],
        &["reader", "writer"],
        &[],
        &[("read", "reader"), ("write", "writer")],
    );
    let after = resource(
        "A",
        &["read", "write"],
        &["reader", "writer"],
        &[("reader", "writer")],
        &[("read", "reader"), ("write", "writer")],
    );
    let p = Policy::new(vec![before]).unwrap();
    let q = Policy::new(vec![after]).unwrap();
    assert!(!allowed(&p, "writer", "read", "A"));
    assert!(allowed(&p, "writer", "write", "A"));
    assert!(allowed(&q, "writer", "read", "A"));
    assert!(allowed(&q, "writer", "write", "A"));
    assert!(allowed(&q, "reader", "read", "A"));
    assert!(!allowed(&q, "reader", "write", "A"));
}
