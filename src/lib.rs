//! A role-based authorization decision engine.
//!
//! A policy declares resource types, each with its permissions, its roles, a
//! role hierarchy ("role A if role B") and permission grants ("permission P if
//! role R"). A validated policy answers whether an actor holding one role may
//! perform an action on a resource type: the role's closure under the
//! hierarchy must hold a role that is granted the action.

mod model;
mod names;
mod resolver;
mod policy;
mod engine;
mod laws;
mod acl;

pub use model::{
    AclUser, PermissionGrant, PolicyError, ResourceType, ResourceTypeView, RoleImplication,
};
pub use policy::Policy;
pub use engine::hello_pgzan;
pub use laws::{
    lemma_added_implication_grows, lemma_closure_without_implications, lemma_decision_repeatable,
    lemma_fail_closed, lemma_mutual_implication_rejected, with_implication,
};
pub use acl::{acl_policy, acl_resource_type, acl_resource_types, AclResources};
