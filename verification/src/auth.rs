//! Authentication and authorization foundations.

use crate::text::{blank, is_blank, is_space};
use vstd::prelude::*;

verus! {

/// Whether a validation outcome reports exactly the given fault.
pub open spec fn reports(outcome: Result<(), String>, fault: Option<Seq<char>>) -> bool {
    match (outcome, fault) {
        (Ok(_), None) => true,
        (Err(message), Some(expected)) => message@ == expected,
        _ => false,
    }
}

/// Coarse legacy access tiers kept for broad runtime splits.
#[derive(Clone, Copy, Debug, PartialEq, Eq, Structural)]
pub enum AccessTier {
    /// Full cluster administration privileges.
    Operator,
    /// Standard application workload privileges.
    Service,
    /// Read-only observability and metadata access.
    Observer,
}

/// Principal kind tracked by authn and authz policies.
#[derive(Clone, Copy, Debug, PartialEq, Eq, Structural)]
pub enum PrincipalKind {
    /// Human operator or end-user identity.
    User,
    /// Non-human application or workload identity.
    Service,
}

/// Supported authentication modes for database-scoped policy.
#[derive(Clone, Copy, Debug, PartialEq, Eq, Structural)]
pub enum AuthenticationMode {
    /// No caller authentication is enforced.
    Disabled,
    /// Static username/password authentication.
    Password,
    /// Mutual TLS authentication.
    MutualTls,
    /// External token validation such as OIDC or JWT.
    ExternalToken,
}

/// One authenticated principal.
#[derive(Debug, PartialEq, Eq)]
pub struct Principal {
    /// Stable principal name.
    pub name: String,
    /// Principal classification.
    pub kind: PrincipalKind,
}

impl Clone for Principal {
    fn clone(&self) -> (copy: Self)
        ensures
            copy == *self,
    {
        Principal { name: self.name.clone(), kind: self.kind }
    }
}

impl Principal {
    /// What is wrong with the principal, if anything.
    pub open spec fn fault(self) -> Option<Seq<char>> {
        if is_blank(self.name@) {
            Some("principal name must not be empty"@)
        } else {
            None
        }
    }

    /// Build one principal.
    pub fn new(name: &str, kind: PrincipalKind) -> (principal: Self)
        ensures
            principal.name@ == name@,
            principal.kind == kind,
    {
        Principal { name: name.to_owned(), kind }
    }

    /// Validate principal shape.
    pub fn validate(&self) -> (outcome: Result<(), String>)
        ensures
            reports(outcome, self.fault()),
    {
        if blank(&self.name) {
            return Err("principal name must not be empty".to_owned());
        }
        Ok(())
    }
}

/// Database-scoped role.
#[derive(Clone, Copy, Debug, PartialEq, Eq, Structural)]
pub enum DatabaseRole {
    /// Full ownership including policy changes.
    Owner,
    /// Read and write collection data plus inspect metadata.
    ReadWrite,
    /// Read-only access to query and inspect workflows.
    ReadOnly,
}

/// Binding between one principal and one database role.
#[derive(Debug, PartialEq, Eq)]
pub struct DatabaseRoleBinding {
    /// Database this binding applies to.
    pub database_name: String,
    /// Principal receiving the role.
    pub principal_name: String,
    /// Granted role.
    pub role: DatabaseRole,
}

impl Clone for DatabaseRoleBinding {
    fn clone(&self) -> (copy: Self)
        ensures
            copy == *self,
    {
        DatabaseRoleBinding {
            database_name: self.database_name.clone(),
            principal_name: self.principal_name.clone(),
            role: self.role,
        }
    }
}

impl DatabaseRoleBinding {
    /// What is wrong with the binding, if anything.
    pub open spec fn fault(self) -> Option<Seq<char>> {
        if is_blank(self.database_name@) {
            Some("database_name must not be empty"@)
        } else if is_blank(self.principal_name@) {
            Some("principal_name must not be empty"@)
        } else {
            None
        }
    }

    /// Validate binding shape.
    pub fn validate(&self) -> (outcome: Result<(), String>)
        ensures
            reports(outcome, self.fault()),
    {
        if blank(&self.database_name) {
            return Err("database_name must not be empty".to_owned());
        }
        if blank(&self.principal_name) {
            return Err("principal_name must not be empty".to_owned());
        }
        Ok(())
    }
}

/// The fault of the earliest faulty binding among the first `count`.
pub open spec fn first_binding_fault(bindings: Seq<DatabaseRoleBinding>, count: nat) -> Option<
    Seq<char>,
>
    decreases count,
{
    if count == 0 {
        None
    } else {
        match first_binding_fault(bindings, (count - 1) as nat) {
            Some(fault) => Some(fault),
            None => bindings[count - 1].fault(),
        }
    }
}

/// Database-scoped policy object that combines authn mode and authz bindings.
#[derive(Debug, PartialEq, Eq)]
pub struct DatabaseAccessPolicy {
    /// Authentication mode required for the database.
    pub authentication_mode: AuthenticationMode,
    /// Explicit principal-to-role mappings for the database.
    pub role_bindings: Vec<DatabaseRoleBinding>,
}

impl DatabaseAccessPolicy {
    /// What is wrong with the policy, if anything.
    pub open spec fn fault(self) -> Option<Seq<char>> {
        first_binding_fault(self.role_bindings@, self.role_bindings@.len())
    }

    /// Build a policy with no bindings yet.
    pub fn new(authentication_mode: AuthenticationMode) -> (policy: Self)
        ensures
            policy.authentication_mode == authentication_mode,
            policy.role_bindings@ == Seq::<DatabaseRoleBinding>::empty(),
    {
        DatabaseAccessPolicy { authentication_mode, role_bindings: Vec::new() }
    }

    /// Validate the policy contents.
    pub fn validate(&self) -> (outcome: Result<(), String>)
        ensures
            reports(outcome, self.fault()),
    {
        let mut index: usize = 0;
        while index < self.role_bindings.len()
            invariant
                index <= self.role_bindings@.len(),
                first_binding_fault(self.role_bindings@, index as nat) is None,
            decreases self.role_bindings@.len() - index,
        {
            let outcome = self.role_bindings[index].validate();
            if outcome.is_err() {
                proof {
                    lemma_binding_fault_stays(
                        self.role_bindings@,
                        (index + 1) as nat,
                        self.role_bindings@.len(),
                    );
                }
                return outcome;
            }
            index = index + 1;
        }
        Ok(())
    }
}

/// A policy together with the database that it is for.
#[derive(Debug, PartialEq, Eq)]
pub struct ScopedAccessPolicy {
    /// Name of the database.
    pub database_name: String,
    /// Its policy.
    pub policy: DatabaseAccessPolicy,
}

proof fn lemma_binding_fault_stays(bindings: Seq<DatabaseRoleBinding>, early: nat, late: nat)
    requires
        early <= late,
        first_binding_fault(bindings, early) is Some,
    ensures
        first_binding_fault(bindings, late) == first_binding_fault(bindings, early),
    decreases late,
{
    if early < late {
        lemma_binding_fault_stays(bindings, early, (late - 1) as nat);
    }
}

/// A policy is valid exactly when each of its bindings is.
pub proof fn law_policy_valid_iff_bindings_valid(policy: DatabaseAccessPolicy)
    ensures
        policy.fault() is None <==> forall|i: int|
            0 <= i < policy.role_bindings@.len() ==> (
            #[trigger] policy.role_bindings@[i]).fault() is None,
{
    let bindings = policy.role_bindings@;
    if policy.fault() is None {
        assert forall|i: int| 0 <= i < bindings.len() implies (
        #[trigger] bindings[i]).fault() is None by {
            if bindings[i].fault() is Some {
                lemma_binding_fault_shows(bindings, i);
            }
        }
    } else {
        lemma_binding_fault_source(bindings, bindings.len());
    }
}

proof fn lemma_binding_fault_shows(bindings: Seq<DatabaseRoleBinding>, i: int)
    requires
        0 <= i < bindings.len(),
        bindings[i].fault() is Some,
    ensures
        first_binding_fault(bindings, bindings.len()) is Some,
{
    assert(first_binding_fault(bindings, (i + 1) as nat) is Some);
    lemma_binding_fault_stays(bindings, (i + 1) as nat, bindings.len());
}

proof fn lemma_binding_fault_source(bindings: Seq<DatabaseRoleBinding>, count: nat)
    requires
        count <= bindings.len(),
        first_binding_fault(bindings, count) is Some,
    ensures
        exists|i: int| 0 <= i < count && (#[trigger] bindings[i]).fault() is Some,
    decreases count,
{
    if first_binding_fault(bindings, (count - 1) as nat) is Some {
        lemma_binding_fault_source(bindings, (count - 1) as nat);
    } else {
        assert(bindings[count - 1].fault() is Some);
    }
}

/// A binding is valid exactly when both its names hold something but whitespace, and so is a
/// principal with its name; a policy is valid exactly when each of its bindings is.
pub proof fn law_names_must_say_something(
    principal: Principal,
    binding: DatabaseRoleBinding,
    policy: DatabaseAccessPolicy,
)
    ensures
        principal.fault() is None <==> exists|i: int|
            0 <= i < principal.name@.len() && !is_space(#[trigger] principal.name@[i]),
        binding.fault() is None <==> (exists|i: int|
            0 <= i < binding.database_name@.len() && !is_space(
                #[trigger] binding.database_name@[i],
            )) && (exists|i: int|
            0 <= i < binding.principal_name@.len() && !is_space(
                #[trigger] binding.principal_name@[i],
            )),
        policy.fault() is None <==> forall|i: int|
            0 <= i < policy.role_bindings@.len() ==> !is_blank(
                (#[trigger] policy.role_bindings@[i]).database_name@,
            ) && !is_blank(policy.role_bindings@[i].principal_name@),
{
    law_policy_valid_iff_bindings_valid(policy);
    let bindings = policy.role_bindings@;
    if policy.fault() is None {
        assert forall|i: int| 0 <= i < bindings.len() implies !is_blank(
            (#[trigger] bindings[i]).database_name@,
        ) && !is_blank(bindings[i].principal_name@) by {
            assert(bindings[i].fault() is None);
        }
    }
    if forall|i: int|
        0 <= i < bindings.len() ==> !is_blank((#[trigger] bindings[i]).database_name@) && !is_blank(
            bindings[i].principal_name@,
        ) {
        assert forall|i: int| 0 <= i < bindings.len() implies (
        #[trigger] bindings[i]).fault() is None by {
            assert(!is_blank(bindings[i].database_name@));
        }
    }
}

/// What keeps a principal or a binding from being valid is named, the database first.
pub proof fn law_blank_names_are_named(principal: Principal, binding: DatabaseRoleBinding)
    ensures
        is_blank(principal.name@) ==> principal.fault() == Some(
            "principal name must not be empty"@,
        ),
        is_blank(binding.database_name@) ==> binding.fault() == Some(
            "database_name must not be empty"@,
        ),
        !is_blank(binding.database_name@) && is_blank(binding.principal_name@) ==> binding.fault()
            == Some("principal_name must not be empty"@),
{
}

/// Of a policy, the first binding that is not valid is reported.
pub proof fn law_first_unfit_bindings_are_reported(policy: DatabaseAccessPolicy, index: int)
    requires
        0 <= index < policy.role_bindings@.len(),
        policy.role_bindings@[index].fault() is Some,
        forall|i: int| 0 <= i < index ==> (#[trigger] policy.role_bindings@[i]).fault() is None,
    ensures
        policy.fault() == policy.role_bindings@[index].fault(),
{
    lemma_first_unfit(policy.role_bindings@, index, policy.role_bindings@.len());
}

proof fn lemma_first_unfit(bindings: Seq<DatabaseRoleBinding>, index: int, count: nat)
    requires
        0 <= index < bindings.len(),
        count <= bindings.len(),
        bindings[index].fault() is Some,
        forall|i: int| 0 <= i < index ==> (#[trigger] bindings[i]).fault() is None,
    ensures
        count <= index ==> first_binding_fault(bindings, count) is None,
        count > index ==> first_binding_fault(bindings, count) == bindings[index].fault(),
    decreases count,
{
    if count > 0 {
        lemma_first_unfit(bindings, index, (count - 1) as nat);
        if count <= index {
            assert(bindings[count - 1].fault() is None);
        }
    }
}

} // verus!
