//! Who may do what: authentication by bearer token and database permissions.

use crate::auth::{AccessTier, AuthenticationMode, DatabaseAccessPolicy, DatabaseRole, Principal};
use crate::config::{AuthConfig, BootstrapTokenConfig};
use crate::namespace::{parse_collection_reference, parsed_reference};
use crate::text::same_text;
use crate::types::{ServiceError, ServiceErrorKind, ServiceErrorModel};
use vstd::prelude::*;
use vstd::string::*;

verus! {

/// Compare two texts in a time that depends on their lengths alone.
pub fn constant_time_eq(left: &str, right: &str) -> (same: bool)
    ensures
        same == (left@ == right@),
{
    broadcast use vstd::utf8::encode_utf8_decode_utf8;

    let left_bytes = left.as_bytes();
    let right_bytes = right.as_bytes();
    let left_len: usize = left_bytes.len();
    let right_len: usize = right_bytes.len();
    let max_len: usize = if left_len < right_len {
        right_len
    } else {
        left_len
    };
    let mut diff: usize = left_len ^ right_len;
    proof {
        lemma_xor_tells_sizes_apart(left_len, right_len);
    }
    let mut index: usize = 0;
    while index < max_len
        invariant
            index <= max_len,
            left_len == left_bytes@.len(),
            right_len == right_bytes@.len(),
            left_bytes@ == vstd::utf8::encode_utf8(left@),
            right_bytes@ == vstd::utf8::encode_utf8(right@),
            max_len == (if left_len < right_len {
                right_len
            } else {
                left_len
            }),
            diff == 0 <==> left_len == right_len && forall|i: int|
                0 <= i < index ==> #[trigger] left_bytes@[i] == right_bytes@[i],
        decreases max_len - index,
    {
        let left_byte: u8 = if index < left_len {
            left_bytes[index]
        } else {
            0
        };
        let right_byte: u8 = if index < right_len {
            right_bytes[index]
        } else {
            0
        };
        let ghost before = diff;
        diff = diff | (left_byte ^ right_byte) as usize;
        proof {
            lemma_xor_gathers(before, left_byte, right_byte);
            if diff == 0 {
                assert(left_bytes@[index as int] == right_bytes@[index as int]);
            }
        }
        index = index + 1;
    }
    proof {
        if diff == 0 {
            assert(left_bytes@ =~= right_bytes@);
            assert(vstd::utf8::decode_utf8(left_bytes@) == left@);
            assert(vstd::utf8::decode_utf8(right_bytes@) == right@);
        }
    }
    diff == 0
}

proof fn lemma_xor_tells_sizes_apart(left: usize, right: usize)
    ensures
        (left ^ right) == 0 <==> left == right,
{
    assert((left ^ right) == 0 <==> left == right) by (bit_vector);
}

proof fn lemma_xor_gathers(gathered: usize, left: u8, right: u8)
    ensures
        (gathered | (left ^ right) as usize) == 0 <==> gathered == 0 && left == right,
{
    assert((gathered | (left ^ right) as usize) == 0 <==> gathered == 0 && left == right)
        by (bit_vector);
}

/// Transport-neutral request authentication context.
#[derive(Debug)]
pub struct RequestAuth {
    bearer_token: Option<String>,
}

impl Default for RequestAuth {
    fn default() -> (auth: Self)
        ensures
            auth@ == None::<Seq<char>>,
    {
        RequestAuth { bearer_token: None }
    }
}

impl View for RequestAuth {
    type V = Option<Seq<char>>;

    closed spec fn view(&self) -> Option<Seq<char>> {
        match self.bearer_token {
            Some(token) => Some(token@),
            None => None,
        }
    }
}

impl RequestAuth {
    /// Build a request auth context with one bearer token.
    pub fn bearer_token(token: &str) -> (auth: Self)
        ensures
            auth@ == Some(token@),
    {
        RequestAuth { bearer_token: Some(token.to_owned()) }
    }

    /// The bearer token of the request.
    pub fn bearer_token_str(&self) -> (token: Option<&str>)
        ensures
            token is Some <==> self@ is Some,
            token matches Some(text) ==> self@ == Some(text@),
    {
        match &self.bearer_token {
            Some(token) => Some(token.as_str()),
            None => None,
        }
    }
}

/// A principal together with its legacy access tier.
#[derive(Debug, PartialEq, Eq)]
pub struct AuthenticatedPrincipal {
    /// Who the caller is.
    pub principal: Principal,
    /// Coarse tier of the caller.
    pub access_tier: AccessTier,
}

/// What a caller wants to do with a database.
#[derive(Clone, Copy, Debug, PartialEq, Eq, Structural)]
pub enum DatabasePermission {
    /// Read collections.
    ReadOnly,
    /// Read and change collections.
    ReadWrite,
    /// Change the policy of the database.
    Owner,
}

/// Whether a role grants a permission.
pub open spec fn role_grants(role: DatabaseRole, permission: DatabasePermission) -> bool {
    match permission {
        DatabasePermission::ReadOnly => true,
        DatabasePermission::ReadWrite => role != DatabaseRole::ReadOnly,
        DatabasePermission::Owner => role == DatabaseRole::Owner,
    }
}

/// Whether a role grants a permission.
pub fn database_role_satisfies(role: &DatabaseRole, permission: DatabasePermission) -> (granted:
    bool)
    ensures
        granted == role_grants(*role, permission),
        permission == DatabasePermission::ReadOnly ==> granted,
        permission == DatabasePermission::ReadWrite ==> granted == (*role == DatabaseRole::ReadWrite
            || *role == DatabaseRole::Owner),
        permission == DatabasePermission::Owner ==> granted == (*role == DatabaseRole::Owner),
{
    match permission {
        DatabasePermission::ReadOnly => true,
        DatabasePermission::ReadWrite => match role {
            DatabaseRole::ReadWrite => true,
            DatabaseRole::Owner => true,
            DatabaseRole::ReadOnly => false,
        },
        DatabasePermission::Owner => match role {
            DatabaseRole::Owner => true,
            DatabaseRole::ReadWrite => false,
            DatabaseRole::ReadOnly => false,
        },
    }
}

/// Whether some binding of a policy grants a principal a permission.
pub open spec fn policy_grants(
    policy: DatabaseAccessPolicy,
    principal_name: Seq<char>,
    permission: DatabasePermission,
) -> bool {
    exists|i: int|
        0 <= i < policy.role_bindings@.len() && (
        #[trigger] policy.role_bindings@[i]).principal_name@ == principal_name && role_grants(
            policy.role_bindings@[i].role,
            permission,
        )
}

/// Whether some binding of a policy grants a principal a permission.
pub fn policy_allows(
    policy: &DatabaseAccessPolicy,
    principal_name: &str,
    permission: DatabasePermission,
) -> (allowed: bool)
    ensures
        allowed == policy_grants(*policy, principal_name@, permission),
{
    let bindings = &policy.role_bindings;
    let mut index: usize = 0;
    while index < bindings.len()
        invariant
            index <= bindings@.len(),
            bindings@ == policy.role_bindings@,
            forall|i: int|
                0 <= i < index ==> !((#[trigger] policy.role_bindings@[i]).principal_name@
                    == principal_name@ && role_grants(policy.role_bindings@[i].role, permission)),
        decreases bindings@.len() - index,
    {
        let binding = &bindings[index];
        if same_text(&binding.principal_name, principal_name) && database_role_satisfies(
            &binding.role,
            permission,
        ) {
            assert(policy.role_bindings@[index as int].principal_name@ == principal_name@);
            return true;
        }
        index = index + 1;
    }
    false
}

/// Position of the first of the first `count` bootstrap tokens that equals a text.
pub open spec fn token_slot(
    tokens: Seq<BootstrapTokenConfig>,
    token: Seq<char>,
    count: nat,
) -> Option<int>
    decreases count,
{
    if count == 0 {
        None
    } else {
        match token_slot(tokens, token, (count - 1) as nat) {
            Some(position) => Some(position),
            None => if tokens[count - 1].token@ == token {
                Some(count - 1)
            } else {
                None
            },
        }
    }
}

proof fn lemma_token_slot_stays(
    tokens: Seq<BootstrapTokenConfig>,
    token: Seq<char>,
    early: nat,
    late: nat,
)
    requires
        early <= late,
        token_slot(tokens, token, early) is Some,
    ensures
        token_slot(tokens, token, late) == token_slot(tokens, token, early),
    decreases late,
{
    if early < late {
        lemma_token_slot_stays(tokens, token, early, (late - 1) as nat);
    }
}

/// A refusal of a caller that is not known.
pub open spec fn unauthenticated(message: Seq<char>) -> ServiceErrorModel {
    ServiceErrorModel { kind: ServiceErrorKind::Unauthenticated, message }
}

/// The principal that a request's token belongs to; none where no tokens are configured.
pub open spec fn token_principal(
    tokens: Seq<BootstrapTokenConfig>,
    token: Option<Seq<char>>,
) -> Result<Option<AuthenticatedPrincipal>, ServiceErrorModel> {
    if tokens.len() == 0 {
        Ok(None)
    } else {
        match token {
            None => Err(unauthenticated("missing bearer token"@)),
            Some(text) => match token_slot(tokens, text, tokens.len()) {
                None => Err(unauthenticated("invalid bearer token"@)),
                Some(position) => Ok(
                    Some(
                        AuthenticatedPrincipal {
                            principal: tokens[position].principal,
                            access_tier: tokens[position].access_tier,
                        },
                    ),
                ),
            },
        }
    }
}

/// An outcome with its error as a model.
pub open spec fn outcome_model<T>(outcome: Result<T, ServiceError>) -> Result<T, ServiceErrorModel> {
    match outcome {
        Ok(value) => Ok(value),
        Err(error) => Err(error@),
    }
}

/// The principal that a request's token belongs to; none where no tokens are configured.
pub fn authenticate_token(config: &AuthConfig, auth: &RequestAuth) -> (outcome: Result<
    Option<AuthenticatedPrincipal>,
    ServiceError,
>)
    ensures
        outcome_model(outcome) == token_principal(config.bootstrap_tokens@, auth@),
{
    let tokens = &config.bootstrap_tokens;
    if tokens.len() == 0 {
        return Ok(None);
    }
    let token = match auth.bearer_token_str() {
        Some(token) => token,
        None => {
            return Err(ServiceError::Unauthenticated("missing bearer token".to_owned()));
        },
    };
    let mut index: usize = 0;
    while index < tokens.len()
        invariant
            index <= tokens@.len(),
            tokens@.len() > 0,
            tokens@ == config.bootstrap_tokens@,
            auth@ == Some(token@),
            token_slot(tokens@, token@, index as nat) is None,
        decreases tokens@.len() - index,
    {
        if constant_time_eq(&tokens[index].token, token) {
            proof {
                lemma_token_slot_stays(tokens@, token@, (index + 1) as nat, tokens@.len());
            }
            return Ok(
                Some(
                    AuthenticatedPrincipal {
                        principal: tokens[index].principal.clone(),
                        access_tier: tokens[index].access_tier,
                    },
                ),
            );
        }
        index = index + 1;
    }
    Err(ServiceError::Unauthenticated("invalid bearer token".to_owned()))
}

/// What a request has to be allowed to do.
#[derive(Debug, PartialEq, Eq)]
pub enum AccessRequirement {
    /// Administer the cluster.
    Operator,
    /// Do something with a database.
    Database {
        /// Name of the database.
        database_name: String,
        /// What is to be done.
        permission: DatabasePermission,
        /// Whether a policy with authentication disabled lets everybody in.
        open_if_disabled: bool,
    },
}

impl AccessRequirement {
    /// What reading or changing collections of a database requires.
    pub fn database(database_name: &str, permission: DatabasePermission) -> (requirement: Self)
        ensures
            requirement matches AccessRequirement::Database {
                database_name: name,
                permission: wanted,
                open_if_disabled,
            } && name@ == database_name@ && wanted == permission && open_if_disabled,
    {
        AccessRequirement::Database {
            database_name: database_name.to_owned(),
            permission,
            open_if_disabled: true,
        }
    }

    /// What reading or changing the policy of a database requires.
    pub fn database_owner(database_name: &str) -> (requirement: Self)
        ensures
            requirement matches AccessRequirement::Database {
                database_name: name,
                permission: wanted,
                open_if_disabled,
            } && name@ == database_name@ && wanted == DatabasePermission::Owner
                && !open_if_disabled,
    {
        AccessRequirement::Database {
            database_name: database_name.to_owned(),
            permission: DatabasePermission::Owner,
            open_if_disabled: false,
        }
    }
}

/// What is done with one collection.
#[derive(Clone, Copy, Debug, PartialEq, Eq, Structural)]
pub enum CollectionOperation {
    /// Read its descriptor.
    Describe,
    /// Write a batch of records.
    Write,
    /// Search it.
    Query,
    /// Read its statistics.
    Stats,
    /// Flush it.
    Flush,
    /// Compact it.
    Compact,
    /// Look at its storage state.
    Inspect,
}

impl CollectionOperation {
    /// What the operation needs on the database of the collection, as a model.
    pub open spec fn needs(self) -> DatabasePermission {
        match self {
            CollectionOperation::Write => DatabasePermission::ReadWrite,
            CollectionOperation::Flush => DatabasePermission::ReadWrite,
            CollectionOperation::Compact => DatabasePermission::ReadWrite,
            _ => DatabasePermission::ReadOnly,
        }
    }

    /// What the operation needs on the database of the collection.
    pub fn permission(&self) -> (permission: DatabasePermission)
        ensures
            permission == self.needs(),
            permission == DatabasePermission::ReadOnly <==> (*self == CollectionOperation::Describe
                || *self == CollectionOperation::Query || *self == CollectionOperation::Stats
                || *self == CollectionOperation::Inspect),
            permission == DatabasePermission::ReadWrite <==> (*self == CollectionOperation::Write
                || *self == CollectionOperation::Flush || *self == CollectionOperation::Compact),
    {
        match self {
            CollectionOperation::Write => DatabasePermission::ReadWrite,
            CollectionOperation::Flush => DatabasePermission::ReadWrite,
            CollectionOperation::Compact => DatabasePermission::ReadWrite,
            CollectionOperation::Describe => DatabasePermission::ReadOnly,
            CollectionOperation::Query => DatabasePermission::ReadOnly,
            CollectionOperation::Stats => DatabasePermission::ReadOnly,
            CollectionOperation::Inspect => DatabasePermission::ReadOnly,
        }
    }
}

/// What an operation on a collection requires; a name that is no collection reference is refused
/// before anybody is asked who they are.
pub fn collection_access(operation: CollectionOperation, collection_name: &str) -> (outcome: Result<
    AccessRequirement,
    ServiceError,
>)
    ensures
        match parsed_reference(collection_name@) {
            Err(fault) => outcome matches Err(error) && error@ == fault,
            Ok(reference) => outcome matches Ok(requirement)
                && requirement matches AccessRequirement::Database {
                database_name,
                permission,
                open_if_disabled,
            } && database_name@ == reference.database_name && permission == operation.needs()
                && open_if_disabled,
        },
{
    match parse_collection_reference(collection_name) {
        Err(error) => Err(error),
        Ok(reference) => Ok(
            AccessRequirement::database(&reference.database_name, operation.permission()),
        ),
    }
}

/// What is done with one database.
#[derive(Clone, Copy, Debug, PartialEq, Eq, Structural)]
pub enum DatabaseOperation {
    /// Create a collection in it.
    CreateCollection,
    /// Read its policy.
    ReadPolicy,
    /// Change its policy.
    ChangePolicy,
}

/// What an operation on a database requires: write access to create collections, and ownership,
/// even where authentication is disabled, for anything about the policy.
pub fn database_access(operation: DatabaseOperation, database_name: &str) -> (requirement:
    AccessRequirement)
    ensures
        requirement matches AccessRequirement::Database {
            database_name: name,
            permission,
            open_if_disabled,
        } && name@ == database_name@ && permission == (if operation
            == DatabaseOperation::CreateCollection {
            DatabasePermission::ReadWrite
        } else {
            DatabasePermission::Owner
        }) && open_if_disabled == (operation == DatabaseOperation::CreateCollection),
{
    match operation {
        DatabaseOperation::CreateCollection => AccessRequirement::database(
            database_name,
            DatabasePermission::ReadWrite,
        ),
        DatabaseOperation::ReadPolicy => AccessRequirement::database_owner(database_name),
        DatabaseOperation::ChangePolicy => AccessRequirement::database_owner(database_name),
    }
}

/// What has to be read before access is decided, together with what is known by then.
pub enum AccessStep {
    /// Read the policy of the database.
    ReadPolicy(PolicyPending),
    /// Read the stored principal of this name.
    ReadPrincipal(PrincipalPending),
    /// Access is granted or refused.
    Decided(Result<(), ServiceError>),
}

/// Access to a database whose policy has to be read.
#[derive(Debug, PartialEq, Eq)]
pub struct PolicyPending {
    /// Name of the database.
    pub database_name: String,
    /// What is to be done.
    pub permission: DatabasePermission,
    /// Whether a policy with authentication disabled lets everybody in.
    pub open_if_disabled: bool,
}

/// What a caller has to be allowed, once the policy has been read.
#[derive(Debug, PartialEq, Eq)]
pub enum AccessScope {
    /// Administer the cluster.
    Operator,
    /// Do something with a database.
    Database {
        /// Name of the database.
        database_name: String,
        /// What is to be done.
        permission: DatabasePermission,
        /// Policy of the database, if it has one.
        policy: Option<DatabaseAccessPolicy>,
    },
}

/// Access by a caller whose stored principal has to be read.
#[derive(Debug, PartialEq, Eq)]
pub struct PrincipalPending {
    /// What the caller has to be allowed.
    pub scope: AccessScope,
    /// The principal that the token is bound to.
    pub bootstrap: AuthenticatedPrincipal,
}

/// An access step with its error as a model.
pub enum AccessStepModel {
    ReadPolicy(PolicyPending),
    ReadPrincipal(PrincipalPending),
    Decided(Result<(), ServiceErrorModel>),
}

impl View for AccessStep {
    type V = AccessStepModel;

    open spec fn view(&self) -> AccessStepModel {
        match *self {
            AccessStep::ReadPolicy(pending) => AccessStepModel::ReadPolicy(pending),
            AccessStep::ReadPrincipal(pending) => AccessStepModel::ReadPrincipal(pending),
            AccessStep::Decided(outcome) => AccessStepModel::Decided(outcome_model(outcome)),
        }
    }
}

/// The step that authenticating for a scope leads to.
pub open spec fn authentication_step(
    scope: AccessScope,
    tokens: Seq<BootstrapTokenConfig>,
    token: Option<Seq<char>>,
) -> AccessStepModel {
    match token_principal(tokens, token) {
        Err(error) => AccessStepModel::Decided(Err(error)),
        Ok(None) => AccessStepModel::Decided(Ok(())),
        Ok(Some(bootstrap)) => AccessStepModel::ReadPrincipal(
            PrincipalPending { scope, bootstrap },
        ),
    }
}

fn authenticate_for(scope: AccessScope, config: &AuthConfig, auth: &RequestAuth) -> (step:
    AccessStep)
    ensures
        step@ == authentication_step(scope, config.bootstrap_tokens@, auth@),
{
    match authenticate_token(config, auth) {
        Err(error) => AccessStep::Decided(Err(error)),
        Ok(None) => AccessStep::Decided(Ok(())),
        Ok(Some(bootstrap)) => AccessStep::ReadPrincipal(PrincipalPending { scope, bootstrap }),
    }
}

/// The first step of a decision on access.
pub open spec fn first_access_step(
    requirement: AccessRequirement,
    tokens: Seq<BootstrapTokenConfig>,
    token: Option<Seq<char>>,
) -> AccessStepModel {
    match requirement {
        AccessRequirement::Operator => authentication_step(AccessScope::Operator, tokens, token),
        AccessRequirement::Database { database_name, permission, open_if_disabled } => {
            AccessStepModel::ReadPolicy(
                PolicyPending { database_name, permission, open_if_disabled },
            )
        },
    }
}

/// Begin to decide whether a request is allowed.
pub fn begin_access(
    requirement: AccessRequirement,
    config: &AuthConfig,
    auth: &RequestAuth,
) -> (step: AccessStep)
    ensures
        step@ == first_access_step(requirement, config.bootstrap_tokens@, auth@),
{
    match requirement {
        AccessRequirement::Operator => authenticate_for(AccessScope::Operator, config, auth),
        AccessRequirement::Database { database_name, permission, open_if_disabled } => {
            AccessStep::ReadPolicy(PolicyPending { database_name, permission, open_if_disabled })
        },
    }
}

impl PolicyPending {
    /// The step that a reading of the policy leads to.
    pub open spec fn after_policy(
        self,
        reply: Result<DatabaseAccessPolicy, ServiceError>,
        tokens: Seq<BootstrapTokenConfig>,
        token: Option<Seq<char>>,
    ) -> AccessStepModel {
        match reply {
            Err(error) => if error@.kind == ServiceErrorKind::NotFound {
                authentication_step(
                    AccessScope::Database {
                        database_name: self.database_name,
                        permission: self.permission,
                        policy: None,
                    },
                    tokens,
                    token,
                )
            } else {
                AccessStepModel::Decided(Err(error@))
            },
            Ok(policy) => if self.open_if_disabled && policy.authentication_mode
                == AuthenticationMode::Disabled {
                AccessStepModel::Decided(Ok(()))
            } else {
                authentication_step(
                    AccessScope::Database {
                        database_name: self.database_name,
                        permission: self.permission,
                        policy: Some(policy),
                    },
                    tokens,
                    token,
                )
            },
        }
    }

    /// Go on with what the reading of the policy gave.
    pub fn policy_read(
        self,
        reply: Result<DatabaseAccessPolicy, ServiceError>,
        config: &AuthConfig,
        auth: &RequestAuth,
    ) -> (step: AccessStep)
        ensures
            step@ == self.after_policy(reply, config.bootstrap_tokens@, auth@),
    {
        let policy = match reply {
            Ok(policy) => Some(policy),
            Err(error) => match error {
                ServiceError::NotFound(_) => None,
                _ => {
                    return AccessStep::Decided(Err(error));
                },
            },
        };
        if self.open_if_disabled {
            if let Some(policy) = &policy {
                if policy.authentication_mode == AuthenticationMode::Disabled {
                    return AccessStep::Decided(Ok(()));
                }
            }
        }
        authenticate_for(
            AccessScope::Database {
                database_name: self.database_name,
                permission: self.permission,
                policy,
            },
            config,
            auth,
        )
    }
}

/// A refusal of a caller that is known.
pub open spec fn denied(message: Seq<char>) -> ServiceErrorModel {
    ServiceErrorModel { kind: ServiceErrorKind::PermissionDenied, message }
}

/// Whether a known caller is allowed what a scope asks for.
pub open spec fn scope_decision(scope: AccessScope, caller: AuthenticatedPrincipal) -> Result<
    (),
    ServiceErrorModel,
> {
    let name = caller.principal.name@;
    if caller.access_tier == AccessTier::Operator {
        Ok(())
    } else {
        match scope {
            AccessScope::Operator => Err(
                denied("principal '"@ + name + "' is not allowed to perform operator actions"@),
            ),
            AccessScope::Database { database_name, permission, policy } => {
                if policy is Some && policy_grants(policy->0, name, permission) {
                    Ok(())
                } else {
                    Err(
                        denied(
                            "principal '"@ + name + "' is not allowed to access database '"@
                                + database_name@ + "'"@,
                        ),
                    )
                }
            },
        }
    }
}

impl PrincipalPending {
    /// The decision that a reading of the stored principal leads to.
    pub open spec fn after_principal(
        self,
        reply: Result<AuthenticatedPrincipal, ServiceError>,
    ) -> Result<(), ServiceErrorModel> {
        match reply {
            Ok(stored) => scope_decision(self.scope, stored),
            Err(error) => if error@.kind == ServiceErrorKind::NotFound {
                scope_decision(self.scope, self.bootstrap)
            } else {
                Err(error@)
            },
        }
    }

    /// Decide with what the reading of the stored principal gave.
    pub fn principal_read(self, reply: Result<AuthenticatedPrincipal, ServiceError>) -> (decision:
        Result<(), ServiceError>)
        ensures
            outcome_model(decision) == self.after_principal(reply),
    {
        let caller = match reply {
            Ok(stored) => stored,
            Err(error) => match error {
                ServiceError::NotFound(_) => self.bootstrap,
                _ => {
                    return Err(error);
                },
            },
        };
        if caller.access_tier == AccessTier::Operator {
            return Ok(());
        }
        let mut message = "principal '".to_owned();
        message.append(&caller.principal.name);
        match &self.scope {
            AccessScope::Operator => {
                message.append("' is not allowed to perform operator actions");
            },
            AccessScope::Database { database_name, permission, policy } => {
                if let Some(policy) = policy {
                    if policy_allows(policy, &caller.principal.name, *permission) {
                        return Ok(());
                    }
                }
                message.append("' is not allowed to access database '");
                message.append(database_name);
                message.append("'");
            },
        }
        Err(ServiceError::PermissionDenied(message))
    }
}

/// What is decided on a request when the policy and the stored principal read as given.
pub open spec fn access_decision(
    requirement: AccessRequirement,
    tokens: Seq<BootstrapTokenConfig>,
    token: Option<Seq<char>>,
    policy: Result<DatabaseAccessPolicy, ServiceError>,
    stored: Result<AuthenticatedPrincipal, ServiceError>,
) -> Result<(), ServiceErrorModel> {
    let step = match first_access_step(requirement, tokens, token) {
        AccessStepModel::ReadPolicy(pending) => pending.after_policy(policy, tokens, token),
        other => other,
    };
    match step {
        AccessStepModel::ReadPrincipal(pending) => pending.after_principal(stored),
        AccessStepModel::Decided(decision) => decision,
        AccessStepModel::ReadPolicy(_) => arbitrary(),
    }
}

/// A role that grants more grants everything that a lesser one does: owners may do what readers
/// and writers may, and these what readers may.
pub proof fn law_roles_nest(permission: DatabasePermission)
    ensures
        role_grants(DatabaseRole::ReadOnly, permission) ==> role_grants(
            DatabaseRole::ReadWrite,
            permission,
        ),
        role_grants(DatabaseRole::ReadWrite, permission) ==> role_grants(
            DatabaseRole::Owner,
            permission,
        ),
        role_grants(DatabaseRole::Owner, permission),
{
}

/// What a permission implies: a role that may own may write, and one that may write may read.
pub proof fn law_permissions_nest(role: DatabaseRole)
    ensures
        role_grants(role, DatabasePermission::Owner) ==> role_grants(
            role,
            DatabasePermission::ReadWrite,
        ),
        role_grants(role, DatabasePermission::ReadWrite) ==> role_grants(
            role,
            DatabasePermission::ReadOnly,
        ),
        role_grants(role, DatabasePermission::ReadOnly),
{
}

/// Where no tokens are configured, nobody is refused, unless the policy cannot be read.
pub proof fn law_no_tokens_lets_everybody_in(
    requirement: AccessRequirement,
    token: Option<Seq<char>>,
    policy: Result<DatabaseAccessPolicy, ServiceError>,
    stored: Result<AuthenticatedPrincipal, ServiceError>,
)
    requires
        policy matches Err(error) ==> error@.kind == ServiceErrorKind::NotFound,
    ensures
        access_decision(requirement, Seq::empty(), token, policy, stored) == Ok::<
            (),
            ServiceErrorModel,
        >(()),
{
}

/// Where tokens are configured, a request without one, or with one that is not configured, is
/// refused as unauthenticated, unless the policy is open or cannot be read.
pub proof fn law_unknown_tokens_are_refused(
    requirement: AccessRequirement,
    tokens: Seq<BootstrapTokenConfig>,
    token: Option<Seq<char>>,
    policy: Result<DatabaseAccessPolicy, ServiceError>,
    stored: Result<AuthenticatedPrincipal, ServiceError>,
)
    requires
        tokens.len() > 0,
        forall|i: int| 0 <= i < tokens.len() ==> Some((#[trigger] tokens[i]).token@) != token,
        requirement is Database ==> match policy {
            Ok(found) => !(requirement->open_if_disabled && found.authentication_mode
                == AuthenticationMode::Disabled),
            Err(error) => error@.kind == ServiceErrorKind::NotFound,
        },
    ensures
        access_decision(requirement, tokens, token, policy, stored) matches Err(error)
            && error.kind == ServiceErrorKind::Unauthenticated,
{
    if token is Some {
        lemma_unknown_token_has_no_slot(tokens, token->0, tokens.len());
    }
}

proof fn lemma_unknown_token_has_no_slot(
    tokens: Seq<BootstrapTokenConfig>,
    token: Seq<char>,
    count: nat,
)
    requires
        count <= tokens.len(),
        forall|i: int| 0 <= i < tokens.len() ==> (#[trigger] tokens[i]).token@ != token,
    ensures
        token_slot(tokens, token, count) is None,
    decreases count,
{
    if count > 0 {
        lemma_unknown_token_has_no_slot(tokens, token, (count - 1) as nat);
        assert(tokens[count - 1].token@ != token);
    }
}

/// A caller whose stored principal is an operator is never refused, whatever the policy says.
pub proof fn law_operators_are_never_refused(
    requirement: AccessRequirement,
    tokens: Seq<BootstrapTokenConfig>,
    token: Option<Seq<char>>,
    policy: Result<DatabaseAccessPolicy, ServiceError>,
    stored: AuthenticatedPrincipal,
)
    requires
        token_principal(tokens, token) is Ok,
        stored.access_tier == AccessTier::Operator,
        policy matches Err(error) ==> error@.kind == ServiceErrorKind::NotFound,
    ensures
        access_decision(
            requirement,
            tokens,
            token,
            policy,
            Ok::<AuthenticatedPrincipal, ServiceError>(stored),
        ) == Ok::<(), ServiceErrorModel>(()),
{
}

/// A known caller below the operator tier gets into a database with a closed policy exactly when
/// a binding of the policy grants the caller's name the permission.
pub proof fn law_bindings_decide(
    database_name: String,
    permission: DatabasePermission,
    open_if_disabled: bool,
    tokens: Seq<BootstrapTokenConfig>,
    token: Option<Seq<char>>,
    policy: DatabaseAccessPolicy,
    stored: AuthenticatedPrincipal,
)
    requires
        token_principal(tokens, token) matches Ok(Some(_)),
        stored.access_tier != AccessTier::Operator,
        !(open_if_disabled && policy.authentication_mode == AuthenticationMode::Disabled),
    ensures
        access_decision(
            AccessRequirement::Database { database_name, permission, open_if_disabled },
            tokens,
            token,
            Ok::<DatabaseAccessPolicy, ServiceError>(policy),
            Ok::<AuthenticatedPrincipal, ServiceError>(stored),
        ) is Ok <==> policy_grants(policy, stored.principal.name@, permission),
{
}

proof fn lemma_slots_agree(
    left: Seq<BootstrapTokenConfig>,
    right: Seq<BootstrapTokenConfig>,
    token: Seq<char>,
    count: nat,
)
    requires
        count <= left.len() == right.len(),
        forall|i: int| 0 <= i < left.len() ==> (#[trigger] left[i]).token@ == right[i].token@,
    ensures
        token_slot(left, token, count) == token_slot(right, token, count),
    decreases count,
{
    if count > 0 {
        lemma_slots_agree(left, right, token, (count - 1) as nat);
        assert(left[count - 1].token@ == right[count - 1].token@);
    }
}

/// Where the catalog stores the principal of a caller, the stored one decides: it does not matter
/// what the tokens are bound to.
pub proof fn law_stored_principals_override(
    requirement: AccessRequirement,
    left: Seq<BootstrapTokenConfig>,
    right: Seq<BootstrapTokenConfig>,
    token: Option<Seq<char>>,
    policy: Result<DatabaseAccessPolicy, ServiceError>,
    stored: AuthenticatedPrincipal,
)
    requires
        left.len() == right.len(),
        forall|i: int| 0 <= i < left.len() ==> (#[trigger] left[i]).token@ == right[i].token@,
    ensures
        access_decision(
            requirement,
            left,
            token,
            policy,
            Ok::<AuthenticatedPrincipal, ServiceError>(stored),
        ) == access_decision(
            requirement,
            right,
            token,
            policy,
            Ok::<AuthenticatedPrincipal, ServiceError>(stored),
        ),
{
    if token is Some {
        lemma_slots_agree(left, right, token->0, left.len());
    }
}

/// Where the catalog stores no principal for a caller, the one that the token is bound to decides.
pub proof fn law_bound_principals_stand_in(
    requirement: AccessRequirement,
    tokens: Seq<BootstrapTokenConfig>,
    token: Option<Seq<char>>,
    policy: Result<DatabaseAccessPolicy, ServiceError>,
    missing: ServiceError,
)
    requires
        missing@.kind == ServiceErrorKind::NotFound,
    ensures
        token_principal(tokens, token) matches Ok(Some(bound)) ==> access_decision(
            requirement,
            tokens,
            token,
            policy,
            Err::<AuthenticatedPrincipal, ServiceError>(missing),
        ) == access_decision(
            requirement,
            tokens,
            token,
            policy,
            Ok::<AuthenticatedPrincipal, ServiceError>(bound),
        ),
{
}

/// A policy with authentication disabled opens a database to whoever works on its collections, but
/// never the policy itself: who wants to own the database is authenticated all the same.
pub proof fn law_disabled_policies_stay_owned(
    database_name: String,
    permission: DatabasePermission,
    tokens: Seq<BootstrapTokenConfig>,
    token: Option<Seq<char>>,
    policy: DatabaseAccessPolicy,
    stored: Result<AuthenticatedPrincipal, ServiceError>,
)
    requires
        policy.authentication_mode == AuthenticationMode::Disabled,
        token_principal(tokens, token) is Err,
    ensures
        access_decision(
            AccessRequirement::Database {
                database_name,
                permission: DatabasePermission::Owner,
                open_if_disabled: false,
            },
            tokens,
            token,
            Ok::<DatabaseAccessPolicy, ServiceError>(policy),
            stored,
        ) is Err,
        access_decision(
            AccessRequirement::Database {
                database_name,
                permission,
                open_if_disabled: true,
            },
            tokens,
            token,
            Ok::<DatabaseAccessPolicy, ServiceError>(policy),
            stored,
        ) is Ok,
{
}

/// Every role may read a database, writers and owners may change its collections, and owners alone
/// may change its policy.
pub proof fn law_roles_grant()
    ensures
        role_grants(DatabaseRole::ReadOnly, DatabasePermission::ReadOnly),
        role_grants(DatabaseRole::ReadWrite, DatabasePermission::ReadOnly),
        role_grants(DatabaseRole::Owner, DatabasePermission::ReadOnly),
        !role_grants(DatabaseRole::ReadOnly, DatabasePermission::ReadWrite),
        role_grants(DatabaseRole::ReadWrite, DatabasePermission::ReadWrite),
        role_grants(DatabaseRole::Owner, DatabasePermission::ReadWrite),
        !role_grants(DatabaseRole::ReadOnly, DatabasePermission::Owner),
        !role_grants(DatabaseRole::ReadWrite, DatabasePermission::Owner),
        role_grants(DatabaseRole::Owner, DatabasePermission::Owner),
{
}

/// To describe, query, inspect or read the statistics of a collection asks for no more than
/// reading; to write to it, flush it or compact it asks for writing, and for no more.
pub proof fn law_operations_ask_for()
    ensures
        CollectionOperation::Describe.needs() == DatabasePermission::ReadOnly,
        CollectionOperation::Query.needs() == DatabasePermission::ReadOnly,
        CollectionOperation::Stats.needs() == DatabasePermission::ReadOnly,
        CollectionOperation::Inspect.needs() == DatabasePermission::ReadOnly,
        CollectionOperation::Write.needs() == DatabasePermission::ReadWrite,
        CollectionOperation::Flush.needs() == DatabasePermission::ReadWrite,
        CollectionOperation::Compact.needs() == DatabasePermission::ReadWrite,
{
}

/// Whatever role a caller has suffices for every operation that only reads a collection; those that
/// change it take a writer or an owner.
pub proof fn law_readers_read_and_writers_write(role: DatabaseRole)
    ensures
        role_grants(role, CollectionOperation::Describe.needs()),
        role_grants(role, CollectionOperation::Query.needs()),
        role_grants(role, CollectionOperation::Stats.needs()),
        role_grants(role, CollectionOperation::Inspect.needs()),
        role_grants(role, CollectionOperation::Write.needs()) <==> role != DatabaseRole::ReadOnly,
        role_grants(role, CollectionOperation::Flush.needs()) <==> role != DatabaseRole::ReadOnly,
        role_grants(role, CollectionOperation::Compact.needs()) <==> role != DatabaseRole::ReadOnly,
{
}

proof fn lemma_token_slot(tokens: Seq<BootstrapTokenConfig>, token: Seq<char>, count: nat)
    requires
        count <= tokens.len(),
    ensures
        match token_slot(tokens, token, count) {
            Some(position) => 0 <= position < count && tokens[position].token@ == token && forall|
                i: int,
            |
                0 <= i < position ==> (#[trigger] tokens[i]).token@ != token,
            None => forall|i: int| 0 <= i < count ==> (#[trigger] tokens[i]).token@ != token,
        },
    decreases count,
{
    if count > 0 {
        lemma_token_slot(tokens, token, (count - 1) as nat);
    }
}

/// A request is taken to come from the principal that the first configured token that equals its
/// own is bound to, with that token's tier; without a token, or with one that is not configured, it
/// is unauthenticated; and where no token is configured it comes from nobody in particular.
pub proof fn law_tokens_identify(tokens: Seq<BootstrapTokenConfig>, token: Option<Seq<char>>)
    ensures
        tokens.len() == 0 <==> token_principal(tokens, token) == Ok::<
            Option<AuthenticatedPrincipal>,
            ServiceErrorModel,
        >(None),
        token_principal(tokens, token) matches Ok(Some(caller)) ==> exists|position: int|
            0 <= position < tokens.len() && token == Some((#[trigger] tokens[position]).token@)
                && caller.principal == tokens[position].principal && caller.access_tier
                == tokens[position].access_tier && forall|i: int|
                0 <= i < position ==> token != Some((#[trigger] tokens[i]).token@),
        token_principal(tokens, token) is Err <==> tokens.len() > 0 && forall|i: int|
            0 <= i < tokens.len() ==> token != Some((#[trigger] tokens[i]).token@),
        token_principal(tokens, token) matches Err(error) ==> error.kind
            == ServiceErrorKind::Unauthenticated && error.message == (if token is None {
            "missing bearer token"@
        } else {
            "invalid bearer token"@
        }),
{
    if tokens.len() > 0 && token is Some {
        lemma_token_slot(tokens, token->0, tokens.len());
        match token_slot(tokens, token->0, tokens.len()) {
            Some(position) => {
                assert(token == Some(tokens[position].token@));
            },
            None => {},
        }
    }
}

/// A caller that is known and no operator may do something with the collections of a database whose
/// policy is enforced exactly when the policy binds the caller's name to a role: any role will do
/// for an operation that only reads, one that may write is needed for the others. Whoever may not
/// is refused as lacking permission.
pub proof fn law_collection_access_follows_roles(
    operation: CollectionOperation,
    database_name: String,
    tokens: Seq<BootstrapTokenConfig>,
    token: Option<Seq<char>>,
    known: int,
    policy: DatabaseAccessPolicy,
    stored: AuthenticatedPrincipal,
)
    requires
        0 <= known < tokens.len(),
        token == Some(tokens[known].token@),
        stored.access_tier != AccessTier::Operator,
        policy.authentication_mode != AuthenticationMode::Disabled,
    ensures
        access_decision(
            AccessRequirement::Database {
                database_name,
                permission: operation.needs(),
                open_if_disabled: true,
            },
            tokens,
            token,
            Ok::<DatabaseAccessPolicy, ServiceError>(policy),
            Ok::<AuthenticatedPrincipal, ServiceError>(stored),
        ) is Ok <==> exists|i: int|
            0 <= i < policy.role_bindings@.len() && (
            #[trigger] policy.role_bindings@[i]).principal_name@ == stored.principal.name@ && (
            operation == CollectionOperation::Describe || operation == CollectionOperation::Query
                || operation == CollectionOperation::Stats || operation
                == CollectionOperation::Inspect || policy.role_bindings@[i].role
                == DatabaseRole::ReadWrite || policy.role_bindings@[i].role == DatabaseRole::Owner),
        access_decision(
            AccessRequirement::Database {
                database_name,
                permission: operation.needs(),
                open_if_disabled: true,
            },
            tokens,
            token,
            Ok::<DatabaseAccessPolicy, ServiceError>(policy),
            Ok::<AuthenticatedPrincipal, ServiceError>(stored),
        ) matches Err(error) ==> error.kind == ServiceErrorKind::PermissionDenied,
{
    law_tokens_identify(tokens, token);
    let name = stored.principal.name@;
    let bindings = policy.role_bindings@;
    if policy_grants(policy, name, operation.needs()) {
        let i = choose|i: int|
            0 <= i < bindings.len() && (#[trigger] bindings[i]).principal_name@ == name
                && role_grants(bindings[i].role, operation.needs());
        assert(bindings[i].principal_name@ == name);
    }
}

/// A caller that is known and no operator may read or change the policy of a database exactly when
/// the policy binds the caller's name to the owner's role, even where it enforces nothing.
pub proof fn law_policy_access_follows_ownership(
    database_name: String,
    tokens: Seq<BootstrapTokenConfig>,
    token: Option<Seq<char>>,
    known: int,
    policy: DatabaseAccessPolicy,
    stored: AuthenticatedPrincipal,
)
    requires
        0 <= known < tokens.len(),
        token == Some(tokens[known].token@),
        stored.access_tier != AccessTier::Operator,
    ensures
        access_decision(
            AccessRequirement::Database {
                database_name,
                permission: DatabasePermission::Owner,
                open_if_disabled: false,
            },
            tokens,
            token,
            Ok::<DatabaseAccessPolicy, ServiceError>(policy),
            Ok::<AuthenticatedPrincipal, ServiceError>(stored),
        ) is Ok <==> exists|i: int|
            0 <= i < policy.role_bindings@.len() && (
            #[trigger] policy.role_bindings@[i]).principal_name@ == stored.principal.name@
                && policy.role_bindings@[i].role == DatabaseRole::Owner,
{
    law_tokens_identify(tokens, token);
    let name = stored.principal.name@;
    let bindings = policy.role_bindings@;
    if policy_grants(policy, name, DatabasePermission::Owner) {
        let i = choose|i: int|
            0 <= i < bindings.len() && (#[trigger] bindings[i]).principal_name@ == name
                && role_grants(bindings[i].role, DatabasePermission::Owner);
        assert(bindings[i].principal_name@ == name);
    }
}

/// A caller that is known and no operator may not administer the cluster, nor touch a database that
/// has no policy; an operator may do either.
pub proof fn law_only_operators_go_without_policy(
    database_name: String,
    permission: DatabasePermission,
    open_if_disabled: bool,
    tokens: Seq<BootstrapTokenConfig>,
    token: Option<Seq<char>>,
    known: int,
    policy: Result<DatabaseAccessPolicy, ServiceError>,
    missing: ServiceError,
    stored: AuthenticatedPrincipal,
)
    requires
        0 <= known < tokens.len(),
        token == Some(tokens[known].token@),
        missing is NotFound,
    ensures
        match access_decision(
            AccessRequirement::Operator,
            tokens,
            token,
            policy,
            Ok::<AuthenticatedPrincipal, ServiceError>(stored),
        ) {
            Ok(_) => stored.access_tier == AccessTier::Operator,
            Err(error) => stored.access_tier != AccessTier::Operator && error.kind
                == ServiceErrorKind::PermissionDenied,
        },
        match access_decision(
            AccessRequirement::Database { database_name, permission, open_if_disabled },
            tokens,
            token,
            Err::<DatabaseAccessPolicy, ServiceError>(missing),
            Ok::<AuthenticatedPrincipal, ServiceError>(stored),
        ) {
            Ok(_) => stored.access_tier == AccessTier::Operator,
            Err(error) => stored.access_tier != AccessTier::Operator && error.kind
                == ServiceErrorKind::PermissionDenied,
        },
{
    law_tokens_identify(tokens, token);
}

/// What goes wrong when a policy or a stored principal is read is what the caller is told, unless
/// it is that there is none.
pub proof fn law_read_faults_are_passed_on(
    database_name: String,
    permission: DatabasePermission,
    open_if_disabled: bool,
    tokens: Seq<BootstrapTokenConfig>,
    token: Option<Seq<char>>,
    known: int,
    fault: ServiceError,
    stored: Result<AuthenticatedPrincipal, ServiceError>,
    policy: DatabaseAccessPolicy,
)
    requires
        0 <= known < tokens.len(),
        token == Some(tokens[known].token@),
        fault !is NotFound,
    ensures
        access_decision(
            AccessRequirement::Database { database_name, permission, open_if_disabled },
            tokens,
            token,
            Err::<DatabaseAccessPolicy, ServiceError>(fault),
            stored,
        ) == Err::<(), ServiceErrorModel>(fault@),
        !(open_if_disabled && policy.authentication_mode == AuthenticationMode::Disabled)
            ==> access_decision(
            AccessRequirement::Database { database_name, permission, open_if_disabled },
            tokens,
            token,
            Ok::<DatabaseAccessPolicy, ServiceError>(policy),
            Err::<AuthenticatedPrincipal, ServiceError>(fault),
        ) == Err::<(), ServiceErrorModel>(fault@),
        access_decision(
            AccessRequirement::Operator,
            tokens,
            token,
            Ok::<DatabaseAccessPolicy, ServiceError>(policy),
            Err::<AuthenticatedPrincipal, ServiceError>(fault),
        ) == Err::<(), ServiceErrorModel>(fault@),
{
    law_tokens_identify(tokens, token);
}

/// Callers that are known but not let through are named, with the database that they asked for.
pub proof fn law_refused_callers_are_named(
    database_name: String,
    permission: DatabasePermission,
    policy: Option<DatabaseAccessPolicy>,
    caller: AuthenticatedPrincipal,
)
    requires
        caller.access_tier != AccessTier::Operator,
    ensures
        scope_decision(AccessScope::Operator, caller) == Err::<(), ServiceErrorModel>(
            (ServiceErrorModel {
                kind: ServiceErrorKind::PermissionDenied,
                message: "principal '"@ + caller.principal.name@
                    + "' is not allowed to perform operator actions"@,
            }),
        ),
        scope_decision(
            AccessScope::Database { database_name, permission, policy },
            caller,
        ) matches Err(error) ==> error.kind == ServiceErrorKind::PermissionDenied && error.message
            == "principal '"@ + caller.principal.name@ + "' is not allowed to access database '"@
            + database_name@ + "'"@,
{
}

} // verus!
