use logpose::access::{
    begin_access, collection_access, constant_time_eq, database_access, database_role_satisfies,
    AccessRequirement, AccessStep, AuthenticatedPrincipal, CollectionOperation, DatabaseOperation,
    DatabasePermission, RequestAuth,
};
use logpose::auth::{
    AccessTier, AuthenticationMode, DatabaseAccessPolicy, DatabaseRole, DatabaseRoleBinding,
    Principal, PrincipalKind,
};
use logpose::config::{AuthConfig, BootstrapTokenConfig};
use logpose::types::ServiceError;

fn token(token: &str, name: &str, access_tier: AccessTier) -> BootstrapTokenConfig {
    BootstrapTokenConfig {
        token: token.to_owned(),
        principal: Principal::new(name, PrincipalKind::Service),
        access_tier,
    }
}

fn tokens() -> AuthConfig {
    AuthConfig {
        bootstrap_tokens: vec![
            token("operator-token", "ops-admin", AccessTier::Operator),
            token("writer-token", "writer-service", AccessTier::Service),
        ],
    }
}

fn policy(mode: AuthenticationMode, bindings: &[(&str, DatabaseRole)]) -> DatabaseAccessPolicy {
    DatabaseAccessPolicy {
        authentication_mode: mode,
        role_bindings: bindings
            .iter()
            .map(|(name, role)| DatabaseRoleBinding {
                database_name: "analytics".to_owned(),
                principal_name: (*name).to_owned(),
                role: *role,
            })
            .collect(),
    }
}

fn missing<T>() -> Result<T, ServiceError> {
    Err(ServiceError::NotFound("nothing stored".to_owned()))
}

fn decide(
    requirement: AccessRequirement,
    config: &AuthConfig,
    auth: &RequestAuth,
    policy: Result<DatabaseAccessPolicy, ServiceError>,
    stored: Result<AuthenticatedPrincipal, ServiceError>,
) -> Result<(), ServiceError> {
    let step = match begin_access(requirement, config, auth) {
        AccessStep::ReadPolicy(pending) => pending.policy_read(policy, config, auth),
        other => other,
    };
    match step {
        AccessStep::ReadPrincipal(pending) => pending.principal_read(stored),
        AccessStep::Decided(decision) => decision,
        AccessStep::ReadPolicy(_) => panic!("the policy is read once"),
    }
}

fn write_access() -> AccessRequirement {
    AccessRequirement::database("analytics", DatabasePermission::ReadWrite)
}

#[test]
fn constant_time_eq_matches_expected_string_equality() {
    assert!(constant_time_eq("reader-token", "reader-token"));
    assert!(!constant_time_eq("reader-token", "reader-token-x"));
    assert!(!constant_time_eq("reader-token", "writer-token"));
}

#[test]
fn constant_time_eq_handles_empty_and_wide_texts() {
    assert!(constant_time_eq("", ""));
    assert!(!constant_time_eq("", "\0"));
    assert!(constant_time_eq("caf\u{e9}", "caf\u{e9}"));
    assert!(!constant_time_eq("caf\u{e9}", "cafe"));
}

#[test]
fn roles_and_permissions_nest() {
    for (role, read, write, own) in [
        (DatabaseRole::ReadOnly, true, false, false),
        (DatabaseRole::ReadWrite, true, true, false),
        (DatabaseRole::Owner, true, true, true),
    ] {
        assert_eq!(database_role_satisfies(&role, DatabasePermission::ReadOnly), read);
        assert_eq!(database_role_satisfies(&role, DatabasePermission::ReadWrite), write);
        assert_eq!(database_role_satisfies(&role, DatabasePermission::Owner), own);
    }
}

#[test]
fn nobody_is_refused_where_no_tokens_are_configured() {
    let open = AuthConfig {
        bootstrap_tokens: Vec::new(),
    };

    assert_eq!(
        decide(write_access(), &open, &RequestAuth::default(), missing(), missing()),
        Ok(())
    );
    assert_eq!(
        decide(
            AccessRequirement::Operator,
            &open,
            &RequestAuth::default(),
            missing(),
            missing()
        ),
        Ok(())
    );
}

#[test]
fn unknown_tokens_are_refused() {
    assert_eq!(
        decide(
            AccessRequirement::Operator,
            &tokens(),
            &RequestAuth::default(),
            missing(),
            missing()
        ),
        Err(ServiceError::Unauthenticated("missing bearer token".to_owned()))
    );
    assert_eq!(
        decide(
            write_access(),
            &tokens(),
            &RequestAuth::bearer_token("writer-toke"),
            missing(),
            missing()
        ),
        Err(ServiceError::Unauthenticated("invalid bearer token".to_owned()))
    );
}

#[test]
fn operators_pass_and_others_do_not_administer() {
    assert_eq!(
        decide(
            AccessRequirement::Operator,
            &tokens(),
            &RequestAuth::bearer_token("operator-token"),
            missing(),
            missing()
        ),
        Ok(())
    );
    assert_eq!(
        decide(
            AccessRequirement::Operator,
            &tokens(),
            &RequestAuth::bearer_token("writer-token"),
            missing(),
            missing()
        ),
        Err(ServiceError::PermissionDenied(
            "principal 'writer-service' is not allowed to perform operator actions".to_owned()
        ))
    );
}

#[test]
fn stored_principals_replace_the_configured_ones() {
    let demoted = AuthenticatedPrincipal {
        principal: Principal::new("ops-admin", PrincipalKind::User),
        access_tier: AccessTier::Observer,
    };
    assert_eq!(
        decide(
            AccessRequirement::Operator,
            &tokens(),
            &RequestAuth::bearer_token("operator-token"),
            missing(),
            Ok(demoted)
        ),
        Err(ServiceError::PermissionDenied(
            "principal 'ops-admin' is not allowed to perform operator actions".to_owned()
        ))
    );
    assert_eq!(
        decide(
            AccessRequirement::Operator,
            &tokens(),
            &RequestAuth::bearer_token("operator-token"),
            missing(),
            Err(ServiceError::Internal("catalog unavailable".to_owned()))
        ),
        Err(ServiceError::Internal("catalog unavailable".to_owned()))
    );
}

#[test]
fn bindings_decide_for_everybody_else() {
    let auth = RequestAuth::bearer_token("writer-token");
    let refused = Err(ServiceError::PermissionDenied(
        "principal 'writer-service' is not allowed to access database 'analytics'".to_owned(),
    ));

    assert_eq!(
        decide(
            write_access(),
            &tokens(),
            &auth,
            Ok(policy(
                AuthenticationMode::ExternalToken,
                &[("other", DatabaseRole::Owner), ("writer-service", DatabaseRole::ReadWrite)]
            )),
            missing()
        ),
        Ok(())
    );
    assert_eq!(
        decide(
            write_access(),
            &tokens(),
            &auth,
            Ok(policy(
                AuthenticationMode::ExternalToken,
                &[("writer-service", DatabaseRole::ReadOnly)]
            )),
            missing()
        ),
        refused
    );
    assert_eq!(
        decide(write_access(), &tokens(), &auth, missing(), missing()),
        refused
    );
    assert_eq!(
        decide(
            write_access(),
            &tokens(),
            &auth,
            Err(ServiceError::Internal("catalog unavailable".to_owned())),
            missing()
        ),
        Err(ServiceError::Internal("catalog unavailable".to_owned()))
    );
}

#[test]
fn disabled_policies_open_the_data_but_not_the_policy() {
    let disabled = || Ok(policy(AuthenticationMode::Disabled, &[]));

    assert_eq!(
        decide(write_access(), &tokens(), &RequestAuth::default(), disabled(), missing()),
        Ok(())
    );
    assert_eq!(
        decide(
            AccessRequirement::database_owner("analytics"),
            &tokens(),
            &RequestAuth::default(),
            disabled(),
            missing()
        ),
        Err(ServiceError::Unauthenticated("missing bearer token".to_owned()))
    );
}

#[test]
fn operations_on_collections_need_their_database() {
    assert_eq!(
        collection_access(CollectionOperation::Write, "analytics/documents"),
        Ok(AccessRequirement::database("analytics", DatabasePermission::ReadWrite))
    );
    assert_eq!(
        collection_access(CollectionOperation::Query, "documents"),
        Ok(AccessRequirement::database("default", DatabasePermission::ReadOnly))
    );
    assert!(matches!(
        collection_access(CollectionOperation::Inspect, "a/b/c"),
        Err(ServiceError::InvalidArgument(_))
    ));
}

#[test]
fn operations_on_databases_need_writers_or_owners() {
    assert_eq!(
        database_access(DatabaseOperation::CreateCollection, "analytics"),
        AccessRequirement::database("analytics", DatabasePermission::ReadWrite)
    );
    assert_eq!(
        database_access(DatabaseOperation::ReadPolicy, "analytics"),
        AccessRequirement::database_owner("analytics")
    );
    assert_eq!(
        database_access(DatabaseOperation::ChangePolicy, "analytics"),
        AccessRequirement::database_owner("analytics")
    );
}
