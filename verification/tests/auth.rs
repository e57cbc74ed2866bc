use logpose::auth::{
    AuthenticationMode, DatabaseAccessPolicy, DatabaseRole, DatabaseRoleBinding, Principal,
    PrincipalKind,
};

#[test]
fn principal_rejects_blank_name() {
    let error = Principal::new("   ", PrincipalKind::User)
        .validate()
        .expect_err("blank principal name should fail");

    assert!(error.contains("principal name"));
}

#[test]
fn database_binding_rejects_blank_fields() {
    let error = DatabaseRoleBinding {
        database_name: String::new(),
        principal_name: String::new(),
        role: DatabaseRole::ReadOnly,
    }
    .validate()
    .expect_err("blank binding fields should fail");

    assert!(error.contains("database_name"));
}

#[test]
fn database_policy_validates_nested_bindings() {
    let error = DatabaseAccessPolicy {
        authentication_mode: AuthenticationMode::Password,
        role_bindings: vec![DatabaseRoleBinding {
            database_name: "default".to_owned(),
            principal_name: String::new(),
            role: DatabaseRole::Owner,
        }],
    }
    .validate()
    .expect_err("invalid nested binding should fail");

    assert!(error.contains("principal_name"));
}
