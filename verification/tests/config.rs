use logpose::auth::{AccessTier, Principal, PrincipalKind};
use logpose::config::{
    provided_config, AuthConfig, BootstrapTokenConfig, InternalConfig, LocalAddresses,
    LogPoseConfig,
};
use logpose::types::{
    EtcdMetadataConfig, LogPoseError, MetadataBackend, MetadataConfig, NodeRole,
};
use toml::{Table, Value};

fn text(table: &Table, key: &str) -> Option<String> {
    table.get(key).and_then(Value::as_str).map(str::to_owned)
}

fn number(table: &Table, key: &str) -> Option<i64> {
    table.get(key).and_then(Value::as_integer)
}

fn section<'a>(table: &'a Table, key: &str) -> Option<&'a Table> {
    table.get(key).and_then(Value::as_table)
}

fn etcd(table: &Table, default: EtcdMetadataConfig) -> EtcdMetadataConfig {
    EtcdMetadataConfig {
        endpoints: match table.get("endpoints").and_then(Value::as_array) {
            Some(list) => list
                .iter()
                .map(|entry| entry.as_str().expect("endpoint should be text").to_owned())
                .collect(),
            None => default.endpoints,
        },
        key_prefix: text(table, "key_prefix").unwrap_or(default.key_prefix),
        timeout_ms: number(table, "timeout_ms").map_or(default.timeout_ms, |value| value as u64),
        membership_ttl_secs: number(table, "membership_ttl_secs")
            .unwrap_or(default.membership_ttl_secs),
        leadership_ttl_secs: number(table, "leadership_ttl_secs")
            .unwrap_or(default.leadership_ttl_secs),
        cluster_name: text(table, "cluster_name").unwrap_or(default.cluster_name),
    }
}

fn metadata(table: &Table) -> MetadataConfig {
    let mut config = MetadataConfig::default();
    if let Some(found) = section(table, "metadata") {
        config.backend = match text(found, "backend").as_deref() {
            Some("etcd") => MetadataBackend::Etcd,
            _ => MetadataBackend::Local,
        };
        if let Some(settings) = section(found, "etcd") {
            config.etcd = etcd(settings, config.etcd);
        }
    }
    config
}

fn auth(table: &Table) -> AuthConfig {
    let mut config = AuthConfig::default();
    let entries = section(table, "auth")
        .and_then(|found| found.get("bootstrap_tokens"))
        .and_then(Value::as_array);
    for entry in entries.into_iter().flatten() {
        let entry = entry.as_table().expect("token entry should be a table");
        let principal = section(entry, "principal").expect("principal should be given");
        config.bootstrap_tokens.push(BootstrapTokenConfig {
            token: text(entry, "token").expect("token should be given"),
            principal: Principal::new(
                &text(principal, "name").expect("name should be given"),
                match text(principal, "kind").as_deref() {
                    Some("service") => PrincipalKind::Service,
                    _ => PrincipalKind::User,
                },
            ),
            access_tier: match text(principal, "access_tier").as_deref() {
                Some("operator") => AccessTier::Operator,
                Some("observer") => AccessTier::Observer,
                _ => AccessTier::Service,
            },
        });
    }
    config
}

fn internal(table: &Table) -> InternalConfig {
    let mut config = InternalConfig::default();
    if let Some(found) = section(table, "internal") {
        config.replica_token = text(found, "replica_token");
        if let Some(timeout) = number(found, "replica_transfer_timeout_ms") {
            config.replica_transfer_timeout_ms = timeout as u64;
        }
        config.allow_non_routable_rest_advertise_host = found
            .get("allow_non_routable_rest_advertise_host")
            .and_then(Value::as_bool)
            .unwrap_or(false);
    }
    config
}

fn is_local(host: &str) -> bool {
    matches!(host.trim(), "0.0.0.0" | "127.0.0.1" | "::" | "::1")
}

fn addresses(config: &LogPoseConfig) -> LocalAddresses {
    LocalAddresses {
        rest_host: is_local(&config.rest_host),
        grpc_host: is_local(&config.grpc_host),
        advertised_rest_host: is_local(config.advertised_rest_host()),
        advertised_grpc_host: is_local(config.advertised_grpc_host()),
    }
}

fn from_toml_str(contents: &str) -> Result<LogPoseConfig, LogPoseError> {
    let table: Table = contents.parse().expect("input should be TOML");
    let config = LogPoseConfig {
        node_name: text(&table, "node_name").expect("node_name should be given"),
        node_role: match text(&table, "node_role").as_deref() {
            Some("data") => NodeRole::Data,
            Some("control") => NodeRole::Control,
            _ => NodeRole::Combined,
        },
        rest_host: text(&table, "rest_host").expect("rest_host should be given"),
        rest_advertise_host: text(&table, "rest_advertise_host"),
        rest_port: number(&table, "rest_port").expect("rest_port should be given") as u16,
        grpc_host: text(&table, "grpc_host").expect("grpc_host should be given"),
        grpc_advertise_host: text(&table, "grpc_advertise_host"),
        grpc_port: number(&table, "grpc_port").expect("grpc_port should be given") as u16,
        log_filter: text(&table, "log_filter").expect("log_filter should be given"),
        storage_root: text(&table, "storage_root").expect("storage_root should be given"),
        metadata: metadata(&table),
        auth: auth(&table),
        internal: internal(&table),
    };
    let local = addresses(&config);
    LogPoseConfig::from_parsed(Ok(config), &local)
}

#[test]
fn default_config_includes_storage_root() {
    let config = LogPoseConfig::default();
    assert_eq!(config.storage_root, ".logpose");
}

#[test]
fn from_toml_str_reads_storage_root() {
    let config = from_toml_str(
        r#"node_name = "edge-a"
node_role = "data"
rest_host = "0.0.0.0"
rest_port = 18080
grpc_host = "0.0.0.0"
grpc_port = 15051
log_filter = "info"
storage_root = "tmp/logpose-data""#,
    )
    .expect("config should load");
    assert_eq!(config.storage_root, "tmp/logpose-data");
    assert_eq!(config.node_role, NodeRole::Data);
    assert_eq!(config.rest_port, 18080);
    assert_eq!(config.metadata.backend.as_str(), "local");
    assert_eq!(config.advertised_rest_host(), "0.0.0.0");
    assert_eq!(config.advertised_grpc_host(), "0.0.0.0");
}

#[test]
fn from_toml_str_reads_etcd_metadata_backend() {
    let config = from_toml_str(
        r#"node_name = "edge-a"
rest_host = "0.0.0.0"
rest_port = 18080
rest_advertise_host = "127.0.0.1"
grpc_host = "0.0.0.0"
grpc_port = 15051
grpc_advertise_host = "127.0.0.1"
log_filter = "info"
storage_root = "tmp/logpose-data"

[metadata]
backend = "etcd"

[metadata.etcd]
endpoints = ["http://127.0.0.1:2379", "http://127.0.0.1:22379"]
key_prefix = "/logpose/prod"
timeout_ms = 900
membership_ttl_secs = 25
leadership_ttl_secs = 12
cluster_name = "prod-cluster"

[internal]
replica_token = "replica-secret"
allow_non_routable_rest_advertise_host = true"#,
    )
    .expect("config should load");

    assert_eq!(config.metadata.backend.as_str(), "etcd");
    assert_eq!(
        config.metadata.etcd.endpoints,
        vec![
            "http://127.0.0.1:2379".to_owned(),
            "http://127.0.0.1:22379".to_owned()
        ]
    );
    assert_eq!(config.metadata.etcd.key_prefix, "/logpose/prod");
    assert_eq!(config.metadata.etcd.timeout_ms, 900);
    assert_eq!(config.metadata.etcd.membership_ttl_secs, 25);
    assert_eq!(config.metadata.etcd.leadership_ttl_secs, 12);
    assert_eq!(config.metadata.etcd.cluster_name, "prod-cluster");
}

#[test]
fn from_toml_str_defaults_node_role_when_omitted() {
    let config = from_toml_str(
        r#"node_name = "edge-a"
rest_host = "0.0.0.0"
rest_port = 18080
grpc_host = "0.0.0.0"
grpc_port = 15051
log_filter = "info"
storage_root = "tmp/logpose-data""#,
    )
    .expect("config should load");

    assert_eq!(config.node_role, NodeRole::Combined);
}

#[test]
fn from_toml_str_reads_advertised_hosts() {
    let config = from_toml_str(
        r#"node_name = "edge-a"
rest_host = "0.0.0.0"
rest_advertise_host = "node-a"
rest_port = 18080
grpc_host = "0.0.0.0"
grpc_advertise_host = "node-a"
grpc_port = 15051
log_filter = "info"
storage_root = "tmp/logpose-data""#,
    )
    .expect("config should load");

    assert_eq!(config.advertised_rest_host(), "node-a");
    assert_eq!(config.advertised_grpc_host(), "node-a");
}

#[test]
fn from_toml_str_rejects_blank_advertised_hosts() {
    let error = from_toml_str(
        r#"node_name = "edge-a"
rest_host = "0.0.0.0"
rest_advertise_host = " "
rest_port = 18080
grpc_host = "0.0.0.0"
grpc_port = 15051
log_filter = "info"
storage_root = "tmp/logpose-data""#,
    )
    .expect_err("blank advertised host should be rejected");

    assert!(error.to_text().contains("rest_advertise_host must not be empty"));
}

#[test]
fn from_toml_str_rejects_etcd_data_node_without_replica_token() {
    let error = from_toml_str(
        r#"node_name = "edge-a"
node_role = "data"
rest_host = "127.0.0.1"
rest_port = 18080
grpc_host = "127.0.0.1"
grpc_port = 15051
log_filter = "info"
storage_root = "tmp/logpose-data"

[metadata]
backend = "etcd"

[metadata.etcd]
endpoints = ["http://127.0.0.1:2379"]
cluster_name = "prod-cluster""#,
    )
    .expect_err("etcd data nodes should require an internal replica token");

    assert!(error
        .to_text()
        .contains("internal.replica_token must be configured"));
}

#[test]
fn from_toml_str_rejects_etcd_data_node_with_wildcard_rest_host_and_missing_advertise_host() {
    let error = from_toml_str(
        r#"node_name = "edge-a"
node_role = "data"
rest_host = "0.0.0.0"
rest_port = 18080
grpc_host = "127.0.0.1"
grpc_port = 15051
log_filter = "info"
storage_root = "tmp/logpose-data"

[metadata]
backend = "etcd"

[metadata.etcd]
endpoints = ["http://127.0.0.1:2379"]
cluster_name = "prod-cluster"

[internal]
replica_token = "replica-secret""#,
    )
    .expect_err("wildcard etcd data nodes should require an advertised REST host");

    assert!(error
        .to_text()
        .contains("rest_advertise_host must be configured"));
}

#[test]
fn from_toml_str_rejects_remote_etcd_data_node_with_loopback_rest_advertise_host() {
    let error = from_toml_str(
        r#"node_name = "edge-a"
node_role = "data"
rest_host = "0.0.0.0"
rest_advertise_host = "127.0.0.1"
rest_port = 18080
grpc_host = "0.0.0.0"
grpc_advertise_host = "edge-a.internal"
grpc_port = 15051
log_filter = "info"
storage_root = "tmp/logpose-data"

[metadata]
backend = "etcd"

[metadata.etcd]
endpoints = ["http://10.0.0.5:2379"]
cluster_name = "prod-cluster"

[internal]
replica_token = "replica-secret""#,
    )
    .expect_err("etcd data nodes should require a peer-routable REST advertise host unless explicitly overridden");

    assert!(error.to_text().contains(
        "advertised REST endpoints for etcd data-serving nodes must be peer-routable unless internal.allow_non_routable_rest_advertise_host = true"
    ));
}

#[test]
fn from_toml_str_allows_loopback_rest_advertise_host_with_explicit_override() {
    let config = from_toml_str(
        r#"node_name = "edge-a"
node_role = "data"
rest_host = "0.0.0.0"
rest_advertise_host = "127.0.0.1"
rest_port = 18080
grpc_host = "0.0.0.0"
grpc_advertise_host = "127.0.0.1"
grpc_port = 15051
log_filter = "info"
storage_root = "tmp/logpose-data"

[metadata]
backend = "etcd"

[metadata.etcd]
endpoints = ["http://10.0.0.5:2379"]
cluster_name = "prod-cluster"

[internal]
replica_token = "replica-secret"
allow_non_routable_rest_advertise_host = true"#,
    )
    .expect("explicit loopback override should allow single-host development config");

    assert!(config.internal.allow_non_routable_rest_advertise_host);
    assert_eq!(config.advertised_rest_host(), "127.0.0.1");
}

#[test]
fn from_toml_str_rejects_etcd_backend_with_empty_endpoints() {
    let error = from_toml_str(
        r#"node_name = "edge-a"
rest_host = "0.0.0.0"
rest_advertise_host = "edge-a.internal"
rest_port = 18080
grpc_host = "0.0.0.0"
grpc_advertise_host = "edge-a.internal"
grpc_port = 15051
log_filter = "info"
storage_root = "tmp/logpose-data"

[metadata]
backend = "etcd"

[metadata.etcd]
endpoints = []"#,
    )
    .expect_err("etcd backend with empty endpoints should be rejected");

    assert!(error.to_text().contains("metadata.etcd.endpoints"));
}

#[test]
fn from_toml_str_rejects_blank_etcd_cluster_name() {
    let error = from_toml_str(
        r#"node_name = "edge-a"
rest_host = "0.0.0.0"
rest_advertise_host = "edge-a.internal"
rest_port = 18080
grpc_host = "0.0.0.0"
grpc_advertise_host = "edge-a.internal"
grpc_port = 15051
log_filter = "info"
storage_root = "tmp/logpose-data"

[metadata]
backend = "etcd"

[metadata.etcd]
endpoints = ["http://127.0.0.1:2379"]
cluster_name = "   ""#,
    )
    .expect_err("blank cluster name should be rejected");

    assert!(error.to_text().contains("metadata.etcd.cluster_name"));
}

#[test]
fn from_toml_str_rejects_zero_etcd_timeout_and_ttls() {
    let error = from_toml_str(
        r#"node_name = "edge-a"
rest_host = "0.0.0.0"
rest_advertise_host = "edge-a.internal"
rest_port = 18080
grpc_host = "0.0.0.0"
grpc_advertise_host = "edge-a.internal"
grpc_port = 15051
log_filter = "info"
storage_root = "tmp/logpose-data"

[metadata]
backend = "etcd"

[metadata.etcd]
endpoints = ["http://127.0.0.1:2379"]
timeout_ms = 0
membership_ttl_secs = 0
leadership_ttl_secs = 0"#,
    )
    .expect_err("zero timeout and ttls should be rejected");

    assert!(
        error.to_text().contains("timeout_ms")
            || error.to_text().contains("membership_ttl_secs")
            || error.to_text().contains("leadership_ttl_secs")
    );
}

#[test]
fn from_toml_str_requires_explicit_etcd_endpoints_when_backend_is_selected() {
    let error = from_toml_str(
        r#"node_name = "edge-a"
rest_host = "0.0.0.0"
rest_port = 18080
grpc_host = "0.0.0.0"
grpc_port = 15051
log_filter = "info"
storage_root = "tmp/logpose-data"

[metadata]
backend = "etcd""#,
    )
    .expect_err("etcd backend without explicit endpoints should be rejected");

    assert!(error.to_text().contains("metadata.etcd.endpoints"));
}

#[test]
fn from_toml_str_rejects_reserved_local_node_name() {
    let error = from_toml_str(
        r#"node_name = "local"
rest_host = "0.0.0.0"
rest_port = 18080
grpc_host = "0.0.0.0"
grpc_port = 15051
log_filter = "info"
storage_root = "tmp/logpose-data""#,
    )
    .expect_err("reserved anonymous local node name should be rejected");

    assert!(error.to_text().contains("reserved"));
}

#[test]
fn from_toml_str_reads_bootstrap_auth_tokens() {
    let config = from_toml_str(
        r#"node_name = "edge-a"
rest_host = "0.0.0.0"
rest_port = 18080
grpc_host = "0.0.0.0"
grpc_port = 15051
log_filter = "info"
storage_root = "tmp/logpose-data"

[auth]

[[auth.bootstrap_tokens]]
token = "operator-secret"

[auth.bootstrap_tokens.principal]
name = "ops-admin"
kind = "user"
access_tier = "operator"

[[auth.bootstrap_tokens]]
token = "service-secret"

[auth.bootstrap_tokens.principal]
name = "ingest-service"
kind = "service"
access_tier = "service""#,
    )
    .expect("config should load");

    assert_eq!(config.auth.bootstrap_tokens.len(), 2);
    assert_eq!(config.auth.bootstrap_tokens[0].token, "operator-secret");
    assert_eq!(config.auth.bootstrap_tokens[0].principal.name, "ops-admin");
    assert_eq!(config.auth.bootstrap_tokens[1].token, "service-secret");
    assert_eq!(config.auth.bootstrap_tokens[1].principal.name, "ingest-service");
}

#[test]
fn from_toml_str_rejects_duplicate_bootstrap_auth_tokens() {
    let error = from_toml_str(
        r#"node_name = "edge-a"
rest_host = "0.0.0.0"
rest_port = 18080
grpc_host = "0.0.0.0"
grpc_port = 15051
log_filter = "info"
storage_root = "tmp/logpose-data"

[auth]

[[auth.bootstrap_tokens]]
token = "duplicate-secret"

[auth.bootstrap_tokens.principal]
name = "ops-admin"
kind = "user"
access_tier = "operator"

[[auth.bootstrap_tokens]]
token = "duplicate-secret"

[auth.bootstrap_tokens.principal]
name = "other-admin"
kind = "user"
access_tier = "operator""#,
    )
    .expect_err("duplicate bootstrap tokens should fail");

    assert!(error.to_text().contains("auth.bootstrap_tokens"));
    assert!(
        !error.to_text().contains("duplicate-secret"),
        "duplicate token validation must not echo the secret token"
    );
}

#[test]
fn from_toml_str_rejects_duplicate_bootstrap_principal_names() {
    let error = from_toml_str(
        r#"node_name = "edge-a"
rest_host = "0.0.0.0"
rest_port = 18080
grpc_host = "0.0.0.0"
grpc_port = 15051
log_filter = "info"
storage_root = "tmp/logpose-data"

[auth]

[[auth.bootstrap_tokens]]
token = "one-secret"

[auth.bootstrap_tokens.principal]
name = "shared-principal"
kind = "user"
access_tier = "operator"

[[auth.bootstrap_tokens]]
token = "two-secret"

[auth.bootstrap_tokens.principal]
name = "shared-principal"
kind = "user"
access_tier = "observer""#,
    )
    .expect_err("duplicate bootstrap principal names should fail");

    assert!(error.to_text().contains("duplicate principal names"));
}

#[test]
fn from_toml_str_rejects_bootstrap_tokens_with_surrounding_whitespace() {
    let error = from_toml_str(
        r#"node_name = "edge-a"
rest_host = "0.0.0.0"
rest_port = 18080
grpc_host = "0.0.0.0"
grpc_port = 15051
log_filter = "info"
storage_root = "tmp/logpose-data"

[auth]

[[auth.bootstrap_tokens]]
token = " secret "

[auth.bootstrap_tokens.principal]
name = "ops-admin"
kind = "user"
access_tier = "operator""#,
    )
    .expect_err("tokens with surrounding whitespace should fail");

    assert!(error.to_text().contains("leading or trailing whitespace"));
}

#[test]
fn default_config_is_valid_wherever_it_listens() {
    let config = LogPoseConfig::default();
    let local = addresses(&config);

    assert!(config.validate(&local).is_ok());
    assert_eq!(config.node_name, "logpose-node-1");
    assert_eq!(config.rest_port, 8080);
    assert_eq!(config.grpc_port, 50051);
    assert_eq!(config.internal.replica_transfer_timeout_ms, 5_000);
}

#[test]
fn unparsed_config_reports_the_parser() {
    let local = addresses(&LogPoseConfig::default());
    let error = LogPoseConfig::from_parsed(Err("expected a table".to_owned()), &local)
        .expect_err("unparsed config should fail");

    assert!(error.to_text().contains("expected a table"));
}

#[test]
fn zero_replica_transfer_timeout_is_rejected() {
    let mut config = LogPoseConfig::default();
    config.internal.replica_transfer_timeout_ms = 0;
    let local = addresses(&config);
    let error = config.validate(&local).expect_err("zero timeout should fail");

    assert!(error.to_text().contains("replica_transfer_timeout_ms"));
}

#[test]
fn localhost_by_name_is_not_peer_routable() {
    let mut config = LogPoseConfig::default();
    config.metadata.backend = MetadataBackend::Etcd;
    config.metadata.etcd.endpoints = vec!["http://10.0.0.5:2379".to_owned()];
    config.internal.replica_token = Some("replica-secret".to_owned());
    config.rest_host = " LocalHost ".to_owned();
    config.grpc_host = "edge-a.internal".to_owned();
    let local = addresses(&config);
    let error = config.validate(&local).expect_err("localhost should not be routable");

    assert!(error.to_text().contains("rest_advertise_host must be configured"));
}

#[test]
fn blank_config_variable_counts_as_absent() {
    assert_eq!(provided_config(None), None);
    assert_eq!(provided_config(Some("  ")), None);
    assert_eq!(provided_config(Some("node_name = \"a\"")), Some("node_name = \"a\""));
}
