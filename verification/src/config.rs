//! Configuration of LogPose services and tooling.

use crate::auth::{AccessTier, Principal};
use crate::text::{
    blank, decimal, decimal_text, equal_ignoring_case, is_blank, is_space,
    lemma_trimmed_of_blank, same_ignoring_case, same_text, trim, trimmed,
};
use crate::types::{
    first_fault, reports_message, LogPoseError, MetadataBackend, MetadataConfig, NodeRole,
};
use vstd::prelude::*;
use vstd::string::*;

verus! {

/// Runtime configuration for the LogPose platform.
#[derive(Debug, PartialEq, Eq)]
pub struct LogPoseConfig {
    /// Human-readable deployment name.
    pub node_name: String,
    /// Declared runtime role for this process.
    pub node_role: NodeRole,
    /// Host address for the REST listener.
    pub rest_host: String,
    /// Peer-visible host advertised for the REST endpoint.
    pub rest_advertise_host: Option<String>,
    /// Port for the REST listener.
    pub rest_port: u16,
    /// Host address for the gRPC listener.
    pub grpc_host: String,
    /// Peer-visible host advertised for the gRPC endpoint.
    pub grpc_advertise_host: Option<String>,
    /// Port for the gRPC listener.
    pub grpc_port: u16,
    /// Default log filter string.
    pub log_filter: String,
    /// Root directory for local storage-engine state.
    pub storage_root: String,
    /// Metadata control-plane backend and settings.
    pub metadata: MetadataConfig,
    /// Authentication bootstrap configuration.
    pub auth: AuthConfig,
    /// Internal peer-to-peer coordination settings.
    pub internal: InternalConfig,
}

/// Authentication bootstrap and runtime configuration.
#[derive(Debug, PartialEq, Eq)]
pub struct AuthConfig {
    /// Static bearer tokens bound to explicit principals for bootstrapping.
    pub bootstrap_tokens: Vec<BootstrapTokenConfig>,
}

/// Internal peer-to-peer coordination settings.
#[derive(Debug, PartialEq, Eq)]
pub struct InternalConfig {
    /// Shared bearer token required for internal replica transfer.
    pub replica_token: Option<String>,
    /// Per-request timeout for internal replica transfer over HTTP.
    pub replica_transfer_timeout_ms: u64,
    /// Explicit single-host escape hatch for loopback or otherwise non-routable replica endpoints.
    pub allow_non_routable_rest_advertise_host: bool,
}

/// One bearer token bootstrap binding.
#[derive(Debug, PartialEq, Eq)]
pub struct BootstrapTokenConfig {
    /// Shared secret bearer token value.
    pub token: String,
    /// Principal authenticated by this bootstrap token.
    pub principal: Principal,
    /// Access tier of the principal.
    pub access_tier: AccessTier,
}

/// Which hosts of a configuration, without surrounding whitespace, are the
/// notation of an IP address that is unspecified or loopback.
#[derive(Clone, Copy, Debug, PartialEq, Eq, Structural)]
pub struct LocalAddresses {
    /// Host of the REST listener.
    pub rest_host: bool,
    /// Host of the gRPC listener.
    pub grpc_host: bool,
    /// Advertised REST host.
    pub advertised_rest_host: bool,
    /// Advertised gRPC host.
    pub advertised_grpc_host: bool,
}

/// What is wrong with an optional setting, if anything: it has to be neither
/// blank nor surrounded by whitespace.
pub open spec fn optional_text_fault(label: Seq<char>, value: Option<String>) -> Option<Seq<char>> {
    match value {
        None => None,
        Some(text) => if is_blank(text@) {
            Some("invalid LOGPOSE_CONFIG: "@ + label + " must not be empty"@)
        } else if trimmed(text@) != text@ {
            Some(
                "invalid LOGPOSE_CONFIG: "@ + label
                    + " must not include leading or trailing whitespace"@,
            )
        } else {
            None
        },
    }
}

/// Validate an optional setting.
fn validate_optional_text(label: &str, value: &Option<String>) -> (outcome: Result<
    (),
    LogPoseError,
>)
    ensures
        reports_message(outcome, optional_text_fault(label@, *value)),
{
    match value {
        None => Ok(()),
        Some(text) => {
            if blank(text) {
                let mut message = "invalid LOGPOSE_CONFIG: ".to_owned();
                message.append(label);
                message.append(" must not be empty");
                return Err(LogPoseError::Message(message));
            }
            if !same_text(trim(text), text) {
                let mut message = "invalid LOGPOSE_CONFIG: ".to_owned();
                message.append(label);
                message.append(" must not include leading or trailing whitespace");
                return Err(LogPoseError::Message(message));
            }
            Ok(())
        },
    }
}

/// Timeout of an internal replica transfer, where none is configured.
pub fn default_replica_transfer_timeout_ms() -> (timeout: u64)
    ensures
        timeout == 5_000,
{
    5_000
}

impl Default for InternalConfig {
    fn default() -> (config: Self)
        ensures
            config.replica_token is None,
            config.replica_transfer_timeout_ms == 5_000,
            !config.allow_non_routable_rest_advertise_host,
    {
        InternalConfig {
            replica_token: None,
            replica_transfer_timeout_ms: default_replica_transfer_timeout_ms(),
            allow_non_routable_rest_advertise_host: false,
        }
    }
}

impl InternalConfig {
    /// What is wrong with the settings, if anything.
    pub open spec fn fault(self) -> Option<Seq<char>> {
        first_fault(
            optional_text_fault("internal.replica_token"@, self.replica_token),
            if self.replica_transfer_timeout_ms == 0 {
                Some(
                    "invalid LOGPOSE_CONFIG: internal.replica_transfer_timeout_ms must be greater than zero"@,
                )
            } else {
                None
            },
        )
    }

    /// Validate the settings.
    pub fn validate(&self) -> (outcome: Result<(), LogPoseError>)
        ensures
            reports_message(outcome, self.fault()),
    {
        let outcome = validate_optional_text("internal.replica_token", &self.replica_token);
        if outcome.is_err() {
            return outcome;
        }
        if self.replica_transfer_timeout_ms == 0 {
            return Err(
                LogPoseError::Message(
                    "invalid LOGPOSE_CONFIG: internal.replica_transfer_timeout_ms must be greater than zero".to_owned(),
                ),
            );
        }
        Ok(())
    }
}

impl BootstrapTokenConfig {
    /// What is wrong with the binding, if anything.
    pub open spec fn fault(self) -> Option<Seq<char>> {
        if is_blank(self.token@) {
            Some("token must not be empty"@)
        } else if trimmed(self.token@) != self.token@ {
            Some("token must not include leading or trailing whitespace"@)
        } else {
            self.principal.fault()
        }
    }

    /// Validate the binding.
    pub fn validate(&self) -> (outcome: Result<(), String>)
        ensures
            crate::auth::reports(outcome, self.fault()),
    {
        let bare = trim(&self.token);
        proof {
            lemma_trimmed_of_blank(self.token@);
        }
        if bare.is_empty() {
            return Err("token must not be empty".to_owned());
        }
        if !same_text(bare, &self.token) {
            return Err("token must not include leading or trailing whitespace".to_owned());
        }
        self.principal.validate()
    }
}

/// Whether one of the first `count` bindings has the token.
pub open spec fn token_seen(
    bindings: Seq<BootstrapTokenConfig>,
    count: int,
    token: Seq<char>,
) -> bool {
    exists|i: int| 0 <= i < count && (#[trigger] bindings[i]).token@ == token
}

/// Whether one of the first `count` bindings is for the principal.
pub open spec fn principal_seen(
    bindings: Seq<BootstrapTokenConfig>,
    count: int,
    name: Seq<char>,
) -> bool {
    exists|i: int| 0 <= i < count && (#[trigger] bindings[i]).principal.name@ == name
}

/// What is wrong with a binding behind others, if anything. A repeated token is
/// not itself part of what is said.
pub open spec fn binding_fault(bindings: Seq<BootstrapTokenConfig>, index: int) -> Option<
    Seq<char>,
> {
    match bindings[index].fault() {
        Some(fault) => Some(
            "invalid LOGPOSE_CONFIG: auth.bootstrap_tokens["@ + decimal(index as nat) + "] "@
                + fault,
        ),
        None => if token_seen(bindings, index, bindings[index].token@) {
            Some(
                "invalid LOGPOSE_CONFIG: auth.bootstrap_tokens must not contain duplicate token values"@,
            )
        } else if principal_seen(bindings, index, bindings[index].principal.name@) {
            Some(
                "invalid LOGPOSE_CONFIG: auth.bootstrap_tokens must not contain duplicate principal names"@,
            )
        } else {
            None
        },
    }
}

/// The fault of the earliest faulty binding among the first `count`.
pub open spec fn bindings_fault(bindings: Seq<BootstrapTokenConfig>, count: nat) -> Option<Seq<char>>
    decreases count,
{
    if count == 0 {
        None
    } else {
        first_fault(
            bindings_fault(bindings, (count - 1) as nat),
            binding_fault(bindings, count - 1),
        )
    }
}

proof fn lemma_bindings_fault_stays(bindings: Seq<BootstrapTokenConfig>, early: nat, late: nat)
    requires
        early <= late,
        bindings_fault(bindings, early) is Some,
    ensures
        bindings_fault(bindings, late) == bindings_fault(bindings, early),
    decreases late,
{
    if early < late {
        lemma_bindings_fault_stays(bindings, early, (late - 1) as nat);
    }
}

impl Default for AuthConfig {
    fn default() -> (config: Self)
        ensures
            config.bootstrap_tokens@.len() == 0,
    {
        AuthConfig { bootstrap_tokens: Vec::new() }
    }
}

impl AuthConfig {
    /// What is wrong with the settings, if anything.
    pub open spec fn fault(self) -> Option<Seq<char>> {
        bindings_fault(self.bootstrap_tokens@, self.bootstrap_tokens@.len())
    }

    fn has_token(&self, count: usize, token: &str) -> (seen: bool)
        requires
            count <= self.bootstrap_tokens@.len(),
        ensures
            seen == token_seen(self.bootstrap_tokens@, count as int, token@),
    {
        let mut index: usize = 0;
        while index < count
            invariant
                index <= count <= self.bootstrap_tokens@.len(),
                forall|i: int|
                    0 <= i < index ==> (#[trigger] self.bootstrap_tokens@[i]).token@ != token@,
            decreases count - index,
        {
            if same_text(&self.bootstrap_tokens[index].token, token) {
                return true;
            }
            index = index + 1;
        }
        false
    }

    fn has_principal(&self, count: usize, name: &str) -> (seen: bool)
        requires
            count <= self.bootstrap_tokens@.len(),
        ensures
            seen == principal_seen(self.bootstrap_tokens@, count as int, name@),
    {
        let mut index: usize = 0;
        while index < count
            invariant
                index <= count <= self.bootstrap_tokens@.len(),
                forall|i: int|
                    0 <= i < index ==> (#[trigger] self.bootstrap_tokens@[i]).principal.name@
                        != name@,
            decreases count - index,
        {
            if same_text(&self.bootstrap_tokens[index].principal.name, name) {
                return true;
            }
            index = index + 1;
        }
        false
    }

    /// Validate the settings.
    pub fn validate(&self) -> (outcome: Result<(), LogPoseError>)
        ensures
            reports_message(outcome, self.fault()),
    {
        let ghost bindings = self.bootstrap_tokens@;
        let mut index: usize = 0;
        while index < self.bootstrap_tokens.len()
            invariant
                bindings == self.bootstrap_tokens@,
                index <= bindings.len(),
                bindings_fault(bindings, index as nat) is None,
            decreases bindings.len() - index,
        {
            let binding = &self.bootstrap_tokens[index];
            let fault: Option<String> = match binding.validate() {
                Err(fault) => {
                    let mut message =
                        "invalid LOGPOSE_CONFIG: auth.bootstrap_tokens[".to_owned();
                    message.append(&decimal_text(index as u64));
                    message.append("] ");
                    message.append(&fault);
                    Some(message)
                },
                Ok(_) => if self.has_token(index, &binding.token) {
                    Some(
                        "invalid LOGPOSE_CONFIG: auth.bootstrap_tokens must not contain duplicate token values".to_owned(),
                    )
                } else if self.has_principal(index, &binding.principal.name) {
                    Some(
                        "invalid LOGPOSE_CONFIG: auth.bootstrap_tokens must not contain duplicate principal names".to_owned(),
                    )
                } else {
                    None
                },
            };
            match fault {
                Some(message) => {
                    proof {
                        lemma_bindings_fault_stays(bindings, (index + 1) as nat, bindings.len());
                    }
                    return Err(LogPoseError::Message(message));
                },
                None => {},
            }
            index = index + 1;
        }
        Ok(())
    }
}

/// Whether peers cannot reach a host under its name: it is the local host by name,
/// or an address that is unspecified or loopback.
pub open spec fn needs_advertise_host(host: Seq<char>, is_local_address: bool) -> bool {
    ||| same_ignoring_case(trimmed(host), "localhost"@)
    ||| trimmed(host) == "[::1]"@
    ||| is_local_address
}

/// Whether peers cannot reach a host under its name.
fn listener_host_requires_advertise_host(host: &str, is_local_address: bool) -> (result: bool)
    ensures
        result == needs_advertise_host(host@, is_local_address),
{
    let bare = trim(host);
    equal_ignoring_case(bare, "localhost") || same_text(bare, "[::1]") || is_local_address
}

impl Default for LogPoseConfig {
    fn default() -> (config: Self)
        ensures
            config.node_name@ == "logpose-node-1"@,
            config.node_role == NodeRole::Combined,
            config.rest_host@ == "127.0.0.1"@,
            config.rest_advertise_host is None,
            config.rest_port == 8080,
            config.grpc_host@ == "127.0.0.1"@,
            config.grpc_advertise_host is None,
            config.grpc_port == 50051,
            config.log_filter@ == "info,logpose=debug"@,
            config.storage_root@ == ".logpose"@,
            config.metadata.backend == MetadataBackend::Local,
            config.metadata.etcd.endpoints@.len() == 0,
            config.auth.bootstrap_tokens@.len() == 0,
            config.internal.replica_token is None,
            config.internal.replica_transfer_timeout_ms == 5_000,
            !config.internal.allow_non_routable_rest_advertise_host,
            forall|addresses: LocalAddresses| config.fault(addresses) is None,
    {
        proof {
            reveal_strlit("logpose-node-1");
            reveal_strlit("local");
            assert("logpose-node-1"@.len() != "local"@.len());
        }
        LogPoseConfig {
            node_name: "logpose-node-1".to_owned(),
            node_role: NodeRole::Combined,
            rest_host: "127.0.0.1".to_owned(),
            rest_advertise_host: None,
            rest_port: 8080,
            grpc_host: "127.0.0.1".to_owned(),
            grpc_advertise_host: None,
            grpc_port: 50051,
            log_filter: "info,logpose=debug".to_owned(),
            storage_root: ".logpose".to_owned(),
            metadata: MetadataConfig::default(),
            auth: AuthConfig::default(),
            internal: InternalConfig::default(),
        }
    }
}

/// The advertised host where there is one, and the bind host otherwise.
pub open spec fn advertised_host(advertised: Option<String>, bound: String) -> Seq<char> {
    match advertised {
        Some(host) => host@,
        None => bound@,
    }
}

impl LogPoseConfig {
    /// What keeps peers from reaching a data-serving node, if anything.
    pub open spec fn peer_fault(self, addresses: LocalAddresses) -> Option<Seq<char>> {
        let overridden = self.internal.allow_non_routable_rest_advertise_host;
        if !self.node_role.serves_data() {
            None
        } else if self.internal.replica_token is None {
            Some(
                "invalid LOGPOSE_CONFIG: internal.replica_token must be configured for etcd data-serving nodes"@,
            )
        } else if self.rest_advertise_host is None && needs_advertise_host(
            self.rest_host@,
            addresses.rest_host,
        ) {
            Some(
                "invalid LOGPOSE_CONFIG: rest_advertise_host must be configured for etcd data-serving nodes when rest_host is not peer-routable"@,
            )
        } else if self.grpc_advertise_host is None && needs_advertise_host(
            self.grpc_host@,
            addresses.grpc_host,
        ) {
            Some(
                "invalid LOGPOSE_CONFIG: grpc_advertise_host must be configured for etcd data-serving nodes when grpc_host is not peer-routable"@,
            )
        } else if needs_advertise_host(
            advertised_host(self.rest_advertise_host, self.rest_host),
            addresses.advertised_rest_host,
        ) && !overridden {
            Some(
                "invalid LOGPOSE_CONFIG: advertised REST endpoints for etcd data-serving nodes must be peer-routable unless internal.allow_non_routable_rest_advertise_host = true"@,
            )
        } else if needs_advertise_host(
            advertised_host(self.grpc_advertise_host, self.grpc_host),
            addresses.advertised_grpc_host,
        ) && !overridden {
            Some(
                "invalid LOGPOSE_CONFIG: advertised gRPC endpoints for etcd data-serving nodes must be peer-routable unless internal.allow_non_routable_rest_advertise_host = true"@,
            )
        } else {
            None
        }
    }

    /// What is wrong with the metadata backend, if anything.
    pub open spec fn metadata_fault(self, addresses: LocalAddresses) -> Option<Seq<char>> {
        if self.metadata.backend != MetadataBackend::Etcd {
            None
        } else {
            match self.metadata.etcd.fault() {
                Some(fault) => Some("invalid LOGPOSE_CONFIG: "@ + fault),
                None => self.peer_fault(addresses),
            }
        }
    }

    /// What is wrong with the node name, if anything.
    pub open spec fn name_fault(self) -> Option<Seq<char>> {
        if self.node_name@ == "local"@ {
            Some(
                "invalid LOGPOSE_CONFIG: node_name 'local' is reserved for anonymous local placement metadata"@,
            )
        } else {
            None
        }
    }

    /// What is wrong with the configuration, if anything.
    pub open spec fn fault(self, addresses: LocalAddresses) -> Option<Seq<char>> {
        first_fault(
            self.name_fault(),
            first_fault(
                optional_text_fault("rest_advertise_host"@, self.rest_advertise_host),
                first_fault(
                    optional_text_fault("grpc_advertise_host"@, self.grpc_advertise_host),
                    first_fault(
                        self.internal.fault(),
                        first_fault(self.metadata_fault(addresses), self.auth.fault()),
                    ),
                ),
            ),
        )
    }

    /// Return the peer-visible REST host, falling back to the bind host.
    pub fn advertised_rest_host(&self) -> (host: &str)
        ensures
            host@ == advertised_host(self.rest_advertise_host, self.rest_host),
    {
        match &self.rest_advertise_host {
            Some(host) => host.as_str(),
            None => self.rest_host.as_str(),
        }
    }

    /// Return the peer-visible gRPC host, falling back to the bind host.
    pub fn advertised_grpc_host(&self) -> (host: &str)
        ensures
            host@ == advertised_host(self.grpc_advertise_host, self.grpc_host),
    {
        match &self.grpc_advertise_host {
            Some(host) => host.as_str(),
            None => self.grpc_host.as_str(),
        }
    }

    fn validate_etcd_peer_connectivity(&self, addresses: &LocalAddresses) -> (outcome: Result<
        (),
        LogPoseError,
    >)
        ensures
            reports_message(outcome, self.peer_fault(*addresses)),
    {
        if !self.node_role.is_data_serving() {
            return Ok(());
        }
        if self.internal.replica_token.is_none() {
            return Err(
                LogPoseError::Message(
                    "invalid LOGPOSE_CONFIG: internal.replica_token must be configured for etcd data-serving nodes".to_owned(),
                ),
            );
        }
        if self.rest_advertise_host.is_none() && listener_host_requires_advertise_host(
            &self.rest_host,
            addresses.rest_host,
        ) {
            return Err(
                LogPoseError::Message(
                    "invalid LOGPOSE_CONFIG: rest_advertise_host must be configured for etcd data-serving nodes when rest_host is not peer-routable".to_owned(),
                ),
            );
        }
        if self.grpc_advertise_host.is_none() && listener_host_requires_advertise_host(
            &self.grpc_host,
            addresses.grpc_host,
        ) {
            return Err(
                LogPoseError::Message(
                    "invalid LOGPOSE_CONFIG: grpc_advertise_host must be configured for etcd data-serving nodes when grpc_host is not peer-routable".to_owned(),
                ),
            );
        }
        if listener_host_requires_advertise_host(
            self.advertised_rest_host(),
            addresses.advertised_rest_host,
        ) && !self.internal.allow_non_routable_rest_advertise_host {
            return Err(
                LogPoseError::Message(
                    "invalid LOGPOSE_CONFIG: advertised REST endpoints for etcd data-serving nodes must be peer-routable unless internal.allow_non_routable_rest_advertise_host = true".to_owned(),
                ),
            );
        }
        if listener_host_requires_advertise_host(
            self.advertised_grpc_host(),
            addresses.advertised_grpc_host,
        ) && !self.internal.allow_non_routable_rest_advertise_host {
            return Err(
                LogPoseError::Message(
                    "invalid LOGPOSE_CONFIG: advertised gRPC endpoints for etcd data-serving nodes must be peer-routable unless internal.allow_non_routable_rest_advertise_host = true".to_owned(),
                ),
            );
        }
        Ok(())
    }

    /// Validate configuration invariants that must hold before runtime bootstrap.
    pub fn validate(&self, addresses: &LocalAddresses) -> (outcome: Result<(), LogPoseError>)
        ensures
            reports_message(outcome, self.fault(*addresses)),
    {
        if same_text(&self.node_name, "local") {
            return Err(
                LogPoseError::Message(
                    "invalid LOGPOSE_CONFIG: node_name 'local' is reserved for anonymous local placement metadata".to_owned(),
                ),
            );
        }
        let rest = validate_optional_text("rest_advertise_host", &self.rest_advertise_host);
        if rest.is_err() {
            return rest;
        }
        let grpc = validate_optional_text("grpc_advertise_host", &self.grpc_advertise_host);
        if grpc.is_err() {
            return grpc;
        }
        let internal = self.internal.validate();
        if internal.is_err() {
            return internal;
        }
        match self.metadata.backend {
            MetadataBackend::Etcd => {
                match self.metadata.etcd.validate() {
                    Err(error) => {
                        let mut message = "invalid LOGPOSE_CONFIG: ".to_owned();
                        message.append(&error.to_text());
                        return Err(LogPoseError::Message(message));
                    },
                    Ok(_) => {},
                }
                let peers = self.validate_etcd_peer_connectivity(addresses);
                if peers.is_err() {
                    return peers;
                }
            },
            MetadataBackend::Local => {},
        }
        self.auth.validate()
    }

    /// Accept a configuration that was read from text, or say why it is refused.
    pub fn from_parsed(parsed: Result<LogPoseConfig, String>, addresses: &LocalAddresses) -> (outcome:
        Result<LogPoseConfig, LogPoseError>)
        ensures
            match (parsed, outcome) {
                (Err(fault), Err(error)) => error.message() == "invalid LOGPOSE_CONFIG: "@ + fault@,
                (Ok(config), Err(error)) => config.fault(*addresses) == Some(error.message()),
                (Ok(config), Ok(accepted)) => config.fault(*addresses) is None && accepted
                    == config,
                _ => false,
            },
    {
        match parsed {
            Err(fault) => {
                let mut message = "invalid LOGPOSE_CONFIG: ".to_owned();
                message.append(&fault);
                Err(LogPoseError::Message(message))
            },
            Ok(config) => match config.validate(addresses) {
                Ok(_) => Ok(config),
                Err(error) => Err(error),
            },
        }
    }
}

/// The configuration text that the environment provides; a blank one counts as
/// none, and defaults apply.
pub fn provided_config(value: Option<&str>) -> (text: Option<&str>)
    ensures
        match (value, text) {
            (Some(provided), Some(used)) => !is_blank(provided@) && used == provided,
            (Some(provided), None) => is_blank(provided@),
            (None, None) => true,
            _ => false,
        },
{
    match value {
        Some(provided) => if blank(provided) {
            None
        } else {
            Some(provided)
        },
        None => None,
    }
}

/// In valid settings no two bindings share a token or a principal, and every
/// token is free of surrounding whitespace.
pub proof fn law_valid_bindings_are_distinct(config: AuthConfig)
    requires
        config.fault() is None,
    ensures
        forall|i: int, j: int|
            0 <= i < j < config.bootstrap_tokens@.len() ==> {
                &&& (#[trigger] config.bootstrap_tokens@[i]).token@ != (
                #[trigger] config.bootstrap_tokens@[j]).token@
                &&& config.bootstrap_tokens@[i].principal.name@
                    != config.bootstrap_tokens@[j].principal.name@
            },
        forall|i: int|
            0 <= i < config.bootstrap_tokens@.len() ==> {
                &&& !is_blank((#[trigger] config.bootstrap_tokens@[i]).token@)
                &&& trimmed(config.bootstrap_tokens@[i].token@)
                    == config.bootstrap_tokens@[i].token@
                &&& config.bootstrap_tokens@[i].principal.fault() is None
            },
{
    let bindings = config.bootstrap_tokens@;
    assert forall|i: int| 0 <= i < bindings.len() implies #[trigger] binding_fault(
        bindings,
        i,
    ) is None by {
        if binding_fault(bindings, i) is Some {
            assert(bindings_fault(bindings, (i + 1) as nat) is Some);
            lemma_bindings_fault_stays(bindings, (i + 1) as nat, bindings.len());
        }
    }
    assert forall|i: int, j: int| 0 <= i < j < bindings.len() implies {
        &&& (#[trigger] bindings[i]).token@ != (#[trigger] bindings[j]).token@
        &&& bindings[i].principal.name@ != bindings[j].principal.name@
    } by {
        assert(binding_fault(bindings, j) is None);
    }
    assert forall|i: int| 0 <= i < bindings.len() implies {
        &&& !is_blank((#[trigger] bindings[i]).token@)
        &&& trimmed(bindings[i].token@) == bindings[i].token@
        &&& bindings[i].principal.fault() is None
    } by {
        assert(binding_fault(bindings, i) is None);
    }
}

/// A valid node never has the name that stands for anonymous local placement.
///
/// Where it serves data under the metadata of a cluster, it has a replica token, and peers can
/// reach the hosts that it advertises, unless the settings say that they need not.
pub proof fn law_valid_data_nodes_can_be_reached(config: LogPoseConfig, addresses: LocalAddresses)
    requires
        config.fault(addresses) is None,
    ensures
        config.node_name@ != "local"@,
        config.metadata.backend == MetadataBackend::Etcd && config.node_role.serves_data() ==> {
            &&& config.internal.replica_token is Some
            &&& config.internal.allow_non_routable_rest_advertise_host || {
                &&& !needs_advertise_host(
                    advertised_host(config.rest_advertise_host, config.rest_host),
                    addresses.advertised_rest_host,
                )
                &&& !needs_advertise_host(
                    advertised_host(config.grpc_advertise_host, config.grpc_host),
                    addresses.advertised_grpc_host,
                )
            }
        },
{
}

/// Which hosts are addresses of this machine only matters to nodes that serve data under the
/// metadata of a cluster.
pub proof fn law_only_clustered_data_nodes_need_addresses(
    config: LogPoseConfig,
    left: LocalAddresses,
    right: LocalAddresses,
)
    requires
        config.metadata.backend == MetadataBackend::Local || !config.node_role.serves_data(),
    ensures
        config.fault(left) == config.fault(right),
{
}

/// Whatever the bindings are, a fault names no token: bindings that differ in
/// nothing but their tokens, and break the same rules, are refused in the same words.
pub proof fn law_token_faults_name_no_token(
    left: Seq<BootstrapTokenConfig>,
    right: Seq<BootstrapTokenConfig>,
    index: int,
)
    requires
        0 <= index < left.len() == right.len(),
        forall|i: int|
            0 <= i < left.len() ==> (#[trigger] left[i]).principal == right[i].principal,
        left[index].fault() == right[index].fault(),
        token_seen(left, index, left[index].token@) == token_seen(
            right,
            index,
            right[index].token@,
        ),
    ensures
        binding_fault(left, index) == binding_fault(right, index),
{
    let name = left[index].principal.name@;
    if principal_seen(left, index, name) {
        let i = choose|i: int| 0 <= i < index && (#[trigger] left[i]).principal.name@ == name;
        assert(right[i].principal.name@ == name);
    }
    if principal_seen(right, index, name) {
        let i = choose|i: int| 0 <= i < index && (#[trigger] right[i]).principal.name@ == name;
        assert(left[i].principal.name@ == name);
    }
}

proof fn lemma_trimmed_stays(text: Seq<char>)
    ensures
        !is_blank(text) && trimmed(text) == text <==> text.len() > 0 && !is_space(text[0])
            && !is_space(text.last()),
{
    crate::text::law_trimming_cuts_whitespace_alone(text);
    lemma_trimmed_of_blank(text);
    if text.len() > 0 && !is_space(text[0]) && !is_space(text.last()) {
        crate::text::lemma_leading_kept(text);
        crate::text::lemma_trailing_kept(text);
    }
}

/// An optional setting is valid where it is missing, or starts and ends with something but
/// whitespace; and so are tokens.
pub proof fn law_settings_have_no_space_around_them(
    label: Seq<char>,
    value: Option<String>,
    token: BootstrapTokenConfig,
    internal: InternalConfig,
)
    ensures
        optional_text_fault(label, value) is None <==> (value matches Some(text) ==> text@.len() > 0
            && !is_space(text@[0]) && !is_space(text@.last())),
        token.fault() is None <==> token.token@.len() > 0 && !is_space(token.token@[0])
            && !is_space(token.token@.last()) && !is_blank(token.principal.name@),
        internal.fault() is None <==> internal.replica_transfer_timeout_ms > 0 && (
        internal.replica_token matches Some(text) ==> text@.len() > 0 && !is_space(text@[0])
            && !is_space(text@.last())),
{
    if let Some(text) = value {
        lemma_trimmed_stays(text@);
    }
    if let Some(text) = internal.replica_token {
        lemma_trimmed_stays(text@);
    }
    lemma_trimmed_stays(token.token@);
}

proof fn lemma_bindings_fault_source(bindings: Seq<BootstrapTokenConfig>, count: nat)
    requires
        count <= bindings.len(),
        bindings_fault(bindings, count) is Some,
    ensures
        exists|i: int| 0 <= i < count && #[trigger] binding_fault(bindings, i) is Some,
    decreases count,
{
    if bindings_fault(bindings, (count - 1) as nat) is Some {
        lemma_bindings_fault_source(bindings, (count - 1) as nat);
    } else {
        assert(binding_fault(bindings, count - 1) is Some);
    }
}

/// Bindings are valid exactly when each is and no two of them share a token or the name of a
/// principal.
pub proof fn law_bindings_are_valid(config: AuthConfig)
    ensures
        config.fault() is None <==> {
            let bindings = config.bootstrap_tokens@;
            &&& forall|i: int|
                0 <= i < bindings.len() ==> (#[trigger] bindings[i]).fault() is None
            &&& forall|i: int, j: int|
                0 <= i < j < bindings.len() ==> (#[trigger] bindings[i]).token@ != (
                #[trigger] bindings[j]).token@ && bindings[i].principal.name@
                    != bindings[j].principal.name@
        },
{
    let bindings = config.bootstrap_tokens@;
    if config.fault() is None {
        law_valid_bindings_are_distinct(config);
        assert forall|i: int| 0 <= i < bindings.len() implies (
        #[trigger] bindings[i]).fault() is None by {
            assert(!is_blank(bindings[i].token@));
        }
    } else {
        lemma_bindings_fault_source(bindings, bindings.len());
        let i = choose|i: int|
            0 <= i < bindings.len() && #[trigger] binding_fault(bindings, i) is Some;
        if bindings[i].fault() is None {
            if token_seen(bindings, i, bindings[i].token@) {
                let j = choose|j: int|
                    0 <= j < i && (#[trigger] bindings[j]).token@ == bindings[i].token@;
                assert(bindings[j].token@ == bindings[i].token@);
            } else {
                let j = choose|j: int|
                    0 <= j < i && (#[trigger] bindings[j]).principal.name@
                        == bindings[i].principal.name@;
                assert(bindings[j].principal.name@ == bindings[i].principal.name@);
            }
        }
    }
}

/// Peers cannot reach a host that is an address of its own machine, or `localhost` in whatever case,
/// or the loopback address in brackets; they can reach any other.
pub proof fn law_hosts_that_need_advertising(host: Seq<char>)
    ensures
        needs_advertise_host(host, true),
        needs_advertise_host(host, false) <==> trimmed(host) == "[::1]"@ || trimmed(host).len() == 9
            && forall|i: int|
            0 <= i < 9 ==> crate::text::ascii_lower(#[trigger] trimmed(host)[i]) == "localhost"@[i],
{
    reveal_strlit("localhost");
    let bare = trimmed(host);
    let name = "localhost"@;
    assert(name.len() == 9);
    assert forall|i: int| 0 <= i < 9 implies crate::text::ascii_lower(#[trigger] name[i])
        == name[i] by {}
    if needs_advertise_host(host, false) && bare != "[::1]"@ {
        assert forall|i: int| 0 <= i < 9 implies crate::text::ascii_lower(#[trigger] bare[i])
            == name[i] by {
            assert(crate::text::ascii_lower(name[i]) == name[i]);
        }
    }
    if bare.len() == 9 && (forall|i: int|
        0 <= i < 9 ==> crate::text::ascii_lower(#[trigger] bare[i]) == name[i]) {
        assert forall|i: int| 0 <= i < bare.len() implies crate::text::ascii_lower(
            #[trigger] bare[i],
        ) == crate::text::ascii_lower(name[i]) by {
            assert(crate::text::ascii_lower(name[i]) == name[i]);
        }
    }
}

/// A configuration is valid exactly when the node has another name than the reserved one, each part
/// is valid by itself, and a node that serves data under the metadata of a cluster has a replica
/// token and hosts that peers can reach: one to advertise where the host that it listens on cannot
/// be reached, and none advertised that cannot be, unless the settings allow it.
pub proof fn law_configurations_are_valid(config: LogPoseConfig, addresses: LocalAddresses)
    ensures
        config.fault(addresses) is None <==> {
            let clustered = config.metadata.backend == MetadataBackend::Etcd;
            let serving = config.node_role == NodeRole::Combined || config.node_role
                == NodeRole::Data;
            let allowed = config.internal.allow_non_routable_rest_advertise_host;
            let rest = match config.rest_advertise_host {
                Some(host) => host@,
                None => config.rest_host@,
            };
            let grpc = match config.grpc_advertise_host {
                Some(host) => host@,
                None => config.grpc_host@,
            };
            &&& config.node_name@ != "local"@
            &&& optional_text_fault("rest_advertise_host"@, config.rest_advertise_host) is None
            &&& optional_text_fault("grpc_advertise_host"@, config.grpc_advertise_host) is None
            &&& config.internal.fault() is None
            &&& config.auth.fault() is None
            &&& clustered ==> config.metadata.etcd.fault() is None
            &&& clustered && serving ==> {
                &&& config.internal.replica_token is Some
                &&& config.rest_advertise_host is Some || !needs_advertise_host(
                    config.rest_host@,
                    addresses.rest_host,
                )
                &&& config.grpc_advertise_host is Some || !needs_advertise_host(
                    config.grpc_host@,
                    addresses.grpc_host,
                )
                &&& allowed || !needs_advertise_host(rest, addresses.advertised_rest_host)
                &&& allowed || !needs_advertise_host(grpc, addresses.advertised_grpc_host)
            }
        },
{
}

/// The host that peers are told of is the advertised one where there is one, else the one that is
/// listened on.
pub proof fn law_advertised_hosts(advertised: String, bound: String)
    ensures
        advertised_host(Some(advertised), bound) == advertised@,
        advertised_host(None, bound) == bound@,
{
}

/// What is wrong with a setting, a binding or the internal settings is named.
pub proof fn law_setting_faults_are_named(
    label: Seq<char>,
    text: String,
    binding: BootstrapTokenConfig,
    internal: InternalConfig,
)
    ensures
        is_blank(text@) ==> optional_text_fault(label, Some(text)) == Some(
            "invalid LOGPOSE_CONFIG: "@ + label + " must not be empty"@,
        ),
        !is_blank(text@) && trimmed(text@) != text@ ==> optional_text_fault(label, Some(text))
            == Some(
            "invalid LOGPOSE_CONFIG: "@ + label
                + " must not include leading or trailing whitespace"@,
        ),
        is_blank(binding.token@) ==> binding.fault() == Some("token must not be empty"@),
        !is_blank(binding.token@) && trimmed(binding.token@) != binding.token@ ==> binding.fault()
            == Some("token must not include leading or trailing whitespace"@),
        !is_blank(binding.token@) && trimmed(binding.token@) == binding.token@ ==> binding.fault()
            == binding.principal.fault(),
        optional_text_fault("internal.replica_token"@, internal.replica_token) is Some
            ==> internal.fault() == optional_text_fault(
            "internal.replica_token"@,
            internal.replica_token,
        ),
        optional_text_fault("internal.replica_token"@, internal.replica_token) is None
            && internal.replica_transfer_timeout_ms == 0 ==> internal.fault() == Some(
            "invalid LOGPOSE_CONFIG: internal.replica_transfer_timeout_ms must be greater than zero"@,
        ),
{
}

/// The first binding that is not valid is named, where those before it are valid and distinct.
pub proof fn law_binding_faults_are_named(config: AuthConfig, index: int)
    requires
        0 <= index < config.bootstrap_tokens@.len(),
        forall|i: int|
            0 <= i < index ==> (#[trigger] config.bootstrap_tokens@[i]).fault() is None,
        forall|i: int, j: int|
            0 <= i < j < index ==> (#[trigger] config.bootstrap_tokens@[i]).token@ != (
            #[trigger] config.bootstrap_tokens@[j]).token@
                && config.bootstrap_tokens@[i].principal.name@
                != config.bootstrap_tokens@[j].principal.name@,
    ensures
        ({
            let bindings = config.bootstrap_tokens@;
            &&& bindings[index].fault() matches Some(fault) ==> config.fault() == Some(
                "invalid LOGPOSE_CONFIG: auth.bootstrap_tokens["@ + decimal(index as nat) + "] "@
                    + fault,
            )
            &&& bindings[index].fault() is None && (exists|i: int|
                0 <= i < index && (#[trigger] bindings[i]).token@ == bindings[index].token@)
                ==> config.fault() == Some(
                "invalid LOGPOSE_CONFIG: auth.bootstrap_tokens must not contain duplicate token values"@,
            )
            &&& bindings[index].fault() is None && (forall|i: int|
                0 <= i < index ==> (#[trigger] bindings[i]).token@ != bindings[index].token@) && (
            exists|i: int|
                0 <= i < index && (#[trigger] bindings[i]).principal.name@
                    == bindings[index].principal.name@) ==> config.fault() == Some(
                "invalid LOGPOSE_CONFIG: auth.bootstrap_tokens must not contain duplicate principal names"@,
            )
        }),
{
    let bindings = config.bootstrap_tokens@;
    lemma_bindings_pass(bindings, index as nat);
    if binding_fault(bindings, index) is Some {
        assert(bindings_fault(bindings, (index + 1) as nat) == binding_fault(bindings, index));
        lemma_bindings_fault_stays(bindings, (index + 1) as nat, bindings.len());
    }
}

proof fn lemma_bindings_pass(bindings: Seq<BootstrapTokenConfig>, count: nat)
    requires
        count <= bindings.len(),
        forall|i: int| 0 <= i < count ==> (#[trigger] bindings[i]).fault() is None,
        forall|i: int, j: int|
            0 <= i < j < count ==> (#[trigger] bindings[i]).token@ != (#[trigger] bindings[j]).token@
                && bindings[i].principal.name@ != bindings[j].principal.name@,
    ensures
        bindings_fault(bindings, count) is None,
    decreases count,
{
    if count > 0 {
        lemma_bindings_pass(bindings, (count - 1) as nat);
        assert(bindings[count - 1].fault() is None);
    }
}

/// What is wrong with a configuration is said of its parts in order: the name, the advertised
/// hosts, the internal settings, the metadata store and the bindings.
pub proof fn law_configuration_faults_come_in_order(
    config: LogPoseConfig,
    addresses: LocalAddresses,
)
    ensures
        ({
            let rest = optional_text_fault("rest_advertise_host"@, config.rest_advertise_host);
            let grpc = optional_text_fault("grpc_advertise_host"@, config.grpc_advertise_host);
            let reserved = config.node_name@ == "local"@;
            let clustered = config.metadata.backend == MetadataBackend::Etcd;
            let fault = config.fault(addresses);
            &&& reserved ==> fault == Some(
                "invalid LOGPOSE_CONFIG: node_name 'local' is reserved for anonymous local placement metadata"@,
            )
            &&& !reserved && rest is Some ==> fault == rest
            &&& !reserved && rest is None && grpc is Some ==> fault == grpc
            &&& !reserved && rest is None && grpc is None && config.internal.fault() is Some
                ==> fault == config.internal.fault()
            &&& !reserved && rest is None && grpc is None && config.internal.fault() is None ==> {
                &&& clustered ==> (config.metadata.etcd.fault() matches Some(message) ==> fault
                    == Some("invalid LOGPOSE_CONFIG: "@ + message))
                &&& clustered && config.metadata.etcd.fault() is None && config.peer_fault(
                    addresses,
                ) is Some ==> fault == config.peer_fault(addresses)
                &&& clustered && config.metadata.etcd.fault() is None && config.peer_fault(
                    addresses,
                ) is None ==> fault == config.auth.fault()
                &&& !clustered ==> fault == config.auth.fault()
            }
        }),
{
}

/// What keeps peers from reaching a node that serves data is named: a missing token first, then
/// hosts that are to be advertised, and then advertised hosts that cannot be reached.
pub proof fn law_unreachable_nodes_are_named(config: LogPoseConfig, addresses: LocalAddresses)
    requires
        config.node_role == NodeRole::Combined || config.node_role == NodeRole::Data,
    ensures
        ({
            let fault = config.peer_fault(addresses);
            let lone_rest = config.rest_advertise_host is None && needs_advertise_host(
                config.rest_host@,
                addresses.rest_host,
            );
            let lone_grpc = config.grpc_advertise_host is None && needs_advertise_host(
                config.grpc_host@,
                addresses.grpc_host,
            );
            let far_rest = needs_advertise_host(
                advertised_host(config.rest_advertise_host, config.rest_host),
                addresses.advertised_rest_host,
            );
            let far_grpc = needs_advertise_host(
                advertised_host(config.grpc_advertise_host, config.grpc_host),
                addresses.advertised_grpc_host,
            );
            let allowed = config.internal.allow_non_routable_rest_advertise_host;
            let secured = config.internal.replica_token is Some;
            &&& !secured ==> fault == Some(
                "invalid LOGPOSE_CONFIG: internal.replica_token must be configured for etcd data-serving nodes"@,
            )
            &&& secured && lone_rest ==> fault == Some(
                "invalid LOGPOSE_CONFIG: rest_advertise_host must be configured for etcd data-serving nodes when rest_host is not peer-routable"@,
            )
            &&& secured && !lone_rest && lone_grpc ==> fault == Some(
                "invalid LOGPOSE_CONFIG: grpc_advertise_host must be configured for etcd data-serving nodes when grpc_host is not peer-routable"@,
            )
            &&& secured && !lone_rest && !lone_grpc && far_rest && !allowed ==> fault == Some(
                "invalid LOGPOSE_CONFIG: advertised REST endpoints for etcd data-serving nodes must be peer-routable unless internal.allow_non_routable_rest_advertise_host = true"@,
            )
            &&& secured && !lone_rest && !lone_grpc && !far_rest && far_grpc && !allowed ==> fault
                == Some(
                "invalid LOGPOSE_CONFIG: advertised gRPC endpoints for etcd data-serving nodes must be peer-routable unless internal.allow_non_routable_rest_advertise_host = true"@,
            )
        }),
{
}

} // verus!
