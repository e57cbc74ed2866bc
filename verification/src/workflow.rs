//! The order in which a node works on collections and on the shared catalog.
//!
//! Each operation is a series of steps. A step says what has to be done next; what that gives is
//! handed back, and leads to the next step.

use crate::access::outcome_model;
use crate::catalog::{CollectionDescriptor, DatabaseDescriptor};
use crate::domain::{CollectionPlacement, CommitAck, Snapshot};
use crate::namespace::{database_or_default, default_database_if_blank};
use crate::text::{decimal, decimal_text, is_blank, same_text};
use crate::types::{default_database, NodeRole, ServiceError, ServiceErrorKind, ServiceErrorModel};
use vstd::prelude::*;
use vstd::string::*;

verus! {

/// A refusal of a malformed request.
pub open spec fn invalid(message: Seq<char>) -> ServiceErrorModel {
    ServiceErrorModel { kind: ServiceErrorKind::InvalidArgument, message }
}

/// A failure of the service.
pub open spec fn internal(message: Seq<char>) -> ServiceErrorModel {
    ServiceErrorModel { kind: ServiceErrorKind::Internal, message }
}

/// Whether a node of the given role and name takes part in the data plane.
pub open spec fn data_plane_check(role: NodeRole, node_name: Seq<char>) -> Result<
    (),
    ServiceErrorModel,
> {
    if role.serves_data() {
        Ok(())
    } else {
        Err(
            invalid(
                "node '"@ + node_name + "' is running as '"@ + role.text()
                    + "' and cannot accept data-plane operations"@,
            ),
        )
    }
}

/// Refuse data-plane operations on a node that takes no part in the data plane.
pub fn require_data_plane(role: NodeRole, node_name: &str) -> (outcome: Result<(), ServiceError>)
    ensures
        outcome_model(outcome) == data_plane_check(role, node_name@),
{
    if role.is_data_serving() {
        return Ok(());
    }
    let mut message = "node '".to_owned();
    message.append(node_name);
    message.append("' is running as '");
    message.append(role.as_str());
    message.append("' and cannot accept data-plane operations");
    Err(ServiceError::InvalidArgument(message))
}

/// Whether a node of the given role may change databases.
pub open spec fn database_mutation_check(role: NodeRole) -> Result<(), ServiceErrorModel> {
    if role == NodeRole::Data {
        Err(invalid("data-only nodes cannot accept control-plane database mutations"@))
    } else {
        Ok(())
    }
}

/// Refuse changes to databases on a node without a control plane.
pub fn require_control_plane_database_mutation(role: NodeRole) -> (outcome: Result<
    (),
    ServiceError,
>)
    ensures
        outcome_model(outcome) == database_mutation_check(role),
{
    match role {
        NodeRole::Data => Err(
            ServiceError::InvalidArgument(
                "data-only nodes cannot accept control-plane database mutations".to_owned(),
            ),
        ),
        NodeRole::Control => Ok(()),
        NodeRole::Combined => Ok(()),
    }
}

/// Whether a node of the given role may create collections.
pub open spec fn collection_mutation_check(role: NodeRole) -> Result<(), ServiceErrorModel> {
    match role {
        NodeRole::Data => Err(
            invalid(
                "data-only nodes cannot accept control-plane collection lifecycle mutations"@,
            ),
        ),
        NodeRole::Control => Err(
            invalid(
                "control-only nodes cannot accept control-plane collection lifecycle mutations without a local data plane"@,
            ),
        ),
        NodeRole::Combined => Ok(()),
    }
}

/// Refuse the creation of collections on a node that lacks one of the planes.
pub fn require_control_plane_collection_mutation(role: NodeRole) -> (outcome: Result<
    (),
    ServiceError,
>)
    ensures
        outcome_model(outcome) == collection_mutation_check(role),
{
    match role {
        NodeRole::Data => Err(
            ServiceError::InvalidArgument(
                "data-only nodes cannot accept control-plane collection lifecycle mutations".to_owned(),
            ),
        ),
        NodeRole::Control => Err(
            ServiceError::InvalidArgument(
                "control-only nodes cannot accept control-plane collection lifecycle mutations without a local data plane".to_owned(),
            ),
        ),
        NodeRole::Combined => Ok(()),
    }
}

/// How messages name the collection of a placement.
pub open spec fn placement_name(placement: CollectionPlacement) -> Seq<char> {
    placement.database_name@ + "/"@ + placement.collection_name@
}

/// How messages name the collection of a placement.
pub fn placement_identity(placement: &CollectionPlacement) -> (name: String)
    ensures
        name@ == placement_name(*placement),
{
    let mut name = placement.database_name.clone();
    name.append("/");
    name.append(&placement.collection_name);
    name
}

/// Whether a placement says that the collection is served here.
pub open spec fn served_locally(placement: CollectionPlacement) -> bool {
    placement.route_kind@ == "local"@ && placement.assigned_role.serves_data()
}

/// The node that a placement sends requests to.
pub open spec fn routed_node(placement: CollectionPlacement) -> Seq<char> {
    match placement.owner_node {
        Some(owner) => owner@,
        None => placement.assigned_node@,
    }
}

/// Whether the collection of a placement is served by the node of the given name.
pub open spec fn locality_check(placement: CollectionPlacement, node_name: Seq<char>) -> Result<
    (),
    ServiceErrorModel,
> {
    if served_locally(placement) {
        Ok(())
    } else {
        Err(
            invalid(
                "collection '"@ + placement_name(placement) + "' is assigned to node '"@
                    + routed_node(placement) + "' with role '"@ + placement.assigned_role.text()
                    + "' and is not locally served by node '"@ + node_name + "'"@,
            ),
        )
    }
}

/// Refuse to read a collection that another node serves.
pub fn require_local_placement(placement: &CollectionPlacement, node_name: &str) -> (outcome:
    Result<(), ServiceError>)
    ensures
        outcome_model(outcome) == locality_check(*placement, node_name@),
{
    if same_text(&placement.route_kind, "local") && placement.assigned_role.is_data_serving() {
        return Ok(());
    }
    let mut message = "collection '".to_owned();
    message.append(&placement_identity(placement));
    message.append("' is assigned to node '");
    match &placement.owner_node {
        Some(owner) => {
            message.append(owner);
        },
        None => {
            message.append(&placement.assigned_node);
        },
    }
    message.append("' with role '");
    message.append(placement.assigned_role.as_str());
    message.append("' and is not locally served by node '");
    message.append(node_name);
    message.append("'");
    Err(ServiceError::InvalidArgument(message))
}

/// Whether a placement can satisfy a read barrier, where one is asked for.
pub open spec fn barrier_check(placement: CollectionPlacement, has_barrier: bool) -> Result<
    (),
    ServiceErrorModel,
> {
    match placement.ownership_epoch {
        Some(epoch) => if has_barrier && epoch > 1 {
            Err(
                ServiceErrorModel {
                    kind: ServiceErrorKind::FailedPrecondition,
                    message: "collection '"@ + placement_name(placement)
                        + "' is serving at ownership epoch "@ + decimal(epoch as nat)
                        + " and cannot safely satisfy read barriers after promotion until replica freshness metadata is implemented"@,
                },
            )
        } else {
            Ok(())
        },
        None => Ok(()),
    }
}

/// Refuse read barriers once the ownership of a collection has moved.
pub fn reject_promoted_read_barriers(
    placement: &CollectionPlacement,
    read_barrier: Option<&Snapshot>,
) -> (outcome: Result<(), ServiceError>)
    ensures
        outcome_model(outcome) == barrier_check(*placement, read_barrier is Some),
{
    if let Some(epoch) = placement.ownership_epoch {
        if read_barrier.is_some() && epoch > 1 {
            let mut message = "collection '".to_owned();
            message.append(&placement_identity(placement));
            message.append("' is serving at ownership epoch ");
            message.append(&decimal_text(epoch));
            message.append(
                " and cannot safely satisfy read barriers after promotion until replica freshness metadata is implemented",
            );
            return Err(ServiceError::FailedPrecondition(message));
        }
    }
    Ok(())
}

/// Whether a read goes through when the placement of its collection reads as given.
pub open spec fn read_check(
    role: NodeRole,
    node_name: Seq<char>,
    placement: Result<CollectionPlacement, ServiceError>,
    has_barrier: bool,
) -> Result<(), ServiceErrorModel> {
    match data_plane_check(role, node_name) {
        Err(error) => Err(error),
        Ok(_) => match placement {
            Err(error) => Err(error@),
            Ok(found) => match locality_check(found, node_name) {
                Err(error) => Err(error),
                Ok(_) => barrier_check(found, has_barrier),
            },
        },
    }
}

/// Decide on a read, on a node that takes part in the data plane, once the placement of its
/// collection has been read.
pub fn placement_read(
    role: NodeRole,
    node_name: &str,
    placement: Result<CollectionPlacement, ServiceError>,
    read_barrier: Option<&Snapshot>,
) -> (outcome: Result<(), ServiceError>)
    ensures
        outcome_model(outcome) == read_check(role, node_name@, placement, read_barrier is Some),
{
    match require_data_plane(role, node_name) {
        Err(error) => {
            return Err(error);
        },
        Ok(_) => {},
    }
    match placement {
        Err(error) => Err(error),
        Ok(found) => match require_local_placement(&found, node_name) {
            Err(error) => Err(error),
            Ok(_) => reject_promoted_read_barriers(&found, read_barrier),
        },
    }
}

/// Which change to a collection is made.
#[derive(Clone, Copy, Debug, PartialEq, Eq, Structural)]
pub enum UpdateOperation {
    /// Write a batch.
    Write,
    /// Flush the mutable operations.
    Flush,
    /// Compact immutable segments.
    Compact,
}

impl UpdateOperation {
    /// How messages name the operation.
    pub open spec fn text(self) -> Seq<char> {
        match self {
            UpdateOperation::Write => "write"@,
            UpdateOperation::Flush => "flush"@,
            UpdateOperation::Compact => "compact"@,
        }
    }

    /// How messages name the operation.
    pub fn as_str(&self) -> (text: &'static str)
        ensures
            text@ == self.text(),
    {
        match self {
            UpdateOperation::Write => "write",
            UpdateOperation::Flush => "flush",
            UpdateOperation::Compact => "compact",
        }
    }
}

/// What a change to a collection gives.
#[derive(Clone, Copy, Debug, PartialEq, Eq, Structural)]
pub enum UpdateOutcome {
    /// A batch was written.
    Committed(CommitAck),
    /// Segments were rearranged.
    Rearranged(Snapshot),
}

impl UpdateOutcome {
    /// The state that shows the change.
    pub open spec fn shown_by(self) -> Snapshot {
        match self {
            UpdateOutcome::Committed(ack) => ack.snapshot,
            UpdateOutcome::Rearranged(snapshot) => snapshot,
        }
    }

    /// The state that shows the change.
    pub fn snapshot(&self) -> (snapshot: Snapshot)
        ensures
            snapshot == self.shown_by(),
    {
        match self {
            UpdateOutcome::Committed(ack) => ack.snapshot,
            UpdateOutcome::Rearranged(snapshot) => *snapshot,
        }
    }
}

/// A change to a collection.
#[derive(Debug, PartialEq, Eq)]
pub struct UpdateRequest {
    /// Which change is made.
    pub operation: UpdateOperation,
    /// The collection that is changed.
    pub collection_name: String,
}

/// A change whose replica report has been prepared.
#[derive(Debug, PartialEq, Eq)]
pub struct MutationPending {
    /// The change.
    pub request: UpdateRequest,
    /// Whether the stale report is gone already.
    pub stale_report_already_cleared: bool,
}

/// A change that failed, and whose replica report has to be put back.
#[derive(Debug, PartialEq, Eq)]
pub struct RestorePending {
    /// The change.
    pub request: UpdateRequest,
    /// How it failed.
    pub error: ServiceError,
}

/// A change that was made, and whose replica report has to be renewed.
#[derive(Debug, PartialEq, Eq)]
pub struct AcknowledgePending {
    /// What the change gave.
    pub outcome: UpdateOutcome,
    /// The state to be reported.
    pub snapshot: Snapshot,
    /// Whether the stale report is gone already.
    pub stale_report_already_cleared: bool,
}

/// What has to be done next for a change to a collection.
pub enum UpdateStep {
    /// Check that this node may write to the collection.
    RequireOwnership(UpdateRequest),
    /// Prepare the replica report for the change.
    Prepare(UpdateRequest),
    /// Make the change.
    Mutate(MutationPending),
    /// Put the replica report back.
    Restore(RestorePending),
    /// Renew the replica report.
    Acknowledge(AcknowledgePending),
    /// Nothing: the change is over.
    Finish(Result<UpdateOutcome, ServiceError>),
}

/// A step of a change with its error as a model.
pub enum UpdateStepModel {
    RequireOwnership(UpdateRequest),
    Prepare(UpdateRequest),
    Mutate(MutationPending),
    Restore(RestorePending),
    Acknowledge(AcknowledgePending),
    Finish(Result<UpdateOutcome, ServiceErrorModel>),
}

impl View for UpdateStep {
    type V = UpdateStepModel;

    open spec fn view(&self) -> UpdateStepModel {
        match *self {
            UpdateStep::RequireOwnership(request) => UpdateStepModel::RequireOwnership(request),
            UpdateStep::Prepare(request) => UpdateStepModel::Prepare(request),
            UpdateStep::Mutate(pending) => UpdateStepModel::Mutate(pending),
            UpdateStep::Restore(pending) => UpdateStepModel::Restore(pending),
            UpdateStep::Acknowledge(pending) => UpdateStepModel::Acknowledge(pending),
            UpdateStep::Finish(outcome) => UpdateStepModel::Finish(outcome_model(outcome)),
        }
    }
}

impl UpdateRequest {
    /// The step after the check of ownership.
    pub open spec fn after_ownership(self, reply: Result<(), ServiceError>) -> UpdateStepModel {
        match reply {
            Err(error) => UpdateStepModel::Finish(Err(error@)),
            Ok(_) => UpdateStepModel::Prepare(self),
        }
    }

    /// The step after the preparation of the replica report.
    pub open spec fn after_preparation(self, reply: Result<bool, ServiceError>) -> UpdateStepModel {
        match reply {
            Err(error) => UpdateStepModel::Finish(Err(error@)),
            Ok(cleared) => UpdateStepModel::Mutate(
                MutationPending { request: self, stale_report_already_cleared: cleared },
            ),
        }
    }

    /// Begin a change.
    pub fn begin(operation: UpdateOperation, collection_name: &str) -> (step: UpdateStep)
        ensures
            step matches UpdateStep::RequireOwnership(request) && request.operation == operation
                && request.collection_name@ == collection_name@,
    {
        UpdateStep::RequireOwnership(
            UpdateRequest { operation, collection_name: collection_name.to_owned() },
        )
    }

    /// Go on after the check of ownership.
    pub fn ownership_checked(self, reply: Result<(), ServiceError>) -> (step: UpdateStep)
        ensures
            step@ == self.after_ownership(reply),
    {
        match reply {
            Err(error) => UpdateStep::Finish(Err(error)),
            Ok(_) => UpdateStep::Prepare(self),
        }
    }

    /// Go on after the preparation of the replica report.
    pub fn prepared(self, reply: Result<bool, ServiceError>) -> (step: UpdateStep)
        ensures
            step@ == self.after_preparation(reply),
    {
        match reply {
            Err(error) => UpdateStep::Finish(Err(error)),
            Ok(cleared) => UpdateStep::Mutate(
                MutationPending { request: self, stale_report_already_cleared: cleared },
            ),
        }
    }
}

impl MutationPending {
    /// The step after the change.
    pub open spec fn after_mutation(
        self,
        reply: Result<UpdateOutcome, ServiceError>,
    ) -> UpdateStepModel {
        match reply {
            Err(error) => UpdateStepModel::Restore(RestorePending { request: self.request, error }),
            Ok(outcome) => UpdateStepModel::Acknowledge(
                AcknowledgePending {
                    outcome,
                    snapshot: outcome.shown_by(),
                    stale_report_already_cleared: self.stale_report_already_cleared,
                },
            ),
        }
    }

    /// Go on after the change.
    pub fn mutated(self, reply: Result<UpdateOutcome, ServiceError>) -> (step: UpdateStep)
        ensures
            step@ == self.after_mutation(reply),
    {
        match reply {
            Err(error) => UpdateStep::Restore(RestorePending { request: self.request, error }),
            Ok(outcome) => UpdateStep::Acknowledge(
                AcknowledgePending {
                    outcome,
                    snapshot: outcome.snapshot(),
                    stale_report_already_cleared: self.stale_report_already_cleared,
                },
            ),
        }
    }
}

impl RestorePending {
    /// How the change is reported after the attempt to put the replica report back.
    pub open spec fn after_restore(self, reply: Result<(), ServiceError>) -> ServiceErrorModel {
        match reply {
            Ok(_) => self.error@,
            Err(restore_error) => internal(
                self.request.operation.text() + " for collection '"@
                    + self.request.collection_name@ + "' failed with '"@ + self.error@.message
                    + "', and restoring authoritative replica metadata also failed with '"@
                    + restore_error@.message + "'"@,
            ),
        }
    }

    /// Finish after the attempt to put the replica report back.
    pub fn restored(self, reply: Result<(), ServiceError>) -> (step: UpdateStep)
        ensures
            step@ == UpdateStepModel::Finish(Err(self.after_restore(reply))),
    {
        match reply {
            Ok(_) => UpdateStep::Finish(Err(self.error)),
            Err(restore_error) => {
                let (_, error_text) = self.error.into_parts();
                let (_, restore_text) = restore_error.into_parts();
                let mut message = self.request.operation.as_str().to_owned();
                message.append(" for collection '");
                message.append(&self.request.collection_name);
                message.append("' failed with '");
                message.append(&error_text);
                message.append(
                    "', and restoring authoritative replica metadata also failed with '",
                );
                message.append(&restore_text);
                message.append("'");
                UpdateStep::Finish(Err(ServiceError::Internal(message)))
            },
        }
    }
}

impl AcknowledgePending {
    /// How the change is reported after the replica report was renewed.
    pub open spec fn after_acknowledgement(self, reply: Result<(), ServiceError>) -> Result<
        UpdateOutcome,
        ServiceErrorModel,
    > {
        match reply {
            Err(error) => Err(error@),
            Ok(_) => Ok(self.outcome),
        }
    }

    /// Finish after the replica report was renewed.
    pub fn acknowledged(self, reply: Result<(), ServiceError>) -> (step: UpdateStep)
        ensures
            step@ == UpdateStepModel::Finish(self.after_acknowledgement(reply)),
    {
        match reply {
            Err(error) => UpdateStep::Finish(Err(error)),
            Ok(_) => UpdateStep::Finish(Ok(self.outcome)),
        }
    }
}

/// What each call of a change would give, were it made.
pub struct UpdateReplies {
    pub ownership: Result<(), ServiceError>,
    pub prepared: Result<bool, ServiceError>,
    pub mutated: Result<UpdateOutcome, ServiceError>,
    pub restored: Result<(), ServiceError>,
    pub acknowledged: Result<(), ServiceError>,
}

/// A call that a change makes.
pub enum UpdateCall {
    RequireOwnership,
    Prepare,
    Mutate,
    Restore,
    Acknowledge { snapshot: Snapshot, stale_report_already_cleared: bool },
}

/// How many steps are left at most.
pub open spec fn steps_left(step: UpdateStepModel) -> nat {
    match step {
        UpdateStepModel::RequireOwnership(_) => 4,
        UpdateStepModel::Prepare(_) => 3,
        UpdateStepModel::Mutate(_) => 2,
        UpdateStepModel::Restore(_) => 1,
        UpdateStepModel::Acknowledge(_) => 1,
        UpdateStepModel::Finish(_) => 0,
    }
}

/// The calls that a change makes from a step on, in order, and how it ends.
pub open spec fn update_run(step: UpdateStepModel, replies: UpdateReplies) -> (
    Seq<UpdateCall>,
    Result<UpdateOutcome, ServiceErrorModel>,
)
    decreases steps_left(step),
{
    match step {
        UpdateStepModel::RequireOwnership(request) => {
            let (calls, result) = update_run(request.after_ownership(replies.ownership), replies);
            (seq![UpdateCall::RequireOwnership] + calls, result)
        },
        UpdateStepModel::Prepare(request) => {
            let (calls, result) = update_run(request.after_preparation(replies.prepared), replies);
            (seq![UpdateCall::Prepare] + calls, result)
        },
        UpdateStepModel::Mutate(pending) => {
            let (calls, result) = update_run(pending.after_mutation(replies.mutated), replies);
            (seq![UpdateCall::Mutate] + calls, result)
        },
        UpdateStepModel::Restore(pending) => (
            seq![UpdateCall::Restore],
            Err(pending.after_restore(replies.restored)),
        ),
        UpdateStepModel::Acknowledge(pending) => (
            seq![
                UpdateCall::Acknowledge {
                    snapshot: pending.snapshot,
                    stale_report_already_cleared: pending.stale_report_already_cleared,
                },
            ],
            pending.after_acknowledgement(replies.acknowledged),
        ),
        UpdateStepModel::Finish(result) => (Seq::<UpdateCall>::empty(), result),
    }
}

/// A change that fails while it is made restores the replica report exactly once, never renews
/// it, and is reported as failed.
pub proof fn law_failed_changes_are_restored_once(request: UpdateRequest, replies: UpdateReplies)
    requires
        replies.ownership is Ok,
        replies.prepared is Ok,
        replies.mutated is Err,
    ensures
        ({
            let (calls, result) = update_run(UpdateStepModel::RequireOwnership(request), replies);
            &&& calls =~= seq![
                UpdateCall::RequireOwnership,
                UpdateCall::Prepare,
                UpdateCall::Mutate,
                UpdateCall::Restore,
            ]
            &&& result is Err
            &&& replies.restored is Ok ==> result == Err::<UpdateOutcome, ServiceErrorModel>(
                replies.mutated->Err_0@,
            )
        }),
{
    reveal_with_fuel(update_run, 5);
}

/// A change succeeds exactly when every call on its way does. Then the replica report is renewed
/// with the state that shows the change, and the outcome of the change is what is returned.
pub proof fn law_changes_succeed_when_acknowledged(request: UpdateRequest, replies: UpdateReplies)
    ensures
        ({
            let (calls, result) = update_run(UpdateStepModel::RequireOwnership(request), replies);
            &&& result is Ok <==> replies.ownership is Ok && replies.prepared is Ok
                && replies.mutated is Ok && replies.acknowledged is Ok
            &&& result is Ok ==> result->Ok_0 == replies.mutated->Ok_0 && calls =~= seq![
                UpdateCall::RequireOwnership,
                UpdateCall::Prepare,
                UpdateCall::Mutate,
                UpdateCall::Acknowledge {
                    snapshot: replies.mutated->Ok_0.shown_by(),
                    stale_report_already_cleared: replies.prepared->Ok_0,
                },
            ]
        }),
{
    reveal_with_fuel(update_run, 5);
}

/// Nothing is changed on a collection that this node may not write to, nor before its replica
/// report has been prepared.
pub proof fn law_nothing_changes_unprepared(request: UpdateRequest, replies: UpdateReplies)
    requires
        replies.ownership is Err || replies.prepared is Err,
    ensures
        ({
            let (calls, result) = update_run(UpdateStepModel::RequireOwnership(request), replies);
            &&& !calls.contains(UpdateCall::Mutate)
            &&& result is Err
        }),
{
    reveal_with_fuel(update_run, 5);
    let (calls, result) = update_run(UpdateStepModel::RequireOwnership(request), replies);
    if replies.ownership is Err {
        assert(calls =~= seq![UpdateCall::RequireOwnership]);
    } else {
        assert(calls =~= seq![UpdateCall::RequireOwnership, UpdateCall::Prepare]);
    }
}

/// Proof of leadership that shared metadata is written under.
#[derive(Debug, PartialEq, Eq)]
pub struct LeadershipFence {
    /// The leader.
    pub node_id: String,
    /// Its lease.
    pub lease_id: i64,
}

/// The fence of a shared write.
pub open spec fn fence_check(fence: Option<LeadershipFence>) -> Result<
    LeadershipFence,
    ServiceErrorModel,
> {
    match fence {
        Some(held) => Ok(held),
        None => Err(
            internal("etcd-backed control-plane mutations require a local leadership fence"@),
        ),
    }
}

/// Refuse shared writes without a fence.
pub fn required_leadership_fence(fence: Option<LeadershipFence>) -> (outcome: Result<
    LeadershipFence,
    ServiceError,
>)
    ensures
        outcome_model(outcome) == fence_check(fence),
{
    match fence {
        Some(held) => Ok(held),
        None => Err(
            ServiceError::Internal(
                "etcd-backed control-plane mutations require a local leadership fence".to_owned(),
            ),
        ),
    }
}

/// Where databases and policies are kept.
#[derive(Clone, Copy, Debug, PartialEq, Eq, Structural)]
pub enum SharedCatalog {
    /// In the catalog of this node.
    Local,
    /// In the catalog of the cluster.
    Etcd,
}

/// Where a change to a database or a policy is written.
#[derive(Debug, PartialEq, Eq)]
pub enum CatalogTarget {
    /// The catalog of this node.
    Local,
    /// The catalog of the cluster, under a fence.
    Shared(LeadershipFence),
}

/// Where a change to a database or a policy is written, given what the check of leadership gave.
pub open spec fn catalog_target(
    role: NodeRole,
    catalog: SharedCatalog,
    leadership: Result<Option<LeadershipFence>, ServiceError>,
) -> Result<CatalogTarget, ServiceErrorModel> {
    match database_mutation_check(role) {
        Err(error) => Err(error),
        Ok(_) => match leadership {
            Err(error) => Err(error@),
            Ok(fence) => match catalog {
                SharedCatalog::Local => Ok(CatalogTarget::Local),
                SharedCatalog::Etcd => match fence_check(fence) {
                    Err(error) => Err(error),
                    Ok(held) => Ok(CatalogTarget::Shared(held)),
                },
            },
        },
    }
}

/// Decide where a change to a database or a policy is written.
pub fn leadership_checked(
    role: NodeRole,
    catalog: SharedCatalog,
    leadership: Result<Option<LeadershipFence>, ServiceError>,
) -> (outcome: Result<CatalogTarget, ServiceError>)
    ensures
        outcome_model(outcome) == catalog_target(role, catalog, leadership),
{
    match require_control_plane_database_mutation(role) {
        Err(error) => {
            return Err(error);
        },
        Ok(_) => {},
    }
    match leadership {
        Err(error) => Err(error),
        Ok(fence) => match catalog {
            SharedCatalog::Local => Ok(CatalogTarget::Local),
            SharedCatalog::Etcd => match required_leadership_fence(fence) {
                Err(error) => Err(error),
                Ok(held) => Ok(CatalogTarget::Shared(held)),
            },
        },
    }
}

/// Shared metadata is never written without a fence, and nothing is written by a node without a
/// control plane.
pub proof fn law_shared_writes_are_fenced(
    role: NodeRole,
    catalog: SharedCatalog,
    leadership: Result<Option<LeadershipFence>, ServiceError>,
)
    ensures
        catalog_target(role, catalog, leadership) matches Ok(target) ==> role != NodeRole::Data
            && leadership is Ok && (catalog == SharedCatalog::Etcd ==> leadership->Ok_0 is Some
            && target == CatalogTarget::Shared(leadership->Ok_0->0)),
{
}

/// What has to be done next to create a collection.
pub enum CreateStep {
    /// Read the database of this name.
    ReadDatabase(DatabasePending),
    /// Check that this node leads the control plane, then store the missing database.
    RequireLeadership(LeadershipPending),
    /// Store the database in the catalog of the cluster.
    PutDatabase(PutDatabasePending),
    /// Create the collection.
    Create,
    /// Report the new collection, under its key, as a replica without a snapshot.
    Acknowledge(CreatedPending),
    /// Nothing: the creation is over.
    Finish(Result<CollectionDescriptor, ServiceError>),
}

/// A creation whose database has to be read.
#[derive(Debug, PartialEq, Eq)]
pub struct DatabasePending {
    /// Role of this node.
    pub role: NodeRole,
    /// Name of the database.
    pub database_name: String,
}

/// A creation whose database has to be stored first.
#[derive(Debug, PartialEq, Eq)]
pub struct LeadershipPending {
    /// Role of this node.
    pub role: NodeRole,
    /// The database.
    pub descriptor: DatabaseDescriptor,
}

/// A creation whose database is about to be stored.
#[derive(Debug, PartialEq, Eq)]
pub struct PutDatabasePending {
    /// The database.
    pub descriptor: DatabaseDescriptor,
    /// The fence to store it under.
    pub fence: LeadershipFence,
}

/// A collection that was created.
#[derive(Debug, PartialEq, Eq)]
pub struct CreatedPending {
    /// Key of the collection.
    pub lookup_name: String,
    /// The collection.
    pub descriptor: CollectionDescriptor,
}

/// The descriptor of a database, as its model.
#[verifier::ext_equal]
pub struct DatabaseModel {
    pub database_id: Seq<char>,
    pub name: Seq<char>,
    pub is_default: bool,
}

/// The descriptor of a database, as its model.
pub open spec fn database_model(descriptor: DatabaseDescriptor) -> DatabaseModel {
    DatabaseModel {
        database_id: descriptor.database_id@,
        name: descriptor.name@,
        is_default: descriptor.is_default,
    }
}

/// The descriptor that a database of the given name gets.
pub open spec fn new_database(
    name: Seq<char>,
    default_id: Seq<char>,
    fresh_id: Seq<char>,
) -> DatabaseModel {
    let is_default = name == default_database();
    DatabaseModel {
        database_id: if is_default {
            default_id
        } else {
            fresh_id
        },
        name,
        is_default,
    }
}

/// A step of a creation, as its model.
pub enum CreateStepModel {
    ReadDatabase { role: NodeRole, database_name: Seq<char> },
    RequireLeadership { role: NodeRole, descriptor: DatabaseModel },
    PutDatabase { descriptor: DatabaseModel, fence: LeadershipFence },
    Create,
    Acknowledge { lookup_name: Seq<char>, collection: CollectionDescriptor },
    Finish(Result<CollectionDescriptor, ServiceErrorModel>),
}

impl View for CreateStep {
    type V = CreateStepModel;

    open spec fn view(&self) -> CreateStepModel {
        match *self {
            CreateStep::ReadDatabase(pending) => CreateStepModel::ReadDatabase {
                role: pending.role,
                database_name: pending.database_name@,
            },
            CreateStep::RequireLeadership(pending) => CreateStepModel::RequireLeadership {
                role: pending.role,
                descriptor: database_model(pending.descriptor),
            },
            CreateStep::PutDatabase(pending) => CreateStepModel::PutDatabase {
                descriptor: database_model(pending.descriptor),
                fence: pending.fence,
            },
            CreateStep::Create => CreateStepModel::Create,
            CreateStep::Acknowledge(pending) => CreateStepModel::Acknowledge {
                lookup_name: pending.lookup_name@,
                collection: pending.descriptor,
            },
            CreateStep::Finish(outcome) => CreateStepModel::Finish(outcome_model(outcome)),
        }
    }
}

/// The first step of a creation.
pub open spec fn create_start(
    role: NodeRole,
    catalog: SharedCatalog,
    database_name: Seq<char>,
) -> CreateStepModel {
    match collection_mutation_check(role) {
        Err(error) => CreateStepModel::Finish(Err(error)),
        Ok(_) => match catalog {
            SharedCatalog::Local => CreateStepModel::Create,
            SharedCatalog::Etcd => CreateStepModel::ReadDatabase {
                role,
                database_name: database_or_default(database_name),
            },
        },
    }
}

/// Begin to create a collection of a database.
pub fn begin_create(role: NodeRole, catalog: SharedCatalog, database_name: String) -> (step:
    CreateStep)
    ensures
        step@ == create_start(role, catalog, database_name@),
{
    match require_control_plane_collection_mutation(role) {
        Err(error) => {
            return CreateStep::Finish(Err(error));
        },
        Ok(_) => {},
    }
    match catalog {
        SharedCatalog::Local => CreateStep::Create,
        SharedCatalog::Etcd => CreateStep::ReadDatabase(
            DatabasePending { role, database_name: default_database_if_blank(database_name) },
        ),
    }
}

/// The step after the database of a creation was read: one that is missing is stored first.
pub open spec fn after_database_read(
    role: NodeRole,
    database_name: Seq<char>,
    reply: Result<DatabaseDescriptor, ServiceError>,
    default_id: Seq<char>,
    fresh_id: Seq<char>,
) -> CreateStepModel {
    match reply {
        Ok(_) => CreateStepModel::Create,
        Err(error) => if error@.kind == ServiceErrorKind::NotFound {
            match database_mutation_check(role) {
                Err(refusal) => CreateStepModel::Finish(Err(refusal)),
                Ok(_) => CreateStepModel::RequireLeadership {
                    role,
                    descriptor: new_database(database_name, default_id, fresh_id),
                },
            }
        } else {
            CreateStepModel::Finish(Err(error@))
        },
    }
}

impl DatabasePending {
    /// Go on after the database was read: one that is missing is stored first.
    pub fn database_read(
        self,
        reply: Result<DatabaseDescriptor, ServiceError>,
        default_id: &str,
        fresh_id: &str,
    ) -> (step: CreateStep)
        ensures
            step@ == after_database_read(
                self.role,
                self.database_name@,
                reply,
                default_id@,
                fresh_id@,
            ),
    {
        match reply {
            Ok(_) => CreateStep::Create,
            Err(error) => match error {
                ServiceError::NotFound(_) => match require_control_plane_database_mutation(
                    self.role,
                ) {
                    Err(refusal) => CreateStep::Finish(Err(refusal)),
                    Ok(_) => CreateStep::RequireLeadership(
                        LeadershipPending {
                            role: self.role,
                            descriptor: DatabaseDescriptor::new(
                                &self.database_name,
                                default_id,
                                fresh_id,
                            ),
                        },
                    ),
                },
                _ => CreateStep::Finish(Err(error)),
            },
        }
    }
}

/// The step after the check of leadership.
pub open spec fn after_leadership(
    role: NodeRole,
    descriptor: DatabaseModel,
    reply: Result<Option<LeadershipFence>, ServiceError>,
) -> CreateStepModel {
    match catalog_target(role, SharedCatalog::Etcd, reply) {
        Err(error) => CreateStepModel::Finish(Err(error)),
        Ok(CatalogTarget::Shared(fence)) => CreateStepModel::PutDatabase { descriptor, fence },
        Ok(CatalogTarget::Local) => CreateStepModel::Create,
    }
}

impl LeadershipPending {
    /// Go on after the check of leadership.
    pub fn leadership_checked(self, reply: Result<Option<LeadershipFence>, ServiceError>) -> (step:
        CreateStep)
        ensures
            step@ == after_leadership(self.role, database_model(self.descriptor), reply),
    {
        match leadership_checked(self.role, SharedCatalog::Etcd, reply) {
            Err(error) => CreateStep::Finish(Err(error)),
            Ok(target) => match target {
                CatalogTarget::Shared(fence) => CreateStep::PutDatabase(
                    PutDatabasePending { descriptor: self.descriptor, fence },
                ),
                CatalogTarget::Local => CreateStep::Create,
            },
        }
    }
}

/// The step after the database was stored.
pub open spec fn after_database_put(
    reply: Result<DatabaseDescriptor, ServiceError>,
) -> CreateStepModel {
    match reply {
        Err(error) => CreateStepModel::Finish(Err(error@)),
        Ok(_) => CreateStepModel::Create,
    }
}

/// Go on after the database was stored.
pub fn database_put(reply: Result<DatabaseDescriptor, ServiceError>) -> (step: CreateStep)
    ensures
        step@ == after_database_put(reply),
{
    match reply {
        Err(error) => CreateStep::Finish(Err(error)),
        Ok(_) => CreateStep::Create,
    }
}

/// The step after the collection was created.
pub open spec fn after_creation(
    reply: Result<CollectionDescriptor, ServiceError>,
) -> CreateStepModel {
    match reply {
        Err(error) => CreateStepModel::Finish(Err(error@)),
        Ok(descriptor) => CreateStepModel::Acknowledge {
            lookup_name: descriptor.reference().key(),
            collection: descriptor,
        },
    }
}

/// Go on after the collection was created.
pub fn collection_created(reply: Result<CollectionDescriptor, ServiceError>) -> (step: CreateStep)
    ensures
        step@ == after_creation(reply),
{
    match reply {
        Err(error) => CreateStep::Finish(Err(error)),
        Ok(descriptor) => CreateStep::Acknowledge(
            CreatedPending { lookup_name: descriptor.lookup_name(), descriptor },
        ),
    }
}

/// How a creation ends after the new collection was reported.
pub open spec fn after_report(
    descriptor: CollectionDescriptor,
    reply: Result<(), ServiceError>,
) -> Result<CollectionDescriptor, ServiceErrorModel> {
    match reply {
        Err(error) => Err(error@),
        Ok(_) => Ok(descriptor),
    }
}

impl CreatedPending {
    /// Finish after the new collection was reported.
    pub fn acknowledged(self, reply: Result<(), ServiceError>) -> (step: CreateStep)
        ensures
            step@ == CreateStepModel::Finish(after_report(self.descriptor, reply)),
    {
        match reply {
            Err(error) => CreateStep::Finish(Err(error)),
            Ok(_) => CreateStep::Finish(Ok(self.descriptor)),
        }
    }
}

/// What each call of a creation would give, were it made.
pub struct CreateReplies {
    pub database: Result<DatabaseDescriptor, ServiceError>,
    pub leadership: Result<Option<LeadershipFence>, ServiceError>,
    pub stored: Result<DatabaseDescriptor, ServiceError>,
    pub created: Result<CollectionDescriptor, ServiceError>,
    pub acknowledged: Result<(), ServiceError>,
}

/// A call that a creation makes.
pub enum CreateCall {
    ReadDatabase { database_name: Seq<char> },
    RequireLeadership,
    PutDatabase { descriptor: DatabaseModel, fence: LeadershipFence },
    Create,
    Acknowledge { lookup_name: Seq<char> },
}

/// How many steps of a creation are left at most.
pub open spec fn create_steps_left(step: CreateStepModel) -> nat {
    match step {
        CreateStepModel::ReadDatabase { .. } => 5,
        CreateStepModel::RequireLeadership { .. } => 4,
        CreateStepModel::PutDatabase { .. } => 3,
        CreateStepModel::Create => 2,
        CreateStepModel::Acknowledge { .. } => 1,
        CreateStepModel::Finish(_) => 0,
    }
}

/// The calls that a creation makes from a step on, in order, and how it ends.
pub open spec fn create_run(
    step: CreateStepModel,
    replies: CreateReplies,
    default_id: Seq<char>,
    fresh_id: Seq<char>,
) -> (Seq<CreateCall>, Result<CollectionDescriptor, ServiceErrorModel>)
    decreases create_steps_left(step),
{
    match step {
        CreateStepModel::ReadDatabase { role, database_name } => {
            let next = after_database_read(
                role,
                database_name,
                replies.database,
                default_id,
                fresh_id,
            );
            let (calls, result) = create_run(next, replies, default_id, fresh_id);
            (seq![CreateCall::ReadDatabase { database_name }] + calls, result)
        },
        CreateStepModel::RequireLeadership { role, descriptor } => {
            let next = after_leadership(role, descriptor, replies.leadership);
            let (calls, result) = create_run(next, replies, default_id, fresh_id);
            (seq![CreateCall::RequireLeadership] + calls, result)
        },
        CreateStepModel::PutDatabase { descriptor, fence } => {
            let next = after_database_put(replies.stored);
            let (calls, result) = create_run(next, replies, default_id, fresh_id);
            (seq![CreateCall::PutDatabase { descriptor, fence }] + calls, result)
        },
        CreateStepModel::Create => {
            let next = after_creation(replies.created);
            let (calls, result) = create_run(next, replies, default_id, fresh_id);
            (seq![CreateCall::Create] + calls, result)
        },
        CreateStepModel::Acknowledge { lookup_name, collection } => (
            seq![CreateCall::Acknowledge { lookup_name }],
            after_report(collection, replies.acknowledged),
        ),
        CreateStepModel::Finish(result) => (Seq::<CreateCall>::empty(), result),
    }
}

/// On a node that lacks one of the planes a creation makes no call at all.
pub proof fn law_only_combined_nodes_create(
    role: NodeRole,
    catalog: SharedCatalog,
    database_name: Seq<char>,
    replies: CreateReplies,
    default_id: Seq<char>,
    fresh_id: Seq<char>,
)
    requires
        role != NodeRole::Combined,
    ensures
        ({
            let start = create_start(role, catalog, database_name);
            let (calls, result) = create_run(start, replies, default_id, fresh_id);
            &&& calls.len() == 0
            &&& result is Err
        }),
{
}

/// With the catalog of the cluster, a collection whose database is missing is created only after
/// the database was stored, under a fence; where the check of leadership or the storing fails, no
/// collection is created.
pub proof fn law_missing_databases_are_stored_first(
    database_name: Seq<char>,
    replies: CreateReplies,
    default_id: Seq<char>,
    fresh_id: Seq<char>,
)
    requires
        replies.database matches Err(error) && error@.kind == ServiceErrorKind::NotFound,
    ensures
        ({
            let start = create_start(NodeRole::Combined, SharedCatalog::Etcd, database_name);
            let name = database_or_default(database_name);
            let (calls, result) = create_run(start, replies, default_id, fresh_id);
            let stored = replies.leadership matches Ok(Some(_)) && replies.stored is Ok;
            &&& calls.contains(CreateCall::Create) <==> stored
            &&& stored ==> calls.len() >= 4 && calls[0] == (CreateCall::ReadDatabase {
                database_name: name,
            }) && calls[1] == CreateCall::RequireLeadership && calls[2]
                == (CreateCall::PutDatabase {
                descriptor: new_database(name, default_id, fresh_id),
                fence: replies.leadership->Ok_0->0,
            }) && calls[3] == CreateCall::Create
            &&& !stored ==> result is Err
        }),
{
    reveal_with_fuel(create_run, 6);
    let start = create_start(NodeRole::Combined, SharedCatalog::Etcd, database_name);
    let name = database_or_default(database_name);
    let (calls, result) = create_run(start, replies, default_id, fresh_id);
    let read = CreateCall::ReadDatabase { database_name: name };
    match replies.leadership {
        Ok(Some(fence)) => {
            let put = CreateCall::PutDatabase {
                descriptor: new_database(name, default_id, fresh_id),
                fence,
            };
            if replies.stored is Ok {
                assert(calls[3] == CreateCall::Create);
            } else {
                assert(calls =~= seq![read, CreateCall::RequireLeadership, put]);
            }
        },
        _ => {
            assert(calls =~= seq![read, CreateCall::RequireLeadership]);
        },
    }
}

/// A creation succeeds only once the new collection was created and reported under its own key,
/// and then gives the descriptor that the creation gave.
pub proof fn law_created_collections_are_reported(
    role: NodeRole,
    catalog: SharedCatalog,
    database_name: Seq<char>,
    replies: CreateReplies,
    default_id: Seq<char>,
    fresh_id: Seq<char>,
)
    ensures
        ({
            let start = create_start(role, catalog, database_name);
            let (calls, result) = create_run(start, replies, default_id, fresh_id);
            result matches Ok(descriptor) ==> {
                &&& replies.created == Ok::<CollectionDescriptor, ServiceError>(descriptor)
                &&& replies.acknowledged is Ok
                &&& calls.len() >= 2
                &&& calls[calls.len() - 2] == CreateCall::Create
                &&& calls.last() == (CreateCall::Acknowledge {
                    lookup_name: descriptor.reference().key(),
                })
            }
        }),
{
    reveal_with_fuel(create_run, 6);
}

/// A read goes through exactly where the node serves data, the placement says that the
/// collection is served here, and no barrier is asked of a collection that has been promoted.
pub proof fn law_reads_are_local(
    role: NodeRole,
    node_name: Seq<char>,
    placement: CollectionPlacement,
    has_barrier: bool,
)
    ensures
        read_check(
            role,
            node_name,
            Ok::<CollectionPlacement, ServiceError>(placement),
            has_barrier,
        ) is Ok <==> role.serves_data() && served_locally(placement) && !(has_barrier && (
        placement.ownership_epoch matches Some(epoch) && epoch > 1)),
{
}

/// Data is served by nodes of both planes or of the data plane; databases are changed by nodes with a
/// control plane; collections are created by nodes of both planes alone. Whoever does not is told
/// that the request is malformed.
pub proof fn law_planes_of_roles(role: NodeRole, node_name: Seq<char>)
    ensures
        data_plane_check(role, node_name) is Ok <==> role == NodeRole::Combined || role
            == NodeRole::Data,
        database_mutation_check(role) is Ok <==> role == NodeRole::Combined || role
            == NodeRole::Control,
        collection_mutation_check(role) is Ok <==> role == NodeRole::Combined,
        data_plane_check(role, node_name) matches Err(error) ==> error.kind
            == ServiceErrorKind::InvalidArgument,
        database_mutation_check(role) matches Err(error) ==> error.kind
            == ServiceErrorKind::InvalidArgument,
        collection_mutation_check(role) matches Err(error) ==> error.kind
            == ServiceErrorKind::InvalidArgument,
{
}

/// Where a read is let through, and how it is refused: on a node that serves no data, or for a
/// collection that is not routed to this node by a role that serves data, as malformed; with a
/// barrier on a collection that has changed owners, as coming too early; and where the placement
/// cannot be read, with that fault.
pub proof fn law_reads_are_let_through(
    role: NodeRole,
    node_name: Seq<char>,
    placement: CollectionPlacement,
    has_barrier: bool,
    fault: ServiceError,
)
    ensures
        ({
            let serving = role == NodeRole::Combined || role == NodeRole::Data;
            let local = placement.route_kind@ == "local"@ && (placement.assigned_role
                == NodeRole::Combined || placement.assigned_role == NodeRole::Data);
            let promoted = placement.ownership_epoch matches Some(epoch) && epoch > 1;
            let outcome = read_check(
                role,
                node_name,
                Ok::<CollectionPlacement, ServiceError>(placement),
                has_barrier,
            );
            &&& outcome is Ok <==> serving && local && !(has_barrier && promoted)
            &&& outcome matches Err(error) ==> error.kind == (if serving && local {
                ServiceErrorKind::FailedPrecondition
            } else {
                ServiceErrorKind::InvalidArgument
            })
            &&& serving ==> read_check(
                role,
                node_name,
                Err::<CollectionPlacement, ServiceError>(fault),
                has_barrier,
            ) == Err::<(), ServiceErrorModel>(fault@)
        }),
{
}

/// A collection is routed to its owner where it has one, else to the node that it is assigned to;
/// and it is named by its database and its own name.
pub proof fn law_placements_name_their_node(placement: CollectionPlacement, owner: String)
    ensures
        placement.owner_node == Some(owner) ==> routed_node(placement) == owner@,
        placement.owner_node is None ==> routed_node(placement) == placement.assigned_node@,
        placement_name(placement).len() == placement.database_name@.len() + 1
            + placement.collection_name@.len(),
        placement_name(placement).take(placement.database_name@.len() as int)
            == placement.database_name@,
        placement_name(placement)[placement.database_name@.len() as int] == '/',
        placement_name(placement).skip((placement.database_name@.len() + 1) as int)
            == placement.collection_name@,
{
    reveal_strlit("/");
    let name = placement_name(placement);
    assert(name.take(placement.database_name@.len() as int) =~= placement.database_name@);
    assert(name.skip((placement.database_name@.len() + 1) as int) =~= placement.collection_name@);
}

/// A change that fails is reported as it failed; where its replica report could not be put back
/// either, as a failure of the service. What could not be checked, prepared or acknowledged is
/// reported as that.
pub proof fn law_changes_report_their_faults(request: UpdateRequest, replies: UpdateReplies)
    ensures
        ({
            let (calls, result) = update_run(UpdateStepModel::RequireOwnership(request), replies);
            match (replies.ownership, replies.prepared, replies.mutated) {
                (Err(fault), _, _) => result == Err::<UpdateOutcome, ServiceErrorModel>(fault@),
                (Ok(_), Err(fault), _) => result == Err::<UpdateOutcome, ServiceErrorModel>(fault@),
                (Ok(_), Ok(_), Err(fault)) => match replies.restored {
                    Ok(_) => result == Err::<UpdateOutcome, ServiceErrorModel>(fault@),
                    Err(_) => result matches Err(error) && error.kind == ServiceErrorKind::Internal,
                },
                (Ok(_), Ok(_), Ok(_)) => replies.acknowledged matches Err(fault) ==> result == Err::<
                    UpdateOutcome,
                    ServiceErrorModel,
                >(fault@),
            }
        }),
{
    reveal_with_fuel(update_run, 5);
}

/// A written batch is shown by the snapshot of its acknowledgement, a rearrangement by its own.
pub proof fn law_changes_are_shown(ack: CommitAck, snapshot: Snapshot)
    ensures
        UpdateOutcome::Committed(ack).shown_by() == ack.snapshot,
        UpdateOutcome::Rearranged(snapshot).shown_by() == snapshot,
        UpdateOperation::Write.text() == "write"@,
        UpdateOperation::Flush.text() == "flush"@,
        UpdateOperation::Compact.text() == "compact"@,
{
}

/// A node with a control plane that leads writes to its own catalog where that is the one in use, and
/// else to that of the cluster under its fence; without one it has failed, and whoever does not
/// lead is told why.
pub proof fn law_catalog_writes_go_to_the_catalog_in_use(
    role: NodeRole,
    fence: LeadershipFence,
    fault: ServiceError,
)
    requires
        role != NodeRole::Data,
    ensures
        catalog_target(role, SharedCatalog::Local, Ok::<_, ServiceError>(None)) == Ok::<
            CatalogTarget,
            ServiceErrorModel,
        >(CatalogTarget::Local),
        catalog_target(role, SharedCatalog::Local, Ok::<_, ServiceError>(Some(fence))) == Ok::<
            CatalogTarget,
            ServiceErrorModel,
        >(CatalogTarget::Local),
        catalog_target(role, SharedCatalog::Etcd, Ok::<_, ServiceError>(Some(fence))) == Ok::<
            CatalogTarget,
            ServiceErrorModel,
        >(CatalogTarget::Shared(fence)),
        catalog_target(
            role,
            SharedCatalog::Etcd,
            Ok::<Option<LeadershipFence>, ServiceError>(None),
        ) matches Err(error) && error.kind == ServiceErrorKind::Internal,
        catalog_target(
            role,
            SharedCatalog::Local,
            Err::<Option<LeadershipFence>, ServiceError>(fault),
        ) == Err::<CatalogTarget, ServiceErrorModel>(fault@),
        catalog_target(
            role,
            SharedCatalog::Etcd,
            Err::<Option<LeadershipFence>, ServiceError>(fault),
        ) == Err::<CatalogTarget, ServiceErrorModel>(fault@),
{
}

/// A new database is the default one exactly when it has that name, and then gets the identifier that
/// is set aside for it; any other gets a fresh one.
pub proof fn law_new_databases(name: Seq<char>, default_id: Seq<char>, fresh_id: Seq<char>)
    ensures
        new_database(name, default_id, fresh_id).name == name,
        new_database(name, default_id, fresh_id).is_default <==> name == "default"@,
        name == "default"@ ==> new_database(name, default_id, fresh_id).database_id == default_id,
        name != "default"@ ==> new_database(name, default_id, fresh_id).database_id == fresh_id,
{
}

/// With its own catalog a node creates a collection at once; with that of the cluster it first reads
/// the database, by its name or as the default one, creates the collection where it is there, and
/// gives up where it cannot tell.
pub proof fn law_known_databases_are_used(
    database_name: Seq<char>,
    replies: CreateReplies,
    default_id: Seq<char>,
    fresh_id: Seq<char>,
)
    ensures
        ({
            let (calls, result) = create_run(
                create_start(NodeRole::Combined, SharedCatalog::Local, database_name),
                replies,
                default_id,
                fresh_id,
            );
            calls.len() > 0 && calls[0] == CreateCall::Create
        }),
        ({
            let (calls, result) = create_run(
                create_start(NodeRole::Combined, SharedCatalog::Etcd, database_name),
                replies,
                default_id,
                fresh_id,
            );
            &&& calls.len() > 0
            &&& calls[0] == (CreateCall::ReadDatabase {
                database_name: if is_blank(database_name) {
                    "default"@
                } else {
                    database_name
                },
            })
            &&& replies.database is Ok ==> calls.len() > 1 && calls[1] == CreateCall::Create
            &&& replies.database matches Err(fault) ==> (fault !is NotFound ==> calls.len() == 1
                && result == Err::<CollectionDescriptor, ServiceErrorModel>(fault@))
        }),
{
    reveal_with_fuel(create_run, 6);
}

/// A creation whose collection could not be created or reported ends with that fault.
pub proof fn law_creations_report_their_faults(
    database_name: Seq<char>,
    replies: CreateReplies,
    default_id: Seq<char>,
    fresh_id: Seq<char>,
)
    ensures
        ({
            let (calls, result) = create_run(
                create_start(NodeRole::Combined, SharedCatalog::Local, database_name),
                replies,
                default_id,
                fresh_id,
            );
            match (replies.created, replies.acknowledged) {
                (Err(fault), _) => result == Err::<CollectionDescriptor, ServiceErrorModel>(fault@),
                (Ok(_), Err(fault)) => result == Err::<CollectionDescriptor, ServiceErrorModel>(
                    fault@,
                ),
                (Ok(descriptor), Ok(_)) => result == Ok::<CollectionDescriptor, ServiceErrorModel>(
                    descriptor,
                ),
            }
        }),
{
    reveal_with_fuel(create_run, 6);
}

/// From step to step a change stays what it is, and what its calls gave is handed on.
pub proof fn law_changes_stay_what_they_are(
    request: UpdateRequest,
    cleared: bool,
    outcome: UpdateOutcome,
    fault: ServiceError,
)
    ensures
        request.after_ownership(Ok(())) == UpdateStepModel::Prepare(request),
        request.after_preparation(Ok(cleared)) matches UpdateStepModel::Mutate(pending)
            && pending.request == request && pending.stale_report_already_cleared == cleared
            && (pending.after_mutation(Err(fault)) matches UpdateStepModel::Restore(failed)
            && failed.request == request && failed.error == fault) && (pending.after_mutation(
            Ok(outcome),
        ) matches UpdateStepModel::Acknowledge(made) && made.outcome == outcome && made.snapshot
            == outcome.shown_by() && made.stale_report_already_cleared == cleared),
{
}

/// Where a change failed and its replica report could not be put back, both faults are reported, with
/// the change and its collection.
pub proof fn law_double_faults_are_reported(
    request: UpdateRequest,
    error: ServiceError,
    restore_error: ServiceError,
)
    ensures
        (RestorePending { request, error }).after_restore(Err(restore_error)).kind
            == ServiceErrorKind::Internal,
        (RestorePending { request, error }).after_restore(Err(restore_error)).message
            == request.operation.text() + " for collection '"@ + request.collection_name@
            + "' failed with '"@ + error@.message
            + "', and restoring authoritative replica metadata also failed with '"@
            + restore_error@.message + "'"@,
{
}

/// What a node is told that may not read, or may not change databases or collections.
pub proof fn law_refusals_say_why(
    node_name: Seq<char>,
    placement: CollectionPlacement,
    has_barrier: bool,
)
    ensures
        database_mutation_check(NodeRole::Data) matches Err(error) && error.message
            == "data-only nodes cannot accept control-plane database mutations"@,
        collection_mutation_check(NodeRole::Data) matches Err(error) && error.message
            == "data-only nodes cannot accept control-plane collection lifecycle mutations"@,
        collection_mutation_check(NodeRole::Control) matches Err(error) && error.message
            == "control-only nodes cannot accept control-plane collection lifecycle mutations without a local data plane"@,
        locality_check(placement, node_name) matches Err(error) ==> error.message
            == "collection '"@ + placement_name(placement) + "' is assigned to node '"@
            + routed_node(placement) + "' with role '"@ + placement.assigned_role.text()
            + "' and is not locally served by node '"@ + node_name + "'"@,
        barrier_check(placement, has_barrier) matches Err(error) ==> placement.ownership_epoch
            matches Some(epoch) && error.message == "collection '"@ + placement_name(placement)
            + "' is serving at ownership epoch "@ + decimal(epoch as nat)
            + " and cannot safely satisfy read barriers after promotion until replica freshness metadata is implemented"@,
        fence_check(None) matches Err(error) && error.kind == ServiceErrorKind::Internal
            && error.message
            == "etcd-backed control-plane mutations require a local leadership fence"@,
{
}

} // verus!
