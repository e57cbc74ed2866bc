//! Queries: what they ask for, what they give, and how they were answered.

use crate::domain::{NamedSize, Snapshot};
use crate::scalar::ScalarMetadataValue;
use crate::types::DistanceMetric;
use vstd::prelude::*;

verus! {

/// How a comparison tests a field.
#[derive(Clone, Copy, Debug, PartialEq, Eq, Structural)]
pub enum PredicateOperator {
    /// The field equals the value.
    Eq,
    /// The field differs from the value.
    Ne,
    /// The field is less than the value.
    Lt,
    /// The field is at most the value.
    Lte,
    /// The field is greater than the value.
    Gt,
    /// The field is at least the value.
    Gte,
    /// The field is there.
    Exists,
    /// The field is null.
    IsNull,
}

/// A test of one metadata field.
#[derive(Debug, PartialEq)]
pub struct PredicateComparison {
    /// Name of the field.
    pub field: String,
    /// How it is tested.
    pub operator: PredicateOperator,
    /// What it is tested against.
    pub value: Option<ScalarMetadataValue>,
}

/// A condition on the metadata of records.
#[derive(Debug, PartialEq)]
pub enum Predicate {
    /// Every condition holds.
    And {
        /// The conditions.
        children: Vec<Predicate>,
    },
    /// Some condition holds.
    Or {
        /// The conditions.
        children: Vec<Predicate>,
    },
    /// A condition does not hold.
    Not {
        /// The condition.
        child: Box<Predicate>,
    },
    /// A field passes a test.
    Comparison(PredicateComparison),
}

/// A condition on the metadata of records, as its model.
pub enum PredicateModel {
    And(Seq<PredicateModel>),
    Or(Seq<PredicateModel>),
    Not(Box<PredicateModel>),
    Comparison(PredicateComparison),
}

impl View for Predicate {
    type V = PredicateModel;

    open spec fn view(&self) -> PredicateModel {
        predicate_model(*self)
    }
}

/// A condition as its model.
pub open spec fn predicate_model(predicate: Predicate) -> PredicateModel
    decreases predicate,
{
    match predicate {
        Predicate::And { children } => PredicateModel::And(
            Seq::new(
                children@.len(),
                |i: int|
                    if 0 <= i < children@.len() {
                        predicate_model(children@[i])
                    } else {
                        arbitrary()
                    },
            ),
        ),
        Predicate::Or { children } => PredicateModel::Or(
            Seq::new(
                children@.len(),
                |i: int|
                    if 0 <= i < children@.len() {
                        predicate_model(children@[i])
                    } else {
                        arbitrary()
                    },
            ),
        ),
        Predicate::Not { child } => PredicateModel::Not(Box::new(predicate_model(*child))),
        Predicate::Comparison(comparison) => PredicateModel::Comparison(comparison),
    }
}

/// Conditions as their models.
pub open spec fn predicate_models(predicates: Seq<Predicate>) -> Seq<PredicateModel> {
    Seq::new(predicates.len(), |i: int| predicates[i]@)
}

/// The model of a conjunction or a disjunction lists the models of its conditions.
pub proof fn lemma_list_model(children: Vec<Predicate>)
    ensures
        (Predicate::And { children })@ == PredicateModel::And(predicate_models(children@)),
        (Predicate::Or { children })@ == PredicateModel::Or(predicate_models(children@)),
{
    let all = (Predicate::And { children })@;
    let some = (Predicate::Or { children })@;
    assert(all->And_0 =~= predicate_models(children@));
    assert(some->Or_0 =~= predicate_models(children@));
}

/// A field that has to equal a value.
#[derive(Debug, PartialEq)]
pub struct MetadataFilter {
    /// Name of the field.
    pub field: String,
    /// The value.
    pub value: ScalarMetadataValue,
}

/// How much of its plan a query explains.
#[derive(Clone, Copy, Debug, PartialEq, Eq, Structural)]
pub enum ExplainMode {
    /// Nothing.
    Off,
    /// The plan.
    Plan,
    /// The plan and its timings.
    Profile,
}

impl Default for ExplainMode {
    fn default() -> (mode: Self)
        ensures
            mode == ExplainMode::Off,
    {
        ExplainMode::Off
    }
}

/// A search for the nearest records.
#[derive(Debug, PartialEq)]
pub struct QueryRequest {
    /// Key of the collection.
    pub collection_name: String,
    /// Components of the query vector, as bit patterns of single-precision numbers.
    pub vector: Vec<u32>,
    /// How many records are wanted.
    pub top_k: usize,
    /// The state to read.
    pub snapshot: Option<Snapshot>,
    /// The oldest state to read.
    pub read_barrier: Option<Snapshot>,
    /// Fields that have to equal values.
    pub filters: Vec<MetadataFilter>,
    /// Condition on the metadata.
    pub predicate: Option<Predicate>,
    /// How much of the plan is explained.
    pub explain: ExplainMode,
}

/// One record that a query found.
#[derive(Debug, PartialEq, Eq)]
pub struct QueryMatch {
    /// Identifier of the record.
    pub id: String,
    /// Value of the metric, as the bit pattern of a single-precision number.
    pub value: u32,
    /// Metadata of the record, as JSON text.
    pub metadata_json: String,
}

/// Model of one record that a query found.
#[verifier::ext_equal]
pub struct MatchModel {
    pub id: Seq<char>,
    pub value: u32,
    pub metadata: Seq<char>,
}

impl View for QueryMatch {
    type V = MatchModel;

    open spec fn view(&self) -> MatchModel {
        MatchModel { id: self.id@, value: self.value, metadata: self.metadata_json@ }
    }
}

/// Models of the records that a query found.
pub open spec fn matches_model(found: Seq<QueryMatch>) -> Seq<MatchModel> {
    Seq::new(found.len(), |i: int| found[i]@)
}

/// How a query was planned.
#[derive(Clone, Copy, Debug, PartialEq, Eq, Structural)]
pub enum QueryPlanKind {
    /// Every record is scored.
    UnfilteredExactScan,
    /// Records that pass the condition are scored.
    PredicateFirstExact,
    /// Records are scored, then tested.
    VectorFirstExact,
    /// There are too few records for anything but a scan.
    TinyPopulationExactFallback,
    /// The index proposes records.
    VectorFirstAnn,
    /// The index proposes records that pass the condition.
    CooperativeFilteredAnn,
    /// Scans and index proposals are merged.
    HybridExactAnnMerge,
}

/// Time spent in each stage of a query.
#[derive(Clone, Copy, Debug, PartialEq, Eq, Structural)]
pub struct QueryStageTimings {
    /// Planning.
    pub planning_micros: u64,
    /// Testing before candidates are generated.
    pub prefilter_micros: u64,
    /// Generating candidates.
    pub candidate_generation_micros: u64,
    /// Testing after candidates are generated.
    pub postfilter_micros: u64,
    /// Scoring candidates again.
    pub rerank_micros: u64,
    /// Merging candidates.
    pub merge_micros: u64,
}

/// How a query was answered.
#[derive(Debug, PartialEq, Eq)]
pub struct QueryDiagnostics {
    /// The plan.
    pub chosen_plan: QueryPlanKind,
    /// Why it was chosen.
    pub planner_reason: String,
    /// Estimated share of records that pass, as the bit pattern of a single-precision number.
    pub estimated_selectivity: u32,
    /// Units that could hold matches.
    pub units_considered: usize,
    /// Units that were ruled out.
    pub units_pruned: usize,
    /// Units that were read.
    pub units_scanned: usize,
    /// Candidates before they were tested.
    pub candidates_before_filter: usize,
    /// Candidates after they were tested.
    pub candidates_after_filter: usize,
    /// Candidates that were scored again.
    pub candidates_reranked: usize,
    /// Candidates that were merged.
    pub candidates_merged: usize,
    /// Number of rerankings.
    pub rerank_count: usize,
    /// Why the plan was given up.
    pub fallback_reason: Option<String>,
    /// Units read in each way, ordered by name.
    pub unit_scan_mix: Vec<NamedSize>,
    /// Time spent in each stage.
    pub stage_timings: Option<QueryStageTimings>,
}

/// What a query gives.
#[derive(Debug, PartialEq)]
pub struct QueryResponse {
    /// Metric of the collection.
    pub metric: DistanceMetric,
    /// How many records were wanted.
    pub top_k: usize,
    /// How many records were found.
    pub returned: usize,
    /// The state that was read.
    pub snapshot: Snapshot,
    /// The records, best first.
    pub matches: Vec<QueryMatch>,
    /// How the query was answered, where it was to be explained.
    pub diagnostics: Option<QueryDiagnostics>,
}

} // verus!
