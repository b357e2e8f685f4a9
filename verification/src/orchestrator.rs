//! The orchestrator: one ingestion-and-query cycle as an explicit state
//! machine.
//!
//! The machine makes every decision of a run; the outside work — embedding,
//! and each call to the index service — is performed by the surrounding
//! harness, which executes the action a step returns and feeds the outcome
//! back as the next event. Any failure moves the run to `Failed` at once,
//! and a finished run accepts no further event. Writes already acknowledged
//! stay: upserts are idempotent, so the whole run is safe to retry.
//!
//! `ingest_and_query` runs the same cycle directly against an in-process
//! [`crate::index::VectorIndex`].
use vstd::prelude::*;
use vstd::pervasive::unreached;

use crate::document::Document;
use crate::document::first_unencodable;
use crate::embedding::Embedding;
use crate::errors::CollectionSchema;
use crate::errors::CollectionState;
use crate::errors::DistanceMetric;
use crate::errors::PipelineError;
use crate::index::SearchMatch;
use crate::index::SearchMatchV;
use crate::index::VectorIndex;
use crate::index::find_collection;
use crate::index::lemma_find_collection;
use crate::index::lemma_find_collection_is;
use crate::index::lemma_find_collection_same_names;
use crate::index::lemma_first_dim_violation;
use crate::index::spec_ensure_collection;
use crate::index::spec_query;
use crate::index::spec_upsert;
use crate::record::Record;
use crate::record::RecordV;
use crate::record::build_records;
use crate::record::check_alignment;
use crate::record::first_unencodable_doc;
use crate::record::records_built;

verus! {

broadcast use crate::views::lemma_vec_deep_view_len, crate::views::lemma_vec_deep_view_index;

/// Per-run configuration: the collection written to and how it is queried.
pub struct RunConfig {
    pub collection_name: String,
    pub dimension: usize,
    pub metric: DistanceMetric,
    pub top_k: usize,
}

/// The states of one ingestion-and-query cycle.
#[derive(Debug)]
pub enum RunState {
    /// The run holds its documents and has not started.
    Idle { documents: Vec<Document> },
    /// The engine is embedding the documents.
    Embedding { documents: Vec<Document> },
    /// The engine answered; the alignment guard has not run yet.
    Aligning { documents: Vec<Document>, embeddings: Vec<Embedding> },
    /// Alignment holds; records are to be built.
    BuildingRecords { documents: Vec<Document>, embeddings: Vec<Embedding> },
    /// Records are built; the collection is being ensured.
    EnsuringCollection { records: Vec<Record>, query_vector: Embedding },
    /// The collection is there; the records are being written.
    Writing { records: Vec<Record>, query_vector: Embedding },
    /// The write is acknowledged; the self-check query is running.
    Querying { query_vector: Embedding },
    /// The run finished with the ranked matches of the final query.
    Done { results: Vec<SearchMatch> },
    /// The run aborted with a typed error; no further step is taken.
    Failed { error: PipelineError },
}

/// What the surrounding harness is asked to do after a step.
#[derive(Debug, PartialEq, Eq, Structural)]
pub enum RunAction {
    /// Hand the documents to the embedding engine.
    ComputeEmbeddings,
    /// Call `step` again with `Advance`: the next decision is internal.
    Proceed,
    /// Ask the index service for the configured collection.
    PerformEnsureCollection,
    /// Submit the records of the `Writing` state to the index service.
    PerformUpsert,
    /// Run the query of the `Querying` state against the index service.
    PerformQuery,
    /// The run is over: report the results or the error.
    Halt,
}

/// The events a step consumes: the outcome of outside work, or `Advance`
/// where the next decision is internal.
#[derive(Debug)]
pub enum RunEvent {
    StartRun,
    EmbeddingsComputed { embeddings: Vec<Embedding> },
    EngineFailed,
    Advance,
    CollectionReady { state: CollectionState },
    CollectionFailed { error: PipelineError },
    WriteAcknowledged,
    WriteFailed { error: PipelineError },
    QueryReturned { results: Vec<SearchMatch> },
    QueryFailed { error: PipelineError },
}

/// The data a state must carry: a run holds at least one document, and once
/// the alignment guard has passed, as many embeddings as documents.
pub open spec fn state_wf(s: RunState) -> bool {
    match s {
        RunState::Idle { documents } => documents@.len() >= 1,
        RunState::Embedding { documents } => documents@.len() >= 1,
        RunState::Aligning { documents, embeddings } => documents@.len() >= 1,
        RunState::BuildingRecords { documents, embeddings } => documents@.len() >= 1
            && documents@.len() == embeddings@.len(),
        _ => true,
    }
}

/// Which events a state accepts. Terminal states accept none.
pub open spec fn event_fits(s: RunState, e: RunEvent) -> bool {
    match s {
        RunState::Idle { .. } => e is StartRun,
        RunState::Embedding { .. } => e is EmbeddingsComputed || e is EngineFailed,
        RunState::Aligning { .. } => e is Advance,
        RunState::BuildingRecords { .. } => e is Advance,
        RunState::EnsuringCollection { .. } => e is CollectionReady || e is CollectionFailed,
        RunState::Writing { .. } => e is WriteAcknowledged || e is WriteFailed,
        RunState::Querying { .. } => e is QueryReturned || e is QueryFailed,
        RunState::Done { .. } => false,
        RunState::Failed { .. } => false,
    }
}

/// Exactly what one step does: the next state and the action it asks for,
/// determined by the state and the event alone.
pub open spec fn step_post(s: RunState, e: RunEvent, s2: RunState, a: RunAction) -> bool {
    match (s, e) {
        (RunState::Idle { documents }, RunEvent::StartRun) => s2 == (RunState::Embedding {
            documents,
        }) && a == RunAction::ComputeEmbeddings,
        (
            RunState::Embedding { documents },
            RunEvent::EmbeddingsComputed { embeddings },
        ) => s2 == (RunState::Aligning { documents, embeddings }) && a == RunAction::Proceed,
        (RunState::Embedding { .. }, RunEvent::EngineFailed) => s2 == (RunState::Failed {
            error: PipelineError::Engine,
        }) && a == RunAction::Halt,
        (RunState::Aligning { documents, embeddings }, RunEvent::Advance) => {
            if documents@.len() == embeddings@.len() {
                s2 == (RunState::BuildingRecords { documents, embeddings }) && a
                    == RunAction::Proceed
            } else {
                s2 == (RunState::Failed {
                    error: PipelineError::Alignment {
                        documents: documents@.len() as usize,
                        embeddings: embeddings@.len() as usize,
                    },
                }) && a == RunAction::Halt
            }
        },
        (RunState::BuildingRecords { documents, embeddings }, RunEvent::Advance) => {
            if first_unencodable_doc(documents.deep_view()) == -1 {
                &&& a == RunAction::PerformEnsureCollection
                &&& s2 matches RunState::EnsuringCollection { records, query_vector } && {
                    &&& records_built(
                        documents.deep_view(),
                        embeddings.deep_view(),
                        records.deep_view(),
                    )
                    &&& forall|i: int|
                        0 <= i < records.deep_view().len() ==> (
                        #[trigger] records.deep_view()[i]).id.len() == 36
                    &&& query_vector@ == embeddings@[0]@
                }
            } else {
                &&& a == RunAction::Halt
                &&& s2 matches RunState::Failed { error } && error matches
                    PipelineError::PayloadEncoding { field } && field@ == ({
                    let d = documents.deep_view()[first_unencodable_doc(documents.deep_view())];
                    d.metadata[first_unencodable(d.metadata)].name
                })
            }
        },
        (
            RunState::EnsuringCollection { records, query_vector },
            RunEvent::CollectionReady { .. },
        ) => s2 == (RunState::Writing { records, query_vector }) && a == RunAction::PerformUpsert,
        (
            RunState::EnsuringCollection { .. },
            RunEvent::CollectionFailed { error },
        ) => s2 == (RunState::Failed { error }) && a == RunAction::Halt,
        (RunState::Writing { records, query_vector }, RunEvent::WriteAcknowledged) => s2 == (
        RunState::Querying { query_vector }) && a == RunAction::PerformQuery,
        (RunState::Writing { .. }, RunEvent::WriteFailed { error }) => s2 == (RunState::Failed {
            error,
        }) && a == RunAction::Halt,
        (RunState::Querying { .. }, RunEvent::QueryReturned { results }) => s2 == (RunState::Done {
            results,
        }) && a == RunAction::Halt,
        (RunState::Querying { .. }, RunEvent::QueryFailed { error }) => s2 == (RunState::Failed {
            error,
        }) && a == RunAction::Halt,
        _ => false,
    }
}

/// One transition of the state machine: consume the event, decide, and ask
/// the harness for the next piece of outside work.
pub fn step(state: RunState, event: RunEvent) -> (r: (RunState, RunAction))
    requires
        state_wf(state),
        event_fits(state, event),
    ensures
        state_wf(r.0),
        step_post(state, event, r.0, r.1),
{
    match (state, event) {
        (RunState::Idle { documents }, RunEvent::StartRun) => (
            RunState::Embedding { documents },
            RunAction::ComputeEmbeddings,
        ),
        (RunState::Embedding { documents }, RunEvent::EmbeddingsComputed { embeddings }) => (
            RunState::Aligning { documents, embeddings },
            RunAction::Proceed,
        ),
        (RunState::Embedding { .. }, RunEvent::EngineFailed) => (
            RunState::Failed { error: PipelineError::Engine },
            RunAction::Halt,
        ),
        (RunState::Aligning { documents, embeddings }, RunEvent::Advance) => {
            match check_alignment(&documents, &embeddings) {
                Ok(_) => (RunState::BuildingRecords { documents, embeddings }, RunAction::Proceed),
                Err(error) => (RunState::Failed { error }, RunAction::Halt),
            }
        },
        (RunState::BuildingRecords { documents, embeddings }, RunEvent::Advance) => {
            match build_records(&documents, &embeddings) {
                Ok(records) => {
                    let query_vector = embeddings[0].clone();
                    (
                        RunState::EnsuringCollection { records, query_vector },
                        RunAction::PerformEnsureCollection,
                    )
                },
                Err(error) => (RunState::Failed { error }, RunAction::Halt),
            }
        },
        (
            RunState::EnsuringCollection { records, query_vector },
            RunEvent::CollectionReady { .. },
        ) => (RunState::Writing { records, query_vector }, RunAction::PerformUpsert),
        (RunState::EnsuringCollection { .. }, RunEvent::CollectionFailed { error }) => (
            RunState::Failed { error },
            RunAction::Halt,
        ),
        (RunState::Writing { records: _, query_vector }, RunEvent::WriteAcknowledged) => (
            RunState::Querying { query_vector },
            RunAction::PerformQuery,
        ),
        (RunState::Writing { .. }, RunEvent::WriteFailed { error }) => (
            RunState::Failed { error },
            RunAction::Halt,
        ),
        (RunState::Querying { .. }, RunEvent::QueryReturned { results }) => (
            RunState::Done { results },
            RunAction::Halt,
        ),
        (RunState::Querying { .. }, RunEvent::QueryFailed { error }) => (
            RunState::Failed { error },
            RunAction::Halt,
        ),
        _ => unreached(),
    }
}

/// One full ingestion-and-query cycle against an in-process index: guard
/// the alignment, build one record per pair under fresh identities, ensure
/// the collection, write every record, and run the self-check query with
/// the first document's embedding, payloads included.
///
/// A guard or builder failure leaves the index untouched. After the
/// collection was ensured, a rejected write leaves it ensured but writes
/// nothing. A completed write always answers the query.
pub fn ingest_and_query(
    index: &mut VectorIndex,
    config: &RunConfig,
    documents: &Vec<Document>,
    embeddings: &Vec<Embedding>,
) -> (r: Result<Vec<SearchMatch>, PipelineError>)
    requires
        documents@.len() >= 1,
        config.top_k >= 1,
    ensures
        documents@.len() != embeddings@.len() ==> {
            &&& final(index)@ == old(index)@
            &&& r == Err::<Vec<SearchMatch>, PipelineError>(
                PipelineError::Alignment {
                    documents: documents@.len() as usize,
                    embeddings: embeddings@.len() as usize,
                },
            )
        },
        documents@.len() == embeddings@.len() && first_unencodable_doc(documents.deep_view()) >= 0
            ==> {
            &&& final(index)@ == old(index)@
            &&& r matches Err(e) && e matches PipelineError::PayloadEncoding { field } && field@
                == ({
                let d = documents.deep_view()[first_unencodable_doc(documents.deep_view())];
                d.metadata[first_unencodable(d.metadata)].name
            })
        },
        documents@.len() == embeddings@.len() && first_unencodable_doc(documents.deep_view()) == -1
            ==> ({
            let ens = spec_ensure_collection(
                old(index)@,
                config.collection_name@,
                CollectionSchema { dimension: config.dimension, metric: config.metric },
            );
            if ens.1 is Err {
                &&& final(index)@ == old(index)@
                &&& r matches Err(e) && ens.1 == Err::<CollectionState, PipelineError>(e)
            } else {
                exists|records: Seq<RecordV>|
                    {
                        &&& #[trigger] records_built(
                            documents.deep_view(),
                            embeddings.deep_view(),
                            records,
                        )
                        &&& ({
                            let up = spec_upsert(ens.0, config.collection_name@, records);
                            &&& final(index)@ == up.0
                            &&& (up.1 matches Err(e) ==> r == Err::<Vec<SearchMatch>, PipelineError>(
                                e,
                            ))
                            &&& (up.1 is Ok ==> (r matches Ok(ms) && spec_query(
                                up.0,
                                config.collection_name@,
                                embeddings@[0]@,
                                config.top_k as nat,
                                true,
                            ) == Ok::<Seq<SearchMatchV>, PipelineError>(ms.deep_view())))
                        })
                    }
            }
        }),
{
    match check_alignment(documents, embeddings) {
        Err(e) => {
            return Err(e);
        },
        Ok(_) => {},
    }
    let records = match build_records(documents, embeddings) {
        Ok(records) => records,
        Err(e) => {
            return Err(e);
        },
    };
    let ghost recsv = records.deep_view();
    let ghost pre = index@;
    let ghost schema = CollectionSchema { dimension: config.dimension, metric: config.metric };
    match index.ensure_collection(&config.collection_name, config.dimension, config.metric) {
        Err(e) => {
            return Err(e);
        },
        Ok(_) => {},
    }
    let ghost ens = spec_ensure_collection(pre, config.collection_name@, schema);
    let query_vector = embeddings[0].clone();
    proof {
        lemma_find_collection(pre, config.collection_name@);
        if find_collection(pre, config.collection_name@) < 0 {
            assert forall|k: int| 0 <= k < pre.len() implies (#[trigger] ens.0[k]).name
                != config.collection_name@ by {
                assert(ens.0[k] == pre[k]);
            }
            lemma_find_collection_is(ens.0, config.collection_name@, pre.len() as int);
        }
        assert(ens.0[find_collection(ens.0, config.collection_name@)].schema == schema);
    }
    let ghost j = find_collection(ens.0, config.collection_name@);
    match index.upsert_points(&config.collection_name, records) {
        Err(e) => {
            proof {
                assert(records_built(documents.deep_view(), embeddings.deep_view(), recsv));
            }
            return Err(e);
        },
        Ok(_) => {},
    }
    let ghost up = spec_upsert(ens.0, config.collection_name@, recsv);
    proof {
        assert forall|k: int| 0 <= k < up.0.len() implies (#[trigger] up.0[k]).name
            == ens.0[k].name by {
            if k != j {
                assert(up.0[k] == ens.0[k]);
            }
        }
        lemma_find_collection_same_names(up.0, ens.0, config.collection_name@);
        lemma_first_dim_violation(recsv, schema.dimension as nat);
        assert(recsv[0].vector == embeddings.deep_view()[0]);
        assert(embeddings.deep_view()[0] == embeddings@[0]@);
        assert(up.0[j].schema == schema);
        assert(records_built(documents.deep_view(), embeddings.deep_view(), recsv));
    }
    index.query_points(&config.collection_name, &query_vector, config.top_k, true)
}

/// An alignment failure aborts the run at once, with the two counts, and the
/// machine asks for nothing but to halt: no write is ever requested after
/// mismatched counts, since `Failed` accepts no further event.
pub proof fn lemma_alignment_failure_writes_nothing(
    documents: Vec<Document>,
    embeddings: Vec<Embedding>,
    e: RunEvent,
    s2: RunState,
    a: RunAction,
)
    requires
        documents@.len() != embeddings@.len(),
        step_post(RunState::Aligning { documents, embeddings }, e, s2, a),
    ensures
        s2 == (RunState::Failed {
            error: PipelineError::Alignment {
                documents: documents@.len() as usize,
                embeddings: embeddings@.len() as usize,
            },
        }),
        a == RunAction::Halt,
{
}

/// The machine asks for a write only on the one transition into `Writing`:
/// after its records were built from an aligned batch and the collection was
/// reported ready.
pub proof fn lemma_write_only_after_collection_ready(
    s: RunState,
    e: RunEvent,
    s2: RunState,
    a: RunAction,
)
    requires
        step_post(s, e, s2, a),
        a == RunAction::PerformUpsert,
    ensures
        s is EnsuringCollection,
        e is CollectionReady,
        s2 is Writing,
{
}

} // verus!
