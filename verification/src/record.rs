//! The alignment guard and the record builder.
//!
//! Before records are built, the embedding sequence returned by the engine
//! must have exactly as many vectors as there were documents; a mismatch is a
//! contract breach of the engine and aborts the run. Each aligned pair is
//! then turned into an index record: a fresh identity, the vector, and a
//! payload carrying the document text and metadata.
use vstd::prelude::*;

use crate::document::Document;
use crate::document::DocumentV;
use crate::document::PayloadEntry;
use crate::document::PayloadEntryV;
use crate::document::build_payload;
use crate::document::clone_payload;
use crate::document::first_unencodable;
use crate::document::payload_for;
use crate::embedding::Embedding;
use crate::errors::PipelineError;

verus! {

broadcast use crate::views::lemma_vec_deep_view_len, crate::views::lemma_vec_deep_view_index;

/// An index record: identity, vector, and payload.
#[derive(Debug)]
pub struct Record {
    pub id: String,
    pub vector: Embedding,
    pub payload: Vec<PayloadEntry>,
}

/// Mathematical model of a record.
#[verifier::ext_equal]
pub ghost struct RecordV {
    pub id: Seq<char>,
    pub vector: Seq<u32>,
    pub payload: Seq<PayloadEntryV>,
}

impl View for Record {
    type V = RecordV;

    open spec fn view(&self) -> RecordV {
        RecordV { id: self.id@, vector: self.vector@, payload: self.payload.deep_view() }
    }
}

impl DeepView for Record {
    type V = RecordV;

    open spec fn deep_view(&self) -> RecordV {
        self.view()
    }
}

impl Clone for Record {
    fn clone(&self) -> (res: Self)
        ensures
            res@ == self@,
    {
        Record {
            id: self.id.clone(),
            vector: self.vector.clone(),
            payload: clone_payload(&self.payload),
        }
    }
}

/// Whether a record sequence was built from these documents and embeddings:
/// one record per pair, in order, vector kept, payload derived from the
/// document.
pub open spec fn records_built(
    docs: Seq<DocumentV>,
    embs: Seq<Seq<u32>>,
    records: Seq<RecordV>,
) -> bool {
    &&& records.len() == docs.len()
    &&& forall|i: int|
        0 <= i < docs.len() ==> {
            &&& (#[trigger] records[i]).vector == embs[i]
            &&& payload_for(docs[i], records[i].payload)
        }
}

/// The first document whose metadata cannot be encoded, or -1 if none.
pub open spec fn first_unencodable_doc(docs: Seq<DocumentV>) -> int
    decreases docs.len(),
{
    if docs.len() == 0 {
        -1
    } else if first_unencodable(docs[0].metadata) >= 0 {
        0
    } else {
        let r = first_unencodable_doc(docs.drop_first());
        if r < 0 {
            -1
        } else {
            r + 1
        }
    }
}

/// The alignment guard: the engine must return exactly one vector per
/// document, in input order. On mismatch the run fails with the two counts
/// and nothing is written.
pub fn check_alignment(docs: &Vec<Document>, embs: &Vec<Embedding>) -> (r: Result<
    (),
    PipelineError,
>)
    ensures
        r is Ok <==> docs@.len() == embs@.len(),
        r matches Err(e) ==> e == (PipelineError::Alignment {
            documents: docs@.len() as usize,
            embeddings: embs@.len() as usize,
        }),
{
    if docs.len() == embs.len() {
        Ok(())
    } else {
        Err(PipelineError::Alignment { documents: docs.len(), embeddings: embs.len() })
    }
}

/// A fresh, globally unique identity for one record, in hyphenated textual
/// form.
///
/// Relies on `uuid::Uuid::new_v4` for a random version-4 identifier and on
/// its documented hyphenated `Display` form of 36 characters. The value is
/// random: two calls may return anything, so callers state nothing beyond
/// the length.
#[verifier::external_body]
fn fresh_record_id() -> (r: String)
    ensures
        r@.len() == 36,
{
    uuid::Uuid::new_v4().to_string()
}

/// Build one record from an aligned pair under a caller-supplied identity.
/// Fails exactly when some metadata value is not a payload scalar.
pub fn build_record_with_id(doc: &Document, emb: &Embedding, id: String) -> (r: Result<
    Record,
    PipelineError,
>)
    ensures
        r matches Ok(rec) ==> {
            &&& first_unencodable(doc@.metadata) == -1
            &&& rec.id@ == id@
            &&& rec.vector@ == emb@
            &&& payload_for(doc@, rec.payload.deep_view())
        },
        r matches Err(e) ==> {
            &&& first_unencodable(doc@.metadata) >= 0
            &&& e matches PipelineError::PayloadEncoding { field } && field@
                == doc@.metadata[first_unencodable(doc@.metadata)].name
        },
{
    match build_payload(doc) {
        Ok(payload) => Ok(Record { id, vector: emb.clone(), payload }),
        Err(e) => Err(e),
    }
}

/// Build one record from an aligned pair under a fresh identity.
pub fn build_record(doc: &Document, emb: &Embedding) -> (r: Result<Record, PipelineError>)
    ensures
        r matches Ok(rec) ==> {
            &&& first_unencodable(doc@.metadata) == -1
            &&& rec.id@.len() == 36
            &&& rec.vector@ == emb@
            &&& payload_for(doc@, rec.payload.deep_view())
        },
        r matches Err(e) ==> {
            &&& first_unencodable(doc@.metadata) >= 0
            &&& e matches PipelineError::PayloadEncoding { field } && field@
                == doc@.metadata[first_unencodable(doc@.metadata)].name
        },
{
    let id = fresh_record_id();
    build_record_with_id(doc, emb, id)
}

/// Build the records for an aligned batch, one fresh identity per pair.
/// Fails exactly when some document's metadata cannot be encoded, naming the
/// first offending field of the first offending document.
pub fn build_records(docs: &Vec<Document>, embs: &Vec<Embedding>) -> (r: Result<
    Vec<Record>,
    PipelineError,
>)
    requires
        docs@.len() == embs@.len(),
    ensures
        r matches Ok(records) ==> {
            &&& first_unencodable_doc(docs.deep_view()) == -1
            &&& records_built(docs.deep_view(), embs.deep_view(), records.deep_view())
            &&& forall|i: int|
                0 <= i < records.deep_view().len() ==> (#[trigger] records.deep_view()[i]).id.len()
                    == 36
        },
        r matches Err(e) ==> {
            &&& first_unencodable_doc(docs.deep_view()) >= 0
            &&& e matches PipelineError::PayloadEncoding { field } && field@ == ({
                let d = docs.deep_view()[first_unencodable_doc(docs.deep_view())];
                d.metadata[first_unencodable(d.metadata)].name
            })
        },
{
    let mut records: Vec<Record> = Vec::new();
    let mut i: usize = 0;
    while i < docs.len()
        invariant
            0 <= i <= docs.len(),
            docs@.len() == embs@.len(),
            records@.len() == i,
            forall|k: int|
                0 <= k < i ==> {
                    &&& (#[trigger] records@[k])@.vector == embs@[k]@
                    &&& payload_for(docs@[k]@, records@[k]@.payload)
                    &&& records@[k]@.id.len() == 36
                },
            forall|k: int| 0 <= k < i ==> first_unencodable((#[trigger] docs@[k])@.metadata)
                == -1,
        decreases docs.len() - i,
    {
        match build_record(&docs[i], &embs[i]) {
            Ok(rec) => {
                records.push(rec);
            },
            Err(e) => {
                proof {
                    assert forall|k: int| 0 <= k < i as int implies first_unencodable(
                        (#[trigger] docs.deep_view()[k]).metadata,
                    ) == -1 by {
                        assert(docs.deep_view()[k] == docs@[k]@);
                    }
                    assert(docs.deep_view()[i as int] == docs@[i as int]@);
                    lemma_first_unencodable_doc_is(docs.deep_view(), i as int);
                }
                return Err(e);
            },
        }
        i = i + 1;
    }
    proof {
        assert forall|k: int| 0 <= k < docs.deep_view().len() implies first_unencodable(
            (#[trigger] docs.deep_view()[k]).metadata,
        ) == -1 by {
            assert(docs.deep_view()[k] == docs@[k]@);
        }
        lemma_first_unencodable_doc_absent(docs.deep_view());
        assert forall|k: int| 0 <= k < docs.deep_view().len() implies {
            &&& (#[trigger] records.deep_view()[k]).vector == embs.deep_view()[k]
            &&& payload_for(docs.deep_view()[k], records.deep_view()[k].payload)
            &&& records.deep_view()[k].id.len() == 36
        } by {
            assert(records.deep_view()[k] == records@[k]@);
            assert(docs.deep_view()[k] == docs@[k]@);
            assert(embs.deep_view()[k] == embs@[k]@);
        }
    }
    Ok(records)
}

/// If every document before `j` encodes and document `j` does not, then `j`
/// is the first unencodable document.
proof fn lemma_first_unencodable_doc_is(docs: Seq<DocumentV>, j: int)
    requires
        0 <= j < docs.len(),
        first_unencodable(docs[j].metadata) >= 0,
        forall|k: int| 0 <= k < j ==> first_unencodable((#[trigger] docs[k]).metadata) == -1,
    ensures
        first_unencodable_doc(docs) == j,
    decreases docs.len(),
{
    if j > 0 {
        assert forall|k: int| 0 <= k < j - 1 implies first_unencodable(
            (#[trigger] docs.drop_first()[k]).metadata,
        ) == -1 by {
            assert(docs.drop_first()[k] == docs[k + 1]);
        }
        assert(docs.drop_first()[j - 1] == docs[j]);
        lemma_first_unencodable_doc_is(docs.drop_first(), j - 1);
    }
}

/// If every document encodes, none is reported as unencodable.
proof fn lemma_first_unencodable_doc_absent(docs: Seq<DocumentV>)
    requires
        forall|k: int| 0 <= k < docs.len() ==> first_unencodable((#[trigger] docs[k]).metadata)
            == -1,
    ensures
        first_unencodable_doc(docs) == -1,
    decreases docs.len(),
{
    if docs.len() > 0 {
        assert forall|k: int| 0 <= k < docs.len() - 1 implies first_unencodable(
            (#[trigger] docs.drop_first()[k]).metadata,
        ) == -1 by {
            assert(docs.drop_first()[k] == docs[k + 1]);
        }
        lemma_first_unencodable_doc_absent(docs.drop_first());
    }
}

} // verus!
