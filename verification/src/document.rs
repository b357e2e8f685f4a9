//! Documents, their metadata, and the payloads derived from them.
//!
//! A record's payload carries the original document text under the stable key
//! `document`, followed by one entry per metadata field. Metadata values that
//! are not payload scalars cannot be encoded and name the offending field.
use vstd::prelude::*;

use crate::errors::PipelineError;

verus! {

broadcast use crate::views::lemma_vec_deep_view_len, crate::views::lemma_vec_deep_view_index;

/// A metadata value a caller may attach to a document.
#[derive(Debug)]
pub enum MetaValue {
    Text(String),
    Int(i64),
    Flag(bool),
    /// A list of texts; this is not a payload scalar and cannot be encoded.
    TextList(Vec<String>),
}

/// A scalar stored in a record's payload.
#[derive(Debug)]
pub enum PayloadValue {
    Text(String),
    Int(i64),
    Flag(bool),
}

/// One key-value entry of a record's payload.
#[derive(Debug)]
pub struct PayloadEntry {
    pub key: String,
    pub value: PayloadValue,
}

/// One named metadata field of a document.
#[derive(Debug)]
pub struct MetaField {
    pub name: String,
    pub value: MetaValue,
}

/// An immutable text record with optional metadata; the unit of ingestion.
#[derive(Debug)]
pub struct Document {
    pub text: String,
    pub metadata: Vec<MetaField>,
}

/// Mathematical model of a metadata value.
pub ghost enum MetaValueV {
    Text(Seq<char>),
    Int(int),
    Flag(bool),
    TextList(Seq<Seq<char>>),
}

/// Mathematical model of a payload scalar.
pub ghost enum PayloadValueV {
    Text(Seq<char>),
    Int(int),
    Flag(bool),
}

/// Mathematical model of one payload entry.
pub ghost struct PayloadEntryV {
    pub key: Seq<char>,
    pub value: PayloadValueV,
}

/// Mathematical model of one metadata field.
pub ghost struct MetaFieldV {
    pub name: Seq<char>,
    pub value: MetaValueV,
}

/// Mathematical model of a document.
pub ghost struct DocumentV {
    pub text: Seq<char>,
    pub metadata: Seq<MetaFieldV>,
}

impl View for MetaValue {
    type V = MetaValueV;

    open spec fn view(&self) -> MetaValueV {
        match self {
            MetaValue::Text(s) => MetaValueV::Text(s@),
            MetaValue::Int(i) => MetaValueV::Int(*i as int),
            MetaValue::Flag(b) => MetaValueV::Flag(*b),
            MetaValue::TextList(l) => MetaValueV::TextList(l.deep_view()),
        }
    }
}

impl DeepView for MetaValue {
    type V = MetaValueV;

    open spec fn deep_view(&self) -> MetaValueV {
        self.view()
    }
}

impl View for PayloadValue {
    type V = PayloadValueV;

    open spec fn view(&self) -> PayloadValueV {
        match self {
            PayloadValue::Text(s) => PayloadValueV::Text(s@),
            PayloadValue::Int(i) => PayloadValueV::Int(*i as int),
            PayloadValue::Flag(b) => PayloadValueV::Flag(*b),
        }
    }
}

impl DeepView for PayloadValue {
    type V = PayloadValueV;

    open spec fn deep_view(&self) -> PayloadValueV {
        self.view()
    }
}

impl View for PayloadEntry {
    type V = PayloadEntryV;

    open spec fn view(&self) -> PayloadEntryV {
        PayloadEntryV { key: self.key@, value: self.value@ }
    }
}

impl DeepView for PayloadEntry {
    type V = PayloadEntryV;

    open spec fn deep_view(&self) -> PayloadEntryV {
        self.view()
    }
}

impl View for MetaField {
    type V = MetaFieldV;

    open spec fn view(&self) -> MetaFieldV {
        MetaFieldV { name: self.name@, value: self.value@ }
    }
}

impl DeepView for MetaField {
    type V = MetaFieldV;

    open spec fn deep_view(&self) -> MetaFieldV {
        self.view()
    }
}

impl View for Document {
    type V = DocumentV;

    open spec fn view(&self) -> DocumentV {
        DocumentV { text: self.text@, metadata: self.metadata.deep_view() }
    }
}

impl DeepView for Document {
    type V = DocumentV;

    open spec fn deep_view(&self) -> DocumentV {
        self.view()
    }
}

impl Clone for PayloadValue {
    fn clone(&self) -> (res: Self)
        ensures
            res@ == self@,
    {
        match self {
            PayloadValue::Text(s) => PayloadValue::Text(s.clone()),
            PayloadValue::Int(i) => PayloadValue::Int(*i),
            PayloadValue::Flag(b) => PayloadValue::Flag(*b),
        }
    }
}

impl Clone for PayloadEntry {
    fn clone(&self) -> (res: Self)
        ensures
            res@ == self@,
    {
        PayloadEntry { key: self.key.clone(), value: self.value.clone() }
    }
}

/// Whether a metadata value can be represented as a payload scalar.
pub open spec fn encodable(m: MetaValueV) -> bool {
    !(m is TextList)
}

/// The payload scalar an encodable metadata value is represented as.
pub open spec fn encoded(m: MetaValueV) -> PayloadValueV {
    match m {
        MetaValueV::Text(s) => PayloadValueV::Text(s),
        MetaValueV::Int(i) => PayloadValueV::Int(i),
        MetaValueV::Flag(b) => PayloadValueV::Flag(b),
        // never consulted: a text list is not encodable
        MetaValueV::TextList(l) => PayloadValueV::Int(0),
    }
}

/// The index of the first metadata field whose value is not encodable, or -1
/// if every field is.
pub open spec fn first_unencodable(metadata: Seq<MetaFieldV>) -> int
    decreases metadata.len(),
{
    if metadata.len() == 0 {
        -1
    } else if !encodable(metadata[0].value) {
        0
    } else {
        let r = first_unencodable(metadata.drop_first());
        if r < 0 {
            -1
        } else {
            r + 1
        }
    }
}

/// The payload derived from a document: the document text under the key
/// `document`, then each metadata field in order, encoded.
pub open spec fn payload_for(doc: DocumentV, payload: Seq<PayloadEntryV>) -> bool {
    &&& payload.len() == 1 + doc.metadata.len()
    &&& payload[0].key == "document"@
    &&& payload[0].value == PayloadValueV::Text(doc.text)
    &&& forall|i: int|
        0 <= i < doc.metadata.len() ==> {
            &&& (#[trigger] payload[i + 1]).key == doc.metadata[i].name
            &&& payload[i + 1].value == encoded(doc.metadata[i].value)
        }
}

/// Round-trip: any payload derived from a document carries the document's
/// text back, exactly, as the value of its first entry, under the stable key
/// `document`.
pub proof fn lemma_round_trip_payload(doc: DocumentV, payload: Seq<PayloadEntryV>)
    requires
        payload_for(doc, payload),
    ensures
        payload.len() >= 1,
        payload[0].key == "document"@,
        payload[0].value == PayloadValueV::Text(doc.text),
{
}

/// Encode one metadata value as a payload scalar, or name no scalar for it.
pub fn encode_meta_value(m: &MetaValue) -> (r: Option<PayloadValue>)
    ensures
        r matches Some(v) ==> encodable(m@) && v@ == encoded(m@),
        r is None <==> !encodable(m@),
{
    match m {
        MetaValue::Text(s) => Some(PayloadValue::Text(s.clone())),
        MetaValue::Int(i) => Some(PayloadValue::Int(*i)),
        MetaValue::Flag(b) => Some(PayloadValue::Flag(*b)),
        MetaValue::TextList(_) => None,
    }
}

/// Build the payload for a document: the text under the key `document`, then
/// every metadata field in order. Fails exactly when some metadata value is
/// not a payload scalar, naming the first offending field.
pub fn build_payload(doc: &Document) -> (r: Result<Vec<PayloadEntry>, PipelineError>)
    ensures
        r matches Ok(p) ==> {
            &&& first_unencodable(doc@.metadata) == -1
            &&& payload_for(doc@, p.deep_view())
        },
        r matches Err(e) ==> {
            &&& first_unencodable(doc@.metadata) >= 0
            &&& e matches PipelineError::PayloadEncoding { field } && field@
                == doc@.metadata[first_unencodable(doc@.metadata)].name
        },
{
    let mut payload: Vec<PayloadEntry> = Vec::new();
    payload.push(
        PayloadEntry { key: document_key(), value: PayloadValue::Text(doc.text.clone()) },
    );
    let mut i: usize = 0;
    while i < doc.metadata.len()
        invariant
            0 <= i <= doc.metadata.len(),
            payload@.len() == 1 + i,
            payload@[0]@.key == "document"@,
            payload@[0]@.value == PayloadValueV::Text(doc.text@),
            forall|k: int|
                0 <= k < i ==> {
                    &&& (#[trigger] payload@[k + 1])@.key == doc.metadata@[k]@.name
                    &&& payload@[k + 1]@.value == encoded(doc.metadata@[k]@.value)
                },
            forall|k: int| 0 <= k < i ==> encodable((#[trigger] doc.metadata@[k])@.value),
        decreases doc.metadata.len() - i,
    {
        let field = &doc.metadata[i];
        match encode_meta_value(&field.value) {
            Some(v) => {
                payload.push(PayloadEntry { key: field.name.clone(), value: v });
            },
            None => {
                proof {
                    assert forall|k: int| 0 <= k < i as int implies encodable(
                        (#[trigger] doc@.metadata[k]).value,
                    ) by {
                        assert(doc@.metadata[k] == doc.metadata@[k]@);
                    }
                    assert(doc@.metadata[i as int] == doc.metadata@[i as int]@);
                    lemma_first_unencodable_is(doc@.metadata, i as int);
                }
                return Err(PipelineError::PayloadEncoding { field: field.name.clone() });
            },
        }
        i = i + 1;
    }
    proof {
        assert forall|k: int| 0 <= k < doc@.metadata.len() implies encodable(
            (#[trigger] doc@.metadata[k]).value,
        ) by {
            assert(doc@.metadata[k] == doc.metadata@[k]@);
        }
        lemma_first_unencodable_absent(doc@.metadata);
        assert(payload.deep_view()[0] == payload@[0]@);
        assert forall|k: int| 0 <= k < doc@.metadata.len() implies {
            &&& (#[trigger] payload.deep_view()[k + 1]).key == doc@.metadata[k].name
            &&& payload.deep_view()[k + 1].value == encoded(doc@.metadata[k].value)
        } by {
            assert(payload.deep_view()[k + 1] == payload@[k + 1]@);
            assert(doc@.metadata[k] == doc.metadata@[k]@);
        }
    }
    Ok(payload)
}

/// If every field before `j` encodes and field `j` does not, then `j` is the
/// first unencodable index.
proof fn lemma_first_unencodable_is(metadata: Seq<MetaFieldV>, j: int)
    requires
        0 <= j < metadata.len(),
        !encodable(metadata[j].value),
        forall|k: int| 0 <= k < j ==> encodable(#[trigger] metadata[k].value),
    ensures
        first_unencodable(metadata) == j,
    decreases metadata.len(),
{
    if j > 0 {
        assert forall|k: int| 0 <= k < j - 1 implies encodable(
            #[trigger] metadata.drop_first()[k].value,
        ) by {
            assert(metadata.drop_first()[k] == metadata[k + 1]);
        }
        assert(metadata.drop_first()[j - 1] == metadata[j]);
        lemma_first_unencodable_is(metadata.drop_first(), j - 1);
    }
}

/// If every field encodes, no field is reported as unencodable.
proof fn lemma_first_unencodable_absent(metadata: Seq<MetaFieldV>)
    requires
        forall|k: int| 0 <= k < metadata.len() ==> encodable(#[trigger] metadata[k].value),
    ensures
        first_unencodable(metadata) == -1,
    decreases metadata.len(),
{
    if metadata.len() > 0 {
        assert forall|k: int| 0 <= k < metadata.len() - 1 implies encodable(
            #[trigger] metadata.drop_first()[k].value,
        ) by {
            assert(metadata.drop_first()[k] == metadata[k + 1]);
        }
        lemma_first_unencodable_absent(metadata.drop_first());
    }
}

/// The stable payload key the document text is stored under.
pub fn document_key() -> (r: String)
    ensures
        r@ == "document"@,
{
    let r = "document";
    r.to_owned()
}

/// Copy a payload entry by entry.
pub fn clone_payload(payload: &Vec<PayloadEntry>) -> (r: Vec<PayloadEntry>)
    ensures
        r.deep_view() == payload.deep_view(),
{
    let mut out: Vec<PayloadEntry> = Vec::new();
    let mut i: usize = 0;
    while i < payload.len()
        invariant
            0 <= i <= payload.len(),
            out@.len() == i,
            forall|k: int| 0 <= k < i ==> (#[trigger] out@[k])@ == payload@[k]@,
        decreases payload.len() - i,
    {
        out.push(payload[i].clone());
        i = i + 1;
    }
    proof {
        assert forall|k: int| 0 <= k < out@.len() implies #[trigger] out.deep_view()[k]
            == payload.deep_view()[k] by {
            assert(out.deep_view()[k] == out@[k]@);
            assert(payload.deep_view()[k] == payload@[k]@);
        }
        assert(out.deep_view() =~= payload.deep_view());
    }
    out
}

/// Look a key up in a payload: the value of the first entry with that key.
pub fn payload_get<'a>(payload: &'a Vec<PayloadEntry>, key: &String) -> (r: Option<
    &'a PayloadValue,
>)
    ensures
        r matches Some(v) ==> exists|i: int|
            0 <= i < payload.deep_view().len() && (#[trigger] payload.deep_view()[i]).key == key@
                && v@ == payload.deep_view()[i].value,
        r is None ==> forall|i: int|
            0 <= i < payload.deep_view().len() ==> (#[trigger] payload.deep_view()[i]).key != key@,
{
    let mut i: usize = 0;
    while i < payload.len()
        invariant
            0 <= i <= payload.len(),
            forall|k: int| 0 <= k < i ==> (#[trigger] payload@[k])@.key != key@,
        decreases payload.len() - i,
    {
        if payload[i].key == *key {
            proof {
                assert(payload.deep_view()[i as int] == payload@[i as int]@);
            }
            return Some(&payload[i].value);
        }
        i = i + 1;
    }
    proof {
        assert forall|k: int| 0 <= k < payload.deep_view().len() implies (
        #[trigger] payload.deep_view()[k]).key != key@ by {
            assert(payload.deep_view()[k] == payload@[k]@);
        }
    }
    None
}

} // verus!
