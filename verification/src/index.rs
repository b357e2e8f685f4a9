//! A model of the index service's observable state: named, schema-fixed
//! collections of records, with idempotent creation, idempotent bulk upsert
//! keyed by record identity, and similarity queries.
//!
//! The live service ranks matches by the collection's distance metric over
//! real-valued vectors, which this model cannot compute. It realises the one
//! ranking fact the pipeline's self-check relies on: a stored vector that is
//! bitwise equal to the query vector is most similar to it, and comes first.
//! All other points follow in insertion order, unscored.
use vstd::prelude::*;
use vstd::pervasive::VecAdditionalExecFns;

use crate::document::PayloadEntry;
use crate::document::clone_payload;
use crate::document::PayloadEntryV;
use crate::embedding::Embedding;
use crate::embedding::bits_equal;
use crate::errors::CollectionSchema;
use crate::errors::CollectionState;
use crate::errors::DistanceMetric;
use crate::errors::PipelineError;
use crate::record::Record;
use crate::record::RecordV;

verus! {

broadcast use crate::views::lemma_vec_deep_view_len, crate::views::lemma_vec_deep_view_index;

/// One ranked result of a similarity query.
#[derive(Debug)]
pub struct SearchMatch {
    pub id: String,
    /// Bit pattern of the score the live service reported. The model does
    /// not score and sets it to zero.
    pub score_bits: u32,
    pub payload: Vec<PayloadEntry>,
}

/// Mathematical model of one query result.
#[verifier::ext_equal]
pub ghost struct SearchMatchV {
    pub id: Seq<char>,
    pub score_bits: u32,
    pub payload: Seq<PayloadEntryV>,
}

impl View for SearchMatch {
    type V = SearchMatchV;

    open spec fn view(&self) -> SearchMatchV {
        SearchMatchV {
            id: self.id@,
            score_bits: self.score_bits,
            payload: self.payload.deep_view(),
        }
    }
}

impl DeepView for SearchMatch {
    type V = SearchMatchV;

    open spec fn deep_view(&self) -> SearchMatchV {
        self.view()
    }
}

/// A named collection with its fixed schema and its stored points.
#[derive(Debug)]
pub struct Collection {
    pub name: String,
    pub schema: CollectionSchema,
    pub points: Vec<Record>,
}

/// Mathematical model of a collection.
#[verifier::ext_equal]
pub ghost struct CollectionV {
    pub name: Seq<char>,
    pub schema: CollectionSchema,
    pub points: Seq<RecordV>,
}

impl View for Collection {
    type V = CollectionV;

    open spec fn view(&self) -> CollectionV {
        CollectionV { name: self.name@, schema: self.schema, points: self.points.deep_view() }
    }
}

impl DeepView for Collection {
    type V = CollectionV;

    open spec fn deep_view(&self) -> CollectionV {
        self.view()
    }
}

/// The index service's observable state: its collections, in creation order.
#[derive(Debug)]
pub struct VectorIndex {
    pub collections: Vec<Collection>,
}

impl View for VectorIndex {
    type V = Seq<CollectionV>;

    open spec fn view(&self) -> Seq<CollectionV> {
        self.collections.deep_view()
    }
}

/// The index of the first collection with this name, or -1 if none.
pub open spec fn find_collection(cols: Seq<CollectionV>, name: Seq<char>) -> int
    decreases cols.len(),
{
    if cols.len() == 0 {
        -1
    } else if cols[0].name == name {
        0
    } else {
        let r = find_collection(cols.drop_first(), name);
        if r < 0 {
            -1
        } else {
            r + 1
        }
    }
}

/// The index of the first point with this identity, or -1 if none.
pub open spec fn find_point(points: Seq<RecordV>, id: Seq<char>) -> int
    decreases points.len(),
{
    if points.len() == 0 {
        -1
    } else if points[0].id == id {
        0
    } else {
        let r = find_point(points.drop_first(), id);
        if r < 0 {
            -1
        } else {
            r + 1
        }
    }
}

/// The index of the first point whose vector is bitwise equal, or -1 if none.
pub open spec fn find_vector(points: Seq<RecordV>, v: Seq<u32>) -> int
    decreases points.len(),
{
    if points.len() == 0 {
        -1
    } else if points[0].vector == v {
        0
    } else {
        let r = find_vector(points.drop_first(), v);
        if r < 0 {
            -1
        } else {
            r + 1
        }
    }
}

/// If `j` is a match and nothing before it is, `find_collection` finds `j`.
pub proof fn lemma_find_collection_is(cols: Seq<CollectionV>, name: Seq<char>, j: int)
    requires
        0 <= j < cols.len(),
        cols[j].name == name,
        forall|k: int| 0 <= k < j ==> (#[trigger] cols[k]).name != name,
    ensures
        find_collection(cols, name) == j,
    decreases cols.len(),
{
    if j > 0 {
        assert forall|k: int| 0 <= k < j - 1 implies (#[trigger] cols.drop_first()[k]).name
            != name by {
            assert(cols.drop_first()[k] == cols[k + 1]);
        }
        assert(cols.drop_first()[j - 1] == cols[j]);
        lemma_find_collection_is(cols.drop_first(), name, j - 1);
    }
}

/// If nothing matches, `find_collection` finds nothing.
pub proof fn lemma_find_collection_absent(cols: Seq<CollectionV>, name: Seq<char>)
    requires
        forall|k: int| 0 <= k < cols.len() ==> (#[trigger] cols[k]).name != name,
    ensures
        find_collection(cols, name) == -1,
    decreases cols.len(),
{
    if cols.len() > 0 {
        assert forall|k: int| 0 <= k < cols.len() - 1 implies (
        #[trigger] cols.drop_first()[k]).name != name by {
            assert(cols.drop_first()[k] == cols[k + 1]);
        }
        lemma_find_collection_absent(cols.drop_first(), name);
    }
}

/// What `find_collection` returns: -1 and no match, or the first match.
pub proof fn lemma_find_collection(cols: Seq<CollectionV>, name: Seq<char>)
    ensures
        find_collection(cols, name) == -1 ==> forall|k: int|
            0 <= k < cols.len() ==> (#[trigger] cols[k]).name != name,
        find_collection(cols, name) >= 0 ==> {
            &&& find_collection(cols, name) < cols.len()
            &&& cols[find_collection(cols, name)].name == name
            &&& forall|k: int|
                0 <= k < find_collection(cols, name) ==> (#[trigger] cols[k]).name != name
        },
    decreases cols.len(),
{
    if cols.len() > 0 && cols[0].name != name {
        lemma_find_collection(cols.drop_first(), name);
        let r = find_collection(cols, name);
        if r == -1 {
            assert forall|k: int| 0 <= k < cols.len() implies (#[trigger] cols[k]).name != name by {
                if k > 0 {
                    assert(cols.drop_first()[k - 1] == cols[k]);
                }
            }
        } else {
            assert(cols.drop_first()[r - 1] == cols[r]);
            assert forall|k: int| 0 <= k < r implies (#[trigger] cols[k]).name != name by {
                if k > 0 {
                    assert(cols.drop_first()[k - 1] == cols[k]);
                }
            }
        }
    }
}

/// If `j` is a match and nothing before it is, `find_point` finds `j`.
pub proof fn lemma_find_point_is(points: Seq<RecordV>, id: Seq<char>, j: int)
    requires
        0 <= j < points.len(),
        points[j].id == id,
        forall|k: int| 0 <= k < j ==> (#[trigger] points[k]).id != id,
    ensures
        find_point(points, id) == j,
    decreases points.len(),
{
    if j > 0 {
        assert forall|k: int| 0 <= k < j - 1 implies (#[trigger] points.drop_first()[k]).id
            != id by {
            assert(points.drop_first()[k] == points[k + 1]);
        }
        assert(points.drop_first()[j - 1] == points[j]);
        lemma_find_point_is(points.drop_first(), id, j - 1);
    }
}

/// If nothing matches, `find_point` finds nothing.
pub proof fn lemma_find_point_absent(points: Seq<RecordV>, id: Seq<char>)
    requires
        forall|k: int| 0 <= k < points.len() ==> (#[trigger] points[k]).id != id,
    ensures
        find_point(points, id) == -1,
    decreases points.len(),
{
    if points.len() > 0 {
        assert forall|k: int| 0 <= k < points.len() - 1 implies (
        #[trigger] points.drop_first()[k]).id != id by {
            assert(points.drop_first()[k] == points[k + 1]);
        }
        lemma_find_point_absent(points.drop_first(), id);
    }
}

/// What `find_point` returns: -1 and no match, or the first match.
pub proof fn lemma_find_point(points: Seq<RecordV>, id: Seq<char>)
    ensures
        find_point(points, id) == -1 ==> forall|k: int|
            0 <= k < points.len() ==> (#[trigger] points[k]).id != id,
        find_point(points, id) >= 0 ==> {
            &&& find_point(points, id) < points.len()
            &&& points[find_point(points, id)].id == id
            &&& forall|k: int|
                0 <= k < find_point(points, id) ==> (#[trigger] points[k]).id != id
        },
    decreases points.len(),
{
    if points.len() > 0 && points[0].id != id {
        lemma_find_point(points.drop_first(), id);
        let r = find_point(points, id);
        if r == -1 {
            assert forall|k: int| 0 <= k < points.len() implies (#[trigger] points[k]).id != id by {
                if k > 0 {
                    assert(points.drop_first()[k - 1] == points[k]);
                }
            }
        } else {
            assert(points.drop_first()[r - 1] == points[r]);
            assert forall|k: int| 0 <= k < r implies (#[trigger] points[k]).id != id by {
                if k > 0 {
                    assert(points.drop_first()[k - 1] == points[k]);
                }
            }
        }
    }
}

/// If `j` is a match and nothing before it is, `find_vector` finds `j`.
pub proof fn lemma_find_vector_is(points: Seq<RecordV>, v: Seq<u32>, j: int)
    requires
        0 <= j < points.len(),
        points[j].vector == v,
        forall|k: int| 0 <= k < j ==> (#[trigger] points[k]).vector != v,
    ensures
        find_vector(points, v) == j,
    decreases points.len(),
{
    if j > 0 {
        assert forall|k: int| 0 <= k < j - 1 implies (#[trigger] points.drop_first()[k]).vector
            != v by {
            assert(points.drop_first()[k] == points[k + 1]);
        }
        assert(points.drop_first()[j - 1] == points[j]);
        lemma_find_vector_is(points.drop_first(), v, j - 1);
    }
}

/// If nothing matches, `find_vector` finds nothing.
pub proof fn lemma_find_vector_absent(points: Seq<RecordV>, v: Seq<u32>)
    requires
        forall|k: int| 0 <= k < points.len() ==> (#[trigger] points[k]).vector != v,
    ensures
        find_vector(points, v) == -1,
    decreases points.len(),
{
    if points.len() > 0 {
        assert forall|k: int| 0 <= k < points.len() - 1 implies (
        #[trigger] points.drop_first()[k]).vector != v by {
            assert(points.drop_first()[k] == points[k + 1]);
        }
        lemma_find_vector_absent(points.drop_first(), v);
    }
}

/// Idempotent creation, on the model: absent means create empty with the
/// requested schema, present with the same schema means succeed unchanged,
/// present with another schema means fail unchanged.
pub open spec fn spec_ensure_collection(
    cols: Seq<CollectionV>,
    name: Seq<char>,
    schema: CollectionSchema,
) -> (Seq<CollectionV>, Result<CollectionState, PipelineError>) {
    let j = find_collection(cols, name);
    if j < 0 {
        (
            cols.push(CollectionV { name, schema, points: Seq::empty() }),
            Ok(CollectionState::Created),
        )
    } else if cols[j].schema == schema {
        (cols, Ok(CollectionState::AlreadyExists))
    } else {
        (cols, Err(PipelineError::SchemaMismatch { expected: schema, actual: cols[j].schema }))
    }
}

impl VectorIndex {
    /// An index with no collections.
    pub fn new() -> (r: VectorIndex)
        ensures
            r@ == Seq::<CollectionV>::empty(),
    {
        let r = VectorIndex { collections: Vec::new() };
        proof {
            assert(r@ =~= Seq::<CollectionV>::empty());
        }
        r
    }

    /// The index of the first collection with this name, if any.
    fn find_collection_index(&self, name: &String) -> (r: Option<usize>)
        ensures
            r matches Some(j) ==> find_collection(self@, name@) == j && (j as int)
                < self.collections@.len(),
            r is None ==> find_collection(self@, name@) == -1,
    {
        let mut i: usize = 0;
        while i < self.collections.len()
            invariant
                0 <= i <= self.collections.len(),
                forall|k: int| 0 <= k < i ==> (#[trigger] self.collections@[k])@.name != name@,
            decreases self.collections.len() - i,
        {
            if self.collections[i].name == *name {
                proof {
                    assert forall|k: int| 0 <= k < i as int implies (#[trigger] self@[k]).name
                        != name@ by {
                        assert(self@[k] == self.collections@[k]@);
                    }
                    assert(self@[i as int] == self.collections@[i as int]@);
                    lemma_find_collection_is(self@, name@, i as int);
                }
                return Some(i);
            }
            i = i + 1;
        }
        proof {
            assert forall|k: int| 0 <= k < self@.len() implies (#[trigger] self@[k]).name
                != name@ by {
                assert(self@[k] == self.collections@[k]@);
            }
            lemma_find_collection_absent(self@, name@);
        }
        None
    }

    /// Whether a collection with this name exists.
    pub fn collection_exists(&self, name: &String) -> (r: bool)
        ensures
            r == (find_collection(self@, name@) >= 0),
    {
        self.find_collection_index(name).is_some()
    }

    /// Ensure the collection exists with this schema: create it once, accept
    /// it if it already exists with the same schema, and fail without any
    /// change if it exists with a conflicting one.
    pub fn ensure_collection(
        &mut self,
        name: &String,
        dimension: usize,
        metric: DistanceMetric,
    ) -> (r: Result<CollectionState, PipelineError>)
        ensures
            final(self)@ == spec_ensure_collection(
                old(self)@,
                name@,
                CollectionSchema { dimension, metric },
            ).0,
            r == spec_ensure_collection(
                old(self)@,
                name@,
                CollectionSchema { dimension, metric },
            ).1,
    {
        let schema = CollectionSchema { dimension, metric };
        match self.find_collection_index(name) {
            None => {
                let ghost pre = self@;
                self.collections.push(
                    Collection { name: name.clone(), schema, points: Vec::new() },
                );
                proof {
                    let target = pre.push(
                        CollectionV { name: name@, schema, points: Seq::empty() },
                    );
                    assert forall|k: int| 0 <= k < self@.len() implies #[trigger] self@[k]
                        == target[k] by {
                        assert(self@[k] == self.collections@[k]@);
                        if k < pre.len() {
                            assert(pre[k] == old(self).collections@[k]@);
                        } else {
                            assert(self.collections@[k]@.points =~= Seq::<RecordV>::empty());
                        }
                    }
                    assert(self@ =~= target);
                }
                Ok(CollectionState::Created)
            },
            Some(j) => {
                if self.collections[j].schema == schema {
                    proof {
                        assert(self@[j as int] == self.collections@[j as int]@);
                    }
                    Ok(CollectionState::AlreadyExists)
                } else {
                    proof {
                        assert(self@[j as int] == self.collections@[j as int]@);
                    }
                    Err(
                        PipelineError::SchemaMismatch {
                            expected: schema,
                            actual: self.collections[j].schema,
                        },
                    )
                }
            },
        }
    }
}

/// Insert-or-replace one record, keyed by its identity.
pub open spec fn upsert_point(points: Seq<RecordV>, r: RecordV) -> Seq<RecordV> {
    let j = find_point(points, r.id);
    if j < 0 {
        points.push(r)
    } else {
        points.update(j, r)
    }
}

/// Apply a batch of upserts, in order.
pub open spec fn upsert_batch(points: Seq<RecordV>, records: Seq<RecordV>) -> Seq<RecordV>
    decreases records.len(),
{
    if records.len() == 0 {
        points
    } else {
        upsert_point(upsert_batch(points, records.drop_last()), records.last())
    }
}

/// The first record whose vector does not have this dimension, or -1.
pub open spec fn first_dim_violation(records: Seq<RecordV>, dimension: nat) -> int
    decreases records.len(),
{
    if records.len() == 0 {
        -1
    } else if records[0].vector.len() != dimension {
        0
    } else {
        let r = first_dim_violation(records.drop_first(), dimension);
        if r < 0 {
            -1
        } else {
            r + 1
        }
    }
}

/// If `j` violates the dimension and nothing before it does,
/// `first_dim_violation` finds `j`.
pub proof fn lemma_first_dim_violation_is(records: Seq<RecordV>, dimension: nat, j: int)
    requires
        0 <= j < records.len(),
        records[j].vector.len() != dimension,
        forall|k: int| 0 <= k < j ==> (#[trigger] records[k]).vector.len() == dimension,
    ensures
        first_dim_violation(records, dimension) == j,
    decreases records.len(),
{
    if j > 0 {
        assert forall|k: int| 0 <= k < j - 1 implies (
        #[trigger] records.drop_first()[k]).vector.len() == dimension by {
            assert(records.drop_first()[k] == records[k + 1]);
        }
        assert(records.drop_first()[j - 1] == records[j]);
        lemma_first_dim_violation_is(records.drop_first(), dimension, j - 1);
    }
}

/// If every record fits the dimension, no violation is reported.
pub proof fn lemma_first_dim_violation_absent(records: Seq<RecordV>, dimension: nat)
    requires
        forall|k: int| 0 <= k < records.len() ==> (#[trigger] records[k]).vector.len()
            == dimension,
    ensures
        first_dim_violation(records, dimension) == -1,
    decreases records.len(),
{
    if records.len() > 0 {
        assert forall|k: int| 0 <= k < records.len() - 1 implies (
        #[trigger] records.drop_first()[k]).vector.len() == dimension by {
            assert(records.drop_first()[k] == records[k + 1]);
        }
        lemma_first_dim_violation_absent(records.drop_first(), dimension);
    }
}

/// What `first_dim_violation` finds: -1 and every vector fits, or the first
/// that does not.
pub proof fn lemma_first_dim_violation(records: Seq<RecordV>, dimension: nat)
    ensures
        first_dim_violation(records, dimension) == -1 ==> forall|k: int|
            0 <= k < records.len() ==> (#[trigger] records[k]).vector.len() == dimension,
        first_dim_violation(records, dimension) >= 0 ==> {
            &&& first_dim_violation(records, dimension) < records.len()
            &&& records[first_dim_violation(records, dimension)].vector.len() != dimension
        },
    decreases records.len(),
{
    if records.len() > 0 && records[0].vector.len() == dimension {
        lemma_first_dim_violation(records.drop_first(), dimension);
        let r = first_dim_violation(records, dimension);
        if r == -1 {
            assert forall|k: int| 0 <= k < records.len() implies (
            #[trigger] records[k]).vector.len() == dimension by {
                if k > 0 {
                    assert(records.drop_first()[k - 1] == records[k]);
                }
            }
        } else {
            assert(records.drop_first()[r - 1] == records[r]);
        }
    }
}

/// `find_collection` looks only at names: two states with pointwise equal
/// names are searched alike.
pub proof fn lemma_find_collection_same_names(
    a: Seq<CollectionV>,
    b: Seq<CollectionV>,
    name: Seq<char>,
)
    requires
        a.len() == b.len(),
        forall|k: int| 0 <= k < a.len() ==> (#[trigger] a[k]).name == b[k].name,
    ensures
        find_collection(a, name) == find_collection(b, name),
    decreases a.len(),
{
    if a.len() > 0 {
        assert(a[0].name == b[0].name);
        assert forall|k: int| 0 <= k < a.len() - 1 implies (#[trigger] a.drop_first()[k]).name
            == b.drop_first()[k].name by {
            assert(a.drop_first()[k] == a[k + 1]);
            assert(b.drop_first()[k] == b[k + 1]);
        }
        lemma_find_collection_same_names(a.drop_first(), b.drop_first(), name);
    }
}

/// Bulk upsert on the model: it fails unchanged when the collection is
/// missing, fails unchanged on the first vector that does not fit the
/// collection's dimension, and otherwise applies every record in order,
/// keyed by identity.
pub open spec fn spec_upsert(
    cols: Seq<CollectionV>,
    name: Seq<char>,
    records: Seq<RecordV>,
) -> (Seq<CollectionV>, Result<(), PipelineError>) {
    let j = find_collection(cols, name);
    if j < 0 {
        (cols, Err(PipelineError::IndexWrite))
    } else {
        let b = first_dim_violation(records, cols[j].schema.dimension as nat);
        if b >= 0 {
            (
                cols,
                Err(
                    PipelineError::SchemaMismatch {
                        expected: cols[j].schema,
                        actual: CollectionSchema {
                            dimension: records[b].vector.len() as usize,
                            metric: cols[j].schema.metric,
                        },
                    },
                ),
            )
        } else {
            (
                cols.update(
                    j,
                    CollectionV {
                        name: cols[j].name,
                        schema: cols[j].schema,
                        points: upsert_batch(cols[j].points, records),
                    },
                ),
                Ok(()),
            )
        }
    }
}

/// Insert-or-replace one record in a point vector, keyed by its identity.
fn upsert_one_into(points: &mut Vec<Record>, rec: Record)
    ensures
        final(points).deep_view() == upsert_point(old(points).deep_view(), rec@),
{
    let ghost recv = rec@;
    let mut i: usize = 0;
    while i < points.len()
        invariant
            0 <= i <= points@.len(),
            points@ == old(points)@,
            rec@ == recv,
            forall|k: int| 0 <= k < i ==> (#[trigger] points@[k])@.id != recv.id,
        decreases points@.len() - i,
    {
        if points[i].id == rec.id {
            let ghost pre = *points;
            points.set(i, rec);
            proof {
                assert forall|k: int| 0 <= k < i as int implies (
                #[trigger] pre.deep_view()[k]).id != recv.id by {
                    assert(pre.deep_view()[k] == pre@[k]@);
                }
                assert(pre.deep_view()[i as int] == pre@[i as int]@);
                lemma_find_point_is(pre.deep_view(), recv.id, i as int);
                assert forall|k: int| 0 <= k < points@.len() implies #[trigger] points.deep_view()[k]
                    == upsert_point(pre.deep_view(), recv)[k] by {
                    assert(points.deep_view()[k] == points@[k]@);
                    if k != i as int {
                        assert(pre.deep_view()[k] == pre@[k]@);
                    }
                }
                assert(points.deep_view() =~= upsert_point(pre.deep_view(), recv));
            }
            return;
        }
        i = i + 1;
    }
    let ghost pre = *points;
    proof {
        assert forall|k: int| 0 <= k < pre@.len() implies (#[trigger] pre.deep_view()[k]).id
            != recv.id by {
            assert(pre.deep_view()[k] == pre@[k]@);
        }
        lemma_find_point_absent(pre.deep_view(), recv.id);
    }
    points.push(rec);
    proof {
        assert forall|k: int| 0 <= k < points@.len() implies #[trigger] points.deep_view()[k]
            == upsert_point(pre.deep_view(), recv)[k] by {
            assert(points.deep_view()[k] == points@[k]@);
            if k < pre@.len() {
                assert(pre.deep_view()[k] == pre@[k]@);
            }
        }
        assert(points.deep_view() =~= upsert_point(pre.deep_view(), recv));
    }
}

impl VectorIndex {
    /// Submit a batch of records to a collection as one idempotent bulk
    /// upsert: every vector is validated against the collection's dimension
    /// before anything is written, and each record then inserts or replaces
    /// the point with its identity.
    pub fn upsert_points(&mut self, name: &String, records: Vec<Record>) -> (r: Result<
        (),
        PipelineError,
    >)
        ensures
            final(self)@ == spec_upsert(old(self)@, name@, records.deep_view()).0,
            r == spec_upsert(old(self)@, name@, records.deep_view()).1,
    {
        let ghost recsv = records.deep_view();
        let j = match self.find_collection_index(name) {
            None => {
                return Err(PipelineError::IndexWrite);
            },
            Some(j) => j,
        };
        let dimension = self.collections[j].schema.dimension;
        proof {
            assert(self@[j as int] == self.collections@[j as int]@);
        }
        let mut b: usize = 0;
        while b < records.len()
            invariant
                0 <= b <= records@.len(),
                records.deep_view() == recsv,
                *self == *old(self),
                (j as int) < self.collections@.len(),
                find_collection(self@, name@) == j,
                dimension == self@[j as int].schema.dimension,
                forall|k: int| 0 <= k < b ==> (#[trigger] recsv[k]).vector.len() == dimension,
            decreases records@.len() - b,
        {
            let dlen = records[b].vector.dim();
            if dlen != dimension {
                proof {
                    assert forall|k: int| 0 <= k < b as int implies (
                    #[trigger] recsv[k]).vector.len() == dimension by {}
                    assert(recsv[b as int] == records@[b as int]@);
                    lemma_first_dim_violation_is(recsv, dimension as nat, b as int);
                }
                return Err(
                    PipelineError::SchemaMismatch {
                        expected: self.collections[j].schema,
                        actual: CollectionSchema {
                            dimension: dlen,
                            metric: self.collections[j].schema.metric,
                        },
                    },
                );
            }
            proof {
                assert(recsv[b as int] == records@[b as int]@);
            }
            b = b + 1;
        }
        proof {
            lemma_first_dim_violation_absent(recsv, dimension as nat);
        }
        let ghost precols = self.collections;
        let mut col = self.collections.remove(j);
        let ghost colv = col@;
        proof {
            assert(colv == precols.deep_view()[j as int]);
        }
        let mut t: usize = 0;
        while t < records.len()
            invariant
                0 <= t <= records@.len(),
                records.deep_view() == recsv,
                col.name@ == colv.name,
                col.schema == colv.schema,
                col.points.deep_view() == upsert_batch(colv.points, recsv.take(t as int)),
                self.collections@ == precols@.remove(j as int),
                (j as int) <= precols@.len() - 1,
            decreases records@.len() - t,
        {
            let rec = records[t].clone();
            proof {
                assert(rec@ == records@[t as int]@);
                assert(recsv[t as int] == records@[t as int]@);
            }
            upsert_one_into(&mut col.points, rec);
            proof {
                assert(recsv.take(t as int + 1).drop_last() =~= recsv.take(t as int));
                assert(recsv.take(t as int + 1).last() == recsv[t as int]);
            }
            t = t + 1;
        }
        proof {
            assert(recsv.take(records@.len() as int) =~= recsv);
        }
        self.collections.insert(j, col);
        proof {
            let target = spec_upsert(precols.deep_view(), name@, recsv).0;
            assert(target == precols.deep_view().update(
                j as int,
                CollectionV {
                    name: colv.name,
                    schema: colv.schema,
                    points: upsert_batch(colv.points, recsv),
                },
            ));
            assert forall|k: int| 0 <= k < self@.len() implies #[trigger] self@[k] =~~= target[k] by {
                assert(self@[k] == self.collections@[k]@);
                if k < j as int {
                    assert(self.collections@[k] == precols@[k]);
                    assert(precols.deep_view()[k] == precols@[k]@);
                } else if k == j as int {
                } else {
                    assert(self.collections@[k] == precols@[k]);
                    assert(precols.deep_view()[k] == precols@[k]@);
                }
            }
            assert(self@ =~~= target);
        }
        Ok(())
    }
}

/// Whether every identity occurs at most once.
pub open spec fn unique_ids(points: Seq<RecordV>) -> bool {
    forall|i: int, k: int|
        0 <= i < k < points.len() ==> (#[trigger] points[i]).id != (#[trigger] points[k]).id
}

/// Upsert idempotency: one upsert stores the record exactly once at its
/// identity, with the vector and payload of the most recent write, and
/// repeating the same upsert changes nothing.
pub proof fn lemma_upsert_idempotent(points: Seq<RecordV>, r: RecordV)
    requires
        unique_ids(points),
    ensures
        ({
            let once = upsert_point(points, r);
            &&& unique_ids(once)
            &&& 0 <= find_point(once, r.id) < once.len()
            &&& once[find_point(once, r.id)] == r
            &&& forall|k: int|
                0 <= k < once.len() && k != find_point(once, r.id) ==> (#[trigger] once[k]).id
                    != r.id
            &&& upsert_point(once, r) == once
        }),
{
    lemma_find_point(points, r.id);
    let j = find_point(points, r.id);
    let once = upsert_point(points, r);
    if j < 0 {
        let n = points.len() as int;
        assert forall|k: int| 0 <= k < n implies (#[trigger] once[k]).id != r.id by {
            assert(once[k] == points[k]);
        }
        lemma_find_point_is(once, r.id, n);
        assert(upsert_point(once, r) =~= once);
    } else {
        assert forall|k: int| 0 <= k < j implies (#[trigger] once[k]).id != r.id by {
            assert(once[k] == points[k]);
        }
        lemma_find_point_is(once, r.id, j);
        assert forall|k: int| 0 <= k < once.len() && k != j implies (#[trigger] once[k]).id
            != r.id by {
            assert(once[k] == points[k]);
            if k > j {
                assert(points[j].id != points[k].id);
            }
        }
        assert(upsert_point(once, r) =~= once);
    }
}

/// The order the model returns stored points in: a point whose vector is
/// bitwise equal to the query vector first, then the rest in insertion
/// order. This is the one ranking fact the pipeline's self-check relies on:
/// under the collection's metric, a vector is most similar to itself.
pub open spec fn ranked(points: Seq<RecordV>, v: Seq<u32>) -> Seq<RecordV> {
    let j = find_vector(points, v);
    if j < 0 {
        points
    } else {
        seq![points[j]] + points.take(j) + points.skip(j + 1)
    }
}

/// The result a stored point is reported as: its identity, an unscored
/// score slot, and its payload if payloads were requested.
pub open spec fn match_of(r: RecordV, include_payload: bool) -> SearchMatchV {
    SearchMatchV {
        id: r.id,
        score_bits: 0,
        payload: if include_payload {
            r.payload
        } else {
            Seq::empty()
        },
    }
}

/// Similarity query on the model: fails when the collection is missing or
/// the query vector does not fit its dimension; otherwise reports the first
/// `top_k` ranked points, or all of them if fewer exist.
pub open spec fn spec_query(
    cols: Seq<CollectionV>,
    name: Seq<char>,
    v: Seq<u32>,
    top_k: nat,
    include_payload: bool,
) -> Result<Seq<SearchMatchV>, PipelineError> {
    let j = find_collection(cols, name);
    if j < 0 {
        Err(PipelineError::IndexQuery)
    } else if v.len() != cols[j].schema.dimension {
        Err(
            PipelineError::SchemaMismatch {
                expected: cols[j].schema,
                actual: CollectionSchema {
                    dimension: v.len() as usize,
                    metric: cols[j].schema.metric,
                },
            },
        )
    } else {
        let n = if top_k < cols[j].points.len() {
            top_k as int
        } else {
            cols[j].points.len() as int
        };
        Ok(ranked(cols[j].points, v).take(n).map_values(|r: RecordV| match_of(r, include_payload)))
    }
}

/// The index of the first stored point whose vector is bitwise equal, if any.
fn find_vector_index(points: &Vec<Record>, v: &Vec<u32>) -> (r: Option<usize>)
    ensures
        r matches Some(j) ==> find_vector(points.deep_view(), v@) == j && (j as int)
            < points@.len(),
        r is None ==> find_vector(points.deep_view(), v@) == -1,
{
    let mut i: usize = 0;
    while i < points.len()
        invariant
            0 <= i <= points@.len(),
            forall|k: int| 0 <= k < i ==> (#[trigger] points@[k])@.vector != v@,
        decreases points@.len() - i,
    {
        if bits_equal(&points[i].vector.bits, v) {
            proof {
                assert forall|k: int| 0 <= k < i as int implies (
                #[trigger] points.deep_view()[k]).vector != v@ by {
                    assert(points.deep_view()[k] == points@[k]@);
                }
                assert(points.deep_view()[i as int] == points@[i as int]@);
                lemma_find_vector_is(points.deep_view(), v@, i as int);
            }
            return Some(i);
        }
        i = i + 1;
    }
    proof {
        assert forall|k: int| 0 <= k < points@.len() implies (
        #[trigger] points.deep_view()[k]).vector != v@ by {
            assert(points.deep_view()[k] == points@[k]@);
        }
        lemma_find_vector_absent(points.deep_view(), v@);
    }
    None
}

/// Report one stored point as a query result.
fn make_match(rec: &Record, include_payload: bool) -> (m: SearchMatch)
    ensures
        m@ == match_of(rec@, include_payload),
{
    let payload: Vec<PayloadEntry> = if include_payload {
        clone_payload(&rec.payload)
    } else {
        Vec::new()
    };
    let m = SearchMatch { id: rec.id.clone(), score_bits: 0, payload };
    proof {
        assert(m@.payload =~= match_of(rec@, include_payload).payload);
        assert(m@ =~~= match_of(rec@, include_payload));
    }
    m
}

impl VectorIndex {
    /// Run a similarity query against a collection: the ranked matches, at
    /// most `top_k` of them, with payloads if requested. The caller asks for
    /// at least one result; asking for more results than stored points
    /// returns all of them.
    pub fn query_points(
        &self,
        name: &String,
        vector: &Embedding,
        top_k: usize,
        include_payload: bool,
    ) -> (r: Result<Vec<SearchMatch>, PipelineError>)
        requires
            top_k >= 1,
        ensures
            r matches Ok(ms) ==> spec_query(self@, name@, vector@, top_k as nat, include_payload)
                == Ok::<Seq<SearchMatchV>, PipelineError>(ms.deep_view()),
            r matches Err(e) ==> spec_query(self@, name@, vector@, top_k as nat, include_payload)
                == Err::<Seq<SearchMatchV>, PipelineError>(e),
    {
        let j = match self.find_collection_index(name) {
            None => {
                return Err(PipelineError::IndexQuery);
            },
            Some(j) => j,
        };
        let col = &self.collections[j];
        proof {
            assert(self@[j as int] == self.collections@[j as int]@);
        }
        if vector.dim() != col.schema.dimension {
            return Err(
                PipelineError::SchemaMismatch {
                    expected: col.schema,
                    actual: CollectionSchema {
                        dimension: vector.dim(),
                        metric: col.schema.metric,
                    },
                },
            );
        }
        let m = find_vector_index(&col.points, &vector.bits);
        let n = col.points.len();
        let count = if top_k < n {
            top_k
        } else {
            n
        };
        let ghost pts = col.points.deep_view();
        let ghost rk = ranked(pts, vector@);
        proof {
            if find_vector(pts, vector@) >= 0 {
                assert(rk.len() == pts.len());
            }
        }
        let mut out: Vec<SearchMatch> = Vec::new();
        let mut k: usize = 0;
        while k < count
            invariant
                0 <= k <= count,
                count <= n,
                n == pts.len(),
                count as int == if (top_k as int) < pts.len() {
                    top_k as int
                } else {
                    pts.len() as int
                },
                pts == col.points.deep_view(),
                rk == ranked(pts, vector@),
                rk.len() == pts.len() || find_vector(pts, vector@) == -1,
                m matches Some(jv) ==> find_vector(pts, vector@) == jv && (jv as int) < pts.len(),
                m is None ==> find_vector(pts, vector@) == -1,
                out@.len() == k,
                forall|t: int|
                    0 <= t < k ==> (#[trigger] out@[t])@ == match_of(rk[t], include_payload),
            decreases count - k,
        {
            let src_idx: usize = match m {
                Some(jv) => {
                    if k == 0 {
                        jv
                    } else if k <= jv {
                        k - 1
                    } else {
                        k
                    }
                },
                None => k,
            };
            let mm = make_match(&col.points[src_idx], include_payload);
            proof {
                assert(col.points.deep_view()[src_idx as int] == col.points@[src_idx as int]@);
                assert(rk[k as int] == pts[src_idx as int]);
            }
            out.push(mm);
            k = k + 1;
        }
        proof {
            let spec_ms = rk.take(count as int).map_values(
                |r: RecordV| match_of(r, include_payload),
            );
            assert forall|t: int| 0 <= t < count as int implies #[trigger] out.deep_view()[t]
                == spec_ms[t] by {
                assert(out.deep_view()[t] == out@[t]@);
                assert(rk.take(count as int)[t] == rk[t]);
            }
            assert(out.deep_view() =~= spec_ms);
        }
        Ok(out)
    }
}

/// Self-retrieval: if exactly one stored point carries this vector, ranking
/// by it keeps every point and puts that point first.
pub proof fn lemma_self_retrieval(points: Seq<RecordV>, v: Seq<u32>, j: int)
    requires
        0 <= j < points.len(),
        points[j].vector == v,
        forall|k: int| 0 <= k < points.len() && k != j ==> (#[trigger] points[k]).vector != v,
    ensures
        ranked(points, v).len() == points.len(),
        ranked(points, v)[0] == points[j],
{
    lemma_find_vector_is(points, v, j);
}

/// Self-retrieval through a query: if exactly one stored point of the
/// collection carries the query vector, any fitting query returns that
/// point's identity first, with its payload when payloads were asked for.
pub proof fn lemma_self_retrieval_query(
    cols: Seq<CollectionV>,
    name: Seq<char>,
    v: Seq<u32>,
    top_k: nat,
    include_payload: bool,
    j: int,
)
    requires
        find_collection(cols, name) >= 0,
        ({
            let c = cols[find_collection(cols, name)];
            &&& v.len() == c.schema.dimension
            &&& 0 <= j < c.points.len()
            &&& c.points[j].vector == v
            &&& forall|k: int|
                0 <= k < c.points.len() && k != j ==> (#[trigger] c.points[k]).vector != v
        }),
        top_k >= 1,
    ensures
        ({
            let c = cols[find_collection(cols, name)];
            spec_query(cols, name, v, top_k, include_payload) matches Ok(ms) && {
                &&& ms.len() >= 1
                &&& ms[0].id == c.points[j].id
                &&& (include_payload ==> ms[0].payload == c.points[j].payload)
            }
        }),
{
    lemma_find_collection(cols, name);
    let c = cols[find_collection(cols, name)];
    lemma_self_retrieval(c.points, v, j);
    let n = if top_k < c.points.len() {
        top_k as int
    } else {
        c.points.len() as int
    };
    assert(ranked(c.points, v).take(n)[0] == ranked(c.points, v)[0]);
}

/// Idempotent creation: once a call has succeeded, repeating it with the same
/// arguments reports the collection as already there and leaves the whole
/// index exactly as it was.
pub proof fn lemma_ensure_collection_idempotent(
    cols: Seq<CollectionV>,
    name: Seq<char>,
    schema: CollectionSchema,
)
    requires
        !(spec_ensure_collection(cols, name, schema).1 is Err),
    ensures
        spec_ensure_collection(spec_ensure_collection(cols, name, schema).0, name, schema).0
            == spec_ensure_collection(cols, name, schema).0,
        spec_ensure_collection(spec_ensure_collection(cols, name, schema).0, name, schema).1
            == Ok::<CollectionState, PipelineError>(CollectionState::AlreadyExists),
{
    let j = find_collection(cols, name);
    lemma_find_collection(cols, name);
    if j < 0 {
        let once = spec_ensure_collection(cols, name, schema).0;
        assert forall|k: int| 0 <= k < cols.len() implies (#[trigger] once[k]).name != name by {
            assert(once[k] == cols[k]);
        }
        lemma_find_collection_is(once, name, cols.len() as int);
    }
}

} // verus!
