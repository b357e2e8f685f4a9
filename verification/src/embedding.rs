//! Embeddings as the pipeline carries them.
//!
//! The pipeline never computes on vector components; it only stores them,
//! compares whole vectors, and checks lengths. Each 32-bit component is
//! therefore carried as its raw bit pattern, and the engine adapter converts
//! at the boundary.
use vstd::prelude::*;

verus! {

/// A fixed-length vector produced by the embedding engine, one `u32` bit
/// pattern per component.
#[derive(Debug)]
pub struct Embedding {
    pub bits: Vec<u32>,
}

impl View for Embedding {
    type V = Seq<u32>;

    open spec fn view(&self) -> Seq<u32> {
        self.bits@
    }
}

impl DeepView for Embedding {
    type V = Seq<u32>;

    open spec fn deep_view(&self) -> Seq<u32> {
        self.bits@
    }
}

impl Clone for Embedding {
    fn clone(&self) -> (res: Self)
        ensures
            res@ == self@,
    {
        Embedding { bits: clone_bits(&self.bits) }
    }
}

impl Embedding {
    /// Wrap raw components as an embedding.
    pub fn new(bits: Vec<u32>) -> (r: Embedding)
        ensures
            r@ == bits@,
    {
        Embedding { bits }
    }

    /// The dimension of this vector.
    pub fn dim(&self) -> (n: usize)
        ensures
            n == self@.len(),
    {
        self.bits.len()
    }
}

/// Copy a component vector.
fn clone_bits(v: &Vec<u32>) -> (r: Vec<u32>)
    ensures
        r@ == v@,
{
    let mut out: Vec<u32> = Vec::new();
    let mut i: usize = 0;
    while i < v.len()
        invariant
            0 <= i <= v.len(),
            out@ == v@.subrange(0, i as int),
        decreases v.len() - i,
    {
        out.push(v[i]);
        i = i + 1;
    }
    proof {
        assert(out@ =~= v@);
    }
    out
}

/// Whether two component vectors are equal.
pub fn bits_equal(a: &Vec<u32>, b: &Vec<u32>) -> (r: bool)
    ensures
        r == (a@ == b@),
{
    if a.len() != b.len() {
        proof {
            assert(a@.len() != b@.len());
        }
        return false;
    }
    let mut i: usize = 0;
    while i < a.len()
        invariant
            0 <= i <= a.len(),
            a@.len() == b@.len(),
            forall|k: int| 0 <= k < i ==> a@[k] == b@[k],
        decreases a.len() - i,
    {
        if a[i] != b[i] {
            proof {
                assert(a@[i as int] != b@[i as int]);
            }
            return false;
        }
        i = i + 1;
    }
    proof {
        assert(a@ =~= b@);
    }
    true
}

} // verus!
