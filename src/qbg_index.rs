//! A quantized index with two modes: vectors are added to a writable index,
//! which is quantized into a readable one for searching.
use core::marker::PhantomData;

use vstd::arithmetic::div_mod::{lemma_div_is_ordered, lemma_div_multiples_vanish};
use vstd::prelude::*;

use crate::error::{Error, ErrorKind};
use crate::index::{IndexView, NgtIndex};
use crate::properties::{NgtDistance, NgtObject, NgtProperties};
use crate::qbg::{QbgBuildParams, QbgConstructParams, QbgObject, QbgObjectType, Sealed};
use crate::qg::{
    QgIndex, QgQuantizationParams, QgQuery, QgView, min_int, quantized, rerank_pool, shortlist_ok,
    subvector_len,
};
use crate::results::{SearchResult, is_top_k};
use crate::VecId;

verus! {

/// The mode of a `QbgIndex`: writable or readable.
pub trait IndexMode: Sealed {

}

/// The writable mode: the graph index that vectors are added to.
#[derive(Debug)]
pub struct ModeWrite {
    index: NgtIndex,
}

impl Sealed for ModeWrite {

}

impl IndexMode for ModeWrite {

}

/// The readable mode: the quantized index that is searched.
#[derive(Debug)]
pub struct ModeRead {
    index: QgIndex,
}

impl Sealed for ModeRead {

}

impl IndexMode for ModeRead {

}

/// A query of a readable `QbgIndex`: the vector, the number of results,
/// the search slack (in thousandths), the shortlist factor and the largest
/// distance of a result.
#[derive(Debug)]
pub struct QbgQuery {
    pub query: Vec<i32>,
    pub size: u64,
    pub epsilon: u32,
    pub result_expansion: u32,
    pub radius: u128,
}

impl QbgQuery {
    /// A query for the 20 nearest vectors, with slack 0.1, a shortlist
    /// three times the size and no radius.
    pub fn new(query: Vec<i32>) -> (r: QbgQuery)
        ensures
            r.query@ == query@,
            r.size == 20,
            r.epsilon == 100,
            r.result_expansion == 3,
            r.radius == u128::MAX,
    {
        QbgQuery { query, size: 20, epsilon: 100, result_expansion: 3, radius: u128::MAX }
    }

    pub fn size(self, size: u64) -> (r: QbgQuery)
        ensures
            r.query@ == self.query@,
            r.size == size,
            r.epsilon == self.epsilon,
            r.result_expansion == self.result_expansion,
            r.radius == self.radius,
    {
        QbgQuery { size, ..self }
    }

    pub fn epsilon(self, epsilon: u32) -> (r: QbgQuery)
        ensures
            r.query@ == self.query@,
            r.size == self.size,
            r.epsilon == epsilon,
            r.result_expansion == self.result_expansion,
            r.radius == self.radius,
    {
        QbgQuery { epsilon, ..self }
    }

    pub fn result_expansion(self, result_expansion: u32) -> (r: QbgQuery)
        ensures
            r.query@ == self.query@,
            r.size == self.size,
            r.epsilon == self.epsilon,
            r.result_expansion == result_expansion,
            r.radius == self.radius,
    {
        QbgQuery { result_expansion, ..self }
    }

    pub fn radius(self, radius: u128) -> (r: QbgQuery)
        ensures
            r.query@ == self.query@,
            r.size == self.size,
            r.epsilon == self.epsilon,
            r.result_expansion == self.result_expansion,
            r.radius == radius,
    {
        QbgQuery { radius, ..self }
    }
}

/// The payload type of the graph index behind a `QbgIndex` of `T`.
pub open spec fn payload_of(o: QbgObject) -> NgtObject {
    match o {
        QbgObject::Uint8 => NgtObject::Uint8,
        QbgObject::Float => NgtObject::Float,
    }
}

/// The number of coordinates per code when `dim` coordinates are split
/// into `nsub` subvectors.
pub open spec fn subvector_width(dim: int, nsub: int) -> int {
    if nsub <= 1 {
        dim
    } else if nsub >= dim {
        1
    } else {
        (dim + nsub - 1) / nsub
    }
}

/// A quantized index over coordinates of type `T`, in mode `M`.
#[derive(Debug)]
pub struct QbgIndex<T, M> {
    mode: M,
    number_of_subvectors: u64,
    marker: PhantomData<T>,
}

impl<T: QbgObjectType> QbgIndex<T, ModeWrite> {
    pub closed spec fn wf(&self) -> bool {
        &&& self.mode.index.wf()
        &&& self.mode.index@.prop.distance_type == NgtDistance::L2
    }

    pub closed spec fn view(&self) -> IndexView {
        self.mode.index@
    }

    pub closed spec fn subvectors(&self) -> int {
        self.number_of_subvectors as int
    }

    /// An empty writable index for vectors of the parameters' dimension,
    /// with the payload type of `T` and the L2 distance.
    pub fn create(create_params: QbgConstructParams<T>) -> (r: Result<QbgIndex<T, ModeWrite>, Error>)
        ensures
            r is Ok <==> create_params.dimension <= i32::MAX,
            r matches Err(e) ==> e.kind == ErrorKind::CapacityExceeded,
            r matches Ok(x) ==> {
                &&& x.wf()
                &&& x.view().objects.len() == 0
                &&& x.view().built == 0
                &&& x.view().prop.dimension == create_params.dimension
                &&& x.view().prop.object_type == payload_of(T::spec_obj())
                &&& x.view().prop.distance_type == NgtDistance::L2
                &&& x.subvectors() == create_params.number_of_subvectors
            },
    {
        if create_params.dimension > i32::MAX as u64 {
            return Err(Error::new(ErrorKind::CapacityExceeded));
        }
        let prop = match NgtProperties::dimension(create_params.dimension as usize) {
            Ok(p) => p,
            Err(e) => {
                return Err(e);
            },
        };
        let object_type = match T::as_obj() {
            QbgObject::Uint8 => NgtObject::Uint8,
            QbgObject::Float => NgtObject::Float,
        };
        let prop = NgtProperties { object_type, ..prop };
        Ok(
            QbgIndex {
                mode: ModeWrite { index: NgtIndex::new(prop) },
                number_of_subvectors: create_params.number_of_subvectors,
                marker: PhantomData,
            },
        )
    }

    /// Stores `vec` under the next id, as `NgtIndex::insert` does.
    pub fn insert(&mut self, vec: Vec<i32>) -> (r: Result<VecId, Error>)
        requires
            old(self).wf(),
        ensures
            final(self).wf(),
            final(self).subvectors() == old(self).subvectors(),
            r is Ok <==> old(self).view().accepts(vec@) && old(self).view().objects.len() + 1
                < u32::MAX,
            r matches Ok(id) ==> id == old(self).view().objects.len() + 1 && final(self).view()
                == old(self).view().appended(vec@),
            r matches Err(e) ==> final(self).view() == old(self).view(),
    {
        self.mode.index.insert(vec)
    }

    /// Builds the graph over every vector inserted so far. The clustering
    /// parameters are those of a blob quantizer; this index quantizes by
    /// subvector means and needs none of them.
    pub fn build(&mut self, build_params: QbgBuildParams) -> (r: Result<(), Error>)
        requires
            old(self).wf(),
        ensures
            final(self).wf(),
            r is Ok,
            final(self).subvectors() == old(self).subvectors(),
            final(self).view().objects == old(self).view().objects,
            final(self).view().live == old(self).view().live,
            final(self).view().prop == old(self).view().prop,
            final(self).view().built == old(self).view().objects.len(),
            final(self).view().linked_from(old(self).view().built as int),
    {
        self.mode.index.build(1)
    }

    /// The persisted form of the index.
    pub fn persist(&self) -> (r: Vec<u8>)
        requires
            self.wf(),
        ensures
            crate::codec::is_encoding(r@, self.view()),
    {
        self.mode.index.to_bytes()
    }

    /// The vector stored under `id`.
    pub fn get_vec(&self, id: VecId) -> (r: Result<Vec<i32>, Error>)
        requires
            self.wf(),
        ensures
            r is Ok <==> self.view().is_live(id),
            r matches Ok(v) ==> v@ == self.view().objects[id - 1],
            r matches Err(e) ==> e.kind == ErrorKind::NotFound,
    {
        self.mode.index.get_vec(id)
    }

    /// Quantizes the index for searching: the vectors are split into
    /// `number_of_subvectors` subvectors (one if 0 or 1) whose means form
    /// the codes. Fails with `InvalidState` unless every vector is built.
    pub fn into_readable(self) -> (r: Result<QbgIndex<T, ModeRead>, Error>)
        requires
            self.wf(),
        ensures
            r is Ok <==> self.view().built == self.view().objects.len(),
            r matches Err(e) ==> e.kind == ErrorKind::InvalidState,
            r matches Ok(x) ==> {
                &&& x.wf()
                &&& x.view().exact == self.view()
                &&& x.view().sub == subvector_len(
                    self.view().prop.dimension as int,
                    subvector_width(self.view().prop.dimension as int, self.subvectors()),
                )
            },
    {
        let dim = self.mode.index.properties().dimension as u64;
        let nsub = self.number_of_subvectors;
        let width: u64 = if nsub <= 1 {
            dim
        } else if nsub >= dim {
            1
        } else {
            proof {
                assert(dim + nsub - 1 <= dim * nsub) by (nonlinear_arith)
                    requires
                        nsub > 1,
                        dim >= 1,
                ;
                lemma_div_is_ordered((dim + nsub - 1) as int, (dim * nsub) as int, nsub as int);
                lemma_div_multiples_vanish(dim as int, nsub as int);
                assert(dim * nsub == nsub * dim) by (nonlinear_arith);
            }
            (dim + nsub - 1) / nsub
        };
        assert(width <= dim || width == 1);
        let sub: u32 = width as u32;
        let params = QgQuantizationParams { dimension_of_subvector: sub, max_number_of_edges: 128 };
        let n = self.number_of_subvectors;
        match QgIndex::quantize(self.mode.index, params) {
            Ok(q) => Ok(QbgIndex { mode: ModeRead { index: q }, number_of_subvectors: n, marker: PhantomData }),
            Err(e) => Err(e),
        }
    }
}

impl<T: QbgObjectType> QbgIndex<T, ModeRead> {
    pub closed spec fn wf(&self) -> bool {
        &&& self.mode.index.wf()
        &&& self.mode.index@.exact.prop.distance_type == NgtDistance::L2
    }

    pub closed spec fn view(&self) -> QgView {
        self.mode.index@
    }

    pub closed spec fn subvectors(&self) -> int {
        self.number_of_subvectors as int
    }

    /// The `size` nearest vectors to the query, approximately, as
    /// `QgIndex::search` finds them.
    pub fn search(&self, query: QbgQuery) -> (r: Result<Vec<SearchResult>, Error>)
        requires
            self.wf(),
        ensures
            r is Err <==> query.query@.len() != self.view().exact.prop.dimension
                || !self.view().exact.has_indexed(),
            r matches Err(e) ==> (query.query@.len() != self.view().exact.prop.dimension ==> e.kind
                == ErrorKind::DimensionMismatch) && (query.query@.len()
                == self.view().exact.prop.dimension ==> e.kind == ErrorKind::InvalidState),
            r matches Ok(res) ==> exists|sl: Seq<SearchResult>|
                {
                    &&& shortlist_ok(
                        self.view().coded,
                        quantized(query.query@, self.view().sub),
                        sl,
                        min_int(
                            query.size * query.result_expansion,
                            self.view().exact.objects.len() as int,
                        ),
                        query.epsilon,
                    )
                    &&& is_top_k(
                        res@,
                        rerank_pool(self.view().exact, query.query@, sl, query.radius),
                        min_int(query.size as int, self.view().exact.objects.len() as int) as nat,
                    )
                },
            r matches Ok(res) ==> (query.radius == u128::MAX && query.size > 0
                && query.result_expansion > 0 ==> res@.len() >= 1),
    {
        let q = QgQuery::new(query.query).size(query.size).epsilon(query.epsilon).result_expansion(
            query.result_expansion,
        ).radius(query.radius);
        self.mode.index.search(&q)
    }

    /// The vector stored under `id`.
    pub fn get_vec(&self, id: VecId) -> (r: Result<Vec<i32>, Error>)
        requires
            self.wf(),
        ensures
            r is Ok <==> self.view().exact.is_live(id),
            r matches Ok(v) ==> v@ == self.view().exact.objects[id - 1],
            r matches Err(e) ==> e.kind == ErrorKind::NotFound,
    {
        self.mode.index.get_vec(id)
    }

    /// The persisted form of the readable index.
    pub fn persist(&self) -> (r: Vec<u8>)
        requires
            self.wf(),
        ensures
            crate::qg::is_qg_encoding(r@, self.view()),
    {
        self.mode.index.to_bytes()
    }

    /// Opens a readable index from its persisted form; fails with
    /// `CorruptFormat` exactly where `QgIndex::from_bytes` does.
    pub fn open(b: &Vec<u8>) -> (r: Result<QbgIndex<T, ModeRead>, Error>)
        ensures
            r is Ok <==> crate::qg::qg_decodable(b@),
            r matches Ok(x) ==> x.wf() && crate::qg::is_qg_encoding(b@, x.view()),
            r matches Err(e) ==> e.kind == ErrorKind::CorruptFormat,
    {
        match QgIndex::from_bytes(b) {
            Ok(q) => Ok(QbgIndex { mode: ModeRead { index: q }, number_of_subvectors: 0, marker: PhantomData }),
            Err(e) => Err(e),
        }
    }

    /// Back to the writable index, with every vector and the graph as they
    /// were before quantization.
    pub fn into_writable(self) -> (r: Result<QbgIndex<T, ModeWrite>, Error>)
        requires
            self.wf(),
        ensures
            r matches Ok(x) ==> x.wf() && x.view() == self.view().exact && x.subvectors()
                == self.subvectors(),
            r is Ok,
    {
        let n = self.number_of_subvectors;
        Ok(
            QbgIndex {
                mode: ModeWrite { index: self.mode.index.into_exact() },
                number_of_subvectors: n,
                marker: PhantomData,
            },
        )
    }
}

} // verus!
