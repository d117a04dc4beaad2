//! Payload types, distance functions and the properties of an index.
use vstd::prelude::*;

use crate::error::{Error, ErrorKind};

verus! {

/// The payload type of the stored vectors.
///
/// Coordinates are held as integers: `Uint8` vectors take values in
/// `0..=255`, `Float` and `Float16` vectors take fixed-point values whose
/// scale is chosen by the caller.
#[derive(Debug, Clone, Copy, PartialEq, Eq, Structural)]
pub enum NgtObject {
    Uint8,
    Float,
    Float16,
}

impl NgtObject {
    /// The numeric code of the payload type in the persisted format.
    pub open spec fn code(self) -> i32 {
        match self {
            NgtObject::Uint8 => 1,
            NgtObject::Float => 2,
            NgtObject::Float16 => 3,
        }
    }

    /// Whether a coordinate value fits this payload type.
    pub open spec fn admits(self, v: i32) -> bool {
        match self {
            NgtObject::Uint8 => 0 <= v <= 255,
            _ => true,
        }
    }

    pub fn to_primitive(self) -> (r: i32)
        ensures
            r == self.code(),
    {
        match self {
            NgtObject::Uint8 => 1,
            NgtObject::Float => 2,
            NgtObject::Float16 => 3,
        }
    }

    /// The payload type with the given code.
    pub fn try_from_primitive(v: i32) -> (r: Result<NgtObject, Error>)
        ensures
            r matches Ok(o) ==> o.code() == v,
            r is Err ==> (forall|o: NgtObject| o.code() != v),
            r matches Err(e) ==> e.kind == ErrorKind::CorruptFormat,
    {
        if v == 1 {
            Ok(NgtObject::Uint8)
        } else if v == 2 {
            Ok(NgtObject::Float)
        } else if v == 3 {
            Ok(NgtObject::Float16)
        } else {
            assert forall|o: NgtObject| o.code() != v by {
                match o {
                    NgtObject::Uint8 => {},
                    NgtObject::Float => {},
                    NgtObject::Float16 => {},
                }
            }
            Err(Error::new(ErrorKind::CorruptFormat))
        }
    }

    /// Whether `v` fits this payload type.
    pub fn accepts(self, v: i32) -> (r: bool)
        ensures
            r == self.admits(v),
    {
        match self {
            NgtObject::Uint8 => 0 <= v && v <= 255,
            _ => true,
        }
    }
}

/// Distinct payload types have distinct codes.
pub proof fn lemma_object_code_injective(a: NgtObject, b: NgtObject)
    requires
        a.code() == b.code(),
    ensures
        a == b,
{
    match a {
        NgtObject::Uint8 => {},
        NgtObject::Float => {},
        NgtObject::Float16 => {},
    }
}

/// Distinct distance functions have distinct codes.
pub proof fn lemma_distance_code_injective(a: NgtDistance, b: NgtDistance)
    requires
        a.code() == b.code(),
    ensures
        a == b,
{
    match a {
        _ => {
            match b {
                _ => {},
            }
        },
    }
}

/// The distance function of an index.
#[derive(Debug, Clone, Copy, PartialEq, Eq, Structural)]
pub enum NgtDistance {
    L1,
    L2,
    Angle,
    Hamming,
    Cosine,
    NormalizedAngle,
    NormalizedCosine,
    Jaccard,
    SparseJaccard,
    NormalizedL2,
    Poincare,
    Lorentz,
}

impl NgtDistance {
    /// The numeric code of the distance function in the persisted format.
    pub open spec fn code(self) -> i32 {
        match self {
            NgtDistance::L1 => 0,
            NgtDistance::L2 => 1,
            NgtDistance::Angle => 2,
            NgtDistance::Hamming => 3,
            NgtDistance::Cosine => 4,
            NgtDistance::NormalizedAngle => 5,
            NgtDistance::NormalizedCosine => 6,
            NgtDistance::Jaccard => 7,
            NgtDistance::SparseJaccard => 8,
            NgtDistance::NormalizedL2 => 9,
            NgtDistance::Poincare => 100,
            NgtDistance::Lorentz => 101,
        }
    }

    /// The distance functions that the index computes exactly over
    /// integer coordinates; the others need real arithmetic.
    pub open spec fn is_integral(self) -> bool {
        self == NgtDistance::L1 || self == NgtDistance::L2 || self == NgtDistance::Hamming
    }

    pub fn to_primitive(self) -> (r: i32)
        ensures
            r == self.code(),
    {
        match self {
            NgtDistance::L1 => 0,
            NgtDistance::L2 => 1,
            NgtDistance::Angle => 2,
            NgtDistance::Hamming => 3,
            NgtDistance::Cosine => 4,
            NgtDistance::NormalizedAngle => 5,
            NgtDistance::NormalizedCosine => 6,
            NgtDistance::Jaccard => 7,
            NgtDistance::SparseJaccard => 8,
            NgtDistance::NormalizedL2 => 9,
            NgtDistance::Poincare => 100,
            NgtDistance::Lorentz => 101,
        }
    }

    /// The distance function with the given code.
    pub fn try_from_primitive(v: i32) -> (r: Result<NgtDistance, Error>)
        ensures
            r matches Ok(d) ==> d.code() == v,
            r is Err ==> (forall|d: NgtDistance| d.code() != v),
            r matches Err(e) ==> e.kind == ErrorKind::CorruptFormat,
    {
        if v == 0 {
            Ok(NgtDistance::L1)
        } else if v == 1 {
            Ok(NgtDistance::L2)
        } else if v == 2 {
            Ok(NgtDistance::Angle)
        } else if v == 3 {
            Ok(NgtDistance::Hamming)
        } else if v == 4 {
            Ok(NgtDistance::Cosine)
        } else if v == 5 {
            Ok(NgtDistance::NormalizedAngle)
        } else if v == 6 {
            Ok(NgtDistance::NormalizedCosine)
        } else if v == 7 {
            Ok(NgtDistance::Jaccard)
        } else if v == 8 {
            Ok(NgtDistance::SparseJaccard)
        } else if v == 9 {
            Ok(NgtDistance::NormalizedL2)
        } else if v == 100 {
            Ok(NgtDistance::Poincare)
        } else if v == 101 {
            Ok(NgtDistance::Lorentz)
        } else {
            assert forall|d: NgtDistance| d.code() != v by {
                match d {
                    _ => {},
                }
            }
            Err(Error::new(ErrorKind::CorruptFormat))
        }
    }

    pub fn is_supported(self) -> (r: bool)
        ensures
            r == self.is_integral(),
    {
        match self {
            NgtDistance::L1 => true,
            NgtDistance::L2 => true,
            NgtDistance::Hamming => true,
            _ => false,
        }
    }
}

/// Default maximum out-degree used while building the graph.
pub const DEFAULT_CREATION_EDGE_SIZE: i16 = 10;

/// Default number of edges explored per node while searching.
pub const DEFAULT_SEARCH_EDGE_SIZE: i16 = 40;

/// The configuration of an index, fixed once the index is created.
#[derive(Debug, Clone, Copy, PartialEq, Eq, Structural)]
pub struct NgtProperties {
    pub dimension: i32,
    pub creation_edge_size: i16,
    pub search_edge_size: i16,
    pub object_type: NgtObject,
    pub distance_type: NgtDistance,
}

impl NgtProperties {
    /// Properties are valid when the dimension is not negative, the edge sizes
    /// are not negative and the distance function is computed exactly.
    pub open spec fn wf(self) -> bool {
        &&& self.dimension >= 0
        &&& self.creation_edge_size >= 0
        &&& self.search_edge_size >= 0
        &&& self.distance_type.is_integral()
    }

    pub open spec fn dim(self) -> nat {
        self.dimension as nat
    }

    pub open spec fn spec_creation_edge_size(self) -> int {
        self.creation_edge_size as int
    }

    /// Default properties for vectors of the given dimension: creation edge
    /// size 10, search edge size 40, `Float` payloads and the L2 distance.
    pub fn dimension(dimension: usize) -> (r: Result<NgtProperties, Error>)
        ensures
            r is Ok <==> dimension <= i32::MAX,
            r matches Ok(p) ==> p.wf() && p.dimension == dimension && p.creation_edge_size == 10
                && p.search_edge_size == 40 && p.object_type == NgtObject::Float
                && p.distance_type == NgtDistance::L2,
            r matches Err(e) ==> e.kind == ErrorKind::CapacityExceeded,
    {
        if dimension > i32::MAX as usize {
            return Err(Error::new(ErrorKind::CapacityExceeded));
        }
        Ok(NgtProperties {
            dimension: dimension as i32,
            creation_edge_size: DEFAULT_CREATION_EDGE_SIZE,
            search_edge_size: DEFAULT_SEARCH_EDGE_SIZE,
            object_type: NgtObject::Float,
            distance_type: NgtDistance::L2,
        })
    }

    /// A copy of these properties.
    pub fn try_clone(&self) -> (r: Result<NgtProperties, Error>)
        ensures
            r == Ok::<NgtProperties, Error>(*self),
    {
        Ok(*self)
    }

    /// Sets the maximum out-degree used while building the graph.
    pub fn creation_edge_size(self, size: usize) -> (r: Result<NgtProperties, Error>)
        ensures
            r is Ok <==> size <= i16::MAX,
            r matches Ok(p) ==> p == (NgtProperties { creation_edge_size: size as i16, ..self }),
            r matches Err(e) ==> e.kind == ErrorKind::CapacityExceeded,
    {
        if size > i16::MAX as usize {
            return Err(Error::new(ErrorKind::CapacityExceeded));
        }
        Ok(NgtProperties { creation_edge_size: size as i16, ..self })
    }

    /// Sets the number of edges explored per node while searching.
    pub fn search_edge_size(self, size: usize) -> (r: Result<NgtProperties, Error>)
        ensures
            r is Ok <==> size <= i16::MAX,
            r matches Ok(p) ==> p == (NgtProperties { search_edge_size: size as i16, ..self }),
            r matches Err(e) ==> e.kind == ErrorKind::CapacityExceeded,
    {
        if size > i16::MAX as usize {
            return Err(Error::new(ErrorKind::CapacityExceeded));
        }
        Ok(NgtProperties { search_edge_size: size as i16, ..self })
    }

    /// Sets the payload type.
    pub fn object_type(self, object_type: NgtObject) -> (r: Result<NgtProperties, Error>)
        ensures
            r == Ok::<NgtProperties, Error>(NgtProperties { object_type, ..self }),
    {
        Ok(NgtProperties { object_type, ..self })
    }

    /// Sets the distance function; those that need real arithmetic
    /// (every one but L1, L2 and Hamming) are refused.
    pub fn distance_type(self, distance_type: NgtDistance) -> (r: Result<NgtProperties, Error>)
        ensures
            r is Ok <==> distance_type.is_integral(),
            r matches Ok(p) ==> p == (NgtProperties { distance_type, ..self }),
            r matches Err(e) ==> e.kind == ErrorKind::InvalidState,
    {
        if !distance_type.is_supported() {
            return Err(Error::new(ErrorKind::InvalidState));
        }
        Ok(NgtProperties { distance_type, ..self })
    }

    pub fn get_dimension(&self) -> (r: usize)
        requires
            self.wf(),
        ensures
            r == self.dimension,
    {
        self.dimension as usize
    }

    pub fn get_creation_edge_size(&self) -> (r: usize)
        requires
            self.wf(),
        ensures
            r == self.creation_edge_size,
    {
        self.creation_edge_size as usize
    }

    pub fn get_search_edge_size(&self) -> (r: usize)
        requires
            self.wf(),
        ensures
            r == self.search_edge_size,
    {
        self.search_edge_size as usize
    }

    pub fn get_object_type(&self) -> (r: NgtObject)
        ensures
            r == self.object_type,
    {
        self.object_type
    }

    pub fn get_distance_type(&self) -> (r: NgtDistance)
        ensures
            r == self.distance_type,
    {
        self.distance_type
    }
}

} // verus!
