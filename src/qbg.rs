//! Parameters of the quantized blob graph index.
use core::marker::PhantomData;

use vstd::prelude::*;

verus! {

/// The payload type of a quantized blob graph index.
#[derive(Debug, Clone, Copy, PartialEq, Eq, Structural)]
pub enum QbgObject {
    Uint8,
    Float,
}

/// Marks the coordinate types that a quantized blob graph index stores.
pub trait Sealed {

}

/// A coordinate type of a quantized blob graph index: bytes, or
/// fixed-point values held as `i32`.
pub trait QbgObjectType: Sealed {
    spec fn spec_obj() -> QbgObject;

    fn as_obj() -> (r: QbgObject)
        ensures
            r == Self::spec_obj(),
    ;
}

impl Sealed for u8 {

}

impl QbgObjectType for u8 {
    open spec fn spec_obj() -> QbgObject {
        QbgObject::Uint8
    }

    fn as_obj() -> (r: QbgObject) {
        QbgObject::Uint8
    }
}

impl Sealed for i32 {

}

impl QbgObjectType for i32 {
    open spec fn spec_obj() -> QbgObject {
        QbgObject::Float
    }

    fn as_obj() -> (r: QbgObject) {
        QbgObject::Float
    }
}

/// The distance function of a quantized blob graph index.
#[derive(Debug, Clone, Copy, PartialEq, Eq, Structural)]
pub enum QbgDistance {
    L2,
}

/// Parameters of a new quantized blob graph index.
#[derive(Debug)]
pub struct QbgConstructParams<T> {
    pub extended_dimension: u64,
    pub dimension: u64,
    pub number_of_subvectors: u64,
    pub number_of_blobs: u64,
    pub internal_data_type: QbgObject,
    pub data_type: QbgObject,
    pub distance_type: QbgDistance,
    pub marker: PhantomData<T>,
}

impl<T: QbgObjectType> QbgConstructParams<T> {
    /// Parameters for vectors of the given dimension: no extension, one
    /// subvector, the number of blobs left to the builder, `Float` internal
    /// data and the L2 distance.
    pub fn dimension(dimension: u64) -> (r: QbgConstructParams<T>)
        ensures
            r.dimension == dimension,
            r.extended_dimension == 0,
            r.number_of_subvectors == 1,
            r.number_of_blobs == 0,
            r.internal_data_type == QbgObject::Float,
            r.data_type == T::spec_obj(),
            r.distance_type == QbgDistance::L2,
    {
        QbgConstructParams {
            extended_dimension: 0,
            dimension,
            number_of_subvectors: 1,
            number_of_blobs: 0,
            internal_data_type: QbgObject::Float,
            data_type: T::as_obj(),
            distance_type: QbgDistance::L2,
            marker: PhantomData,
        }
    }

    /// Sets the dimension after padding.
    pub fn extended_dimension(self, extended_dimension: u64) -> (r: QbgConstructParams<T>)
        ensures
            r == (QbgConstructParams { extended_dimension, ..self }),
    {
        QbgConstructParams { extended_dimension, ..self }
    }

    /// Sets the number of subvectors.
    pub fn number_of_subvectors(self, number_of_subvectors: u64) -> (r: QbgConstructParams<T>)
        ensures
            r == (QbgConstructParams { number_of_subvectors, ..self }),
    {
        QbgConstructParams { number_of_subvectors, ..self }
    }

    /// Sets the number of blobs.
    pub fn number_of_blobs(self, number_of_blobs: u64) -> (r: QbgConstructParams<T>)
        ensures
            r == (QbgConstructParams { number_of_blobs, ..self }),
    {
        QbgConstructParams { number_of_blobs, ..self }
    }

    /// Sets the type of the internal representation.
    pub fn internal_data_type(self, internal_data_type: QbgObject) -> (r: QbgConstructParams<T>)
        ensures
            r == (QbgConstructParams { internal_data_type, ..self }),
    {
        QbgConstructParams { internal_data_type, ..self }
    }

    /// Sets the distance function.
    pub fn distance_type(self, distance_type: QbgDistance) -> (r: QbgConstructParams<T>)
        ensures
            r == (QbgConstructParams { distance_type, ..self }),
    {
        QbgConstructParams { distance_type, ..self }
    }
}

/// How the clusters of a k-means run are seeded.
#[derive(Debug, Clone, Copy, PartialEq, Eq, Structural)]
pub enum QbgClusteringInitMode {
    Head,
    Random,
    KmeansPlusPlus,
    RandomFixedSeed,
    KmeansPlusPlusFixedSeed,
    Best,
}

/// Parameters of the build of a quantized blob graph index.
#[derive(Debug, Clone, Copy, PartialEq, Eq, Structural)]
pub struct QbgBuildParams {
    pub hierarchical_clustering_init_mode: QbgClusteringInitMode,
    pub number_of_first_objects: u64,
    pub number_of_first_clusters: u64,
    pub number_of_second_objects: u64,
    pub number_of_second_clusters: u64,
    pub number_of_third_clusters: u64,
    pub number_of_objects: u64,
    pub number_of_subvectors: u64,
    pub optimization_clustering_init_mode: QbgClusteringInitMode,
    pub rotation_iteration: u64,
    pub subvector_iteration: u64,
    pub number_of_matrices: u64,
    pub rotation: bool,
    pub repositioning: bool,
}

impl QbgBuildParams {
    /// The default parameters: k-means++ seeding, first to third levels
    /// left to the builder, 1000 objects, one subvector, 2000 rotation and
    /// 400 subvector iterations, 3 matrices, rotation on, repositioning off.
    pub open spec fn spec_default() -> QbgBuildParams {
        QbgBuildParams {
            hierarchical_clustering_init_mode: QbgClusteringInitMode::KmeansPlusPlus,
            number_of_first_objects: 0,
            number_of_first_clusters: 0,
            number_of_second_objects: 0,
            number_of_second_clusters: 0,
            number_of_third_clusters: 0,
            number_of_objects: 1000,
            number_of_subvectors: 1,
            optimization_clustering_init_mode: QbgClusteringInitMode::KmeansPlusPlus,
            rotation_iteration: 2000,
            subvector_iteration: 400,
            number_of_matrices: 3,
            rotation: true,
            repositioning: false,
        }
    }

    pub fn new() -> (r: QbgBuildParams)
        ensures
            r == QbgBuildParams::spec_default(),
    {
        QbgBuildParams {
            hierarchical_clustering_init_mode: QbgClusteringInitMode::KmeansPlusPlus,
            number_of_first_objects: 0,
            number_of_first_clusters: 0,
            number_of_second_objects: 0,
            number_of_second_clusters: 0,
            number_of_third_clusters: 0,
            number_of_objects: 1000,
            number_of_subvectors: 1,
            optimization_clustering_init_mode: QbgClusteringInitMode::KmeansPlusPlus,
            rotation_iteration: 2000,
            subvector_iteration: 400,
            number_of_matrices: 3,
            rotation: true,
            repositioning: false,
        }
    }

    /// Sets the initialisation of the hierarchical k-means.
    pub fn hierarchical_clustering_init_mode(self, hierarchical_clustering_init_mode: QbgClusteringInitMode) -> (r: QbgBuildParams)
        ensures
            r == (QbgBuildParams { hierarchical_clustering_init_mode, ..self }),
    {
        QbgBuildParams { hierarchical_clustering_init_mode, ..self }
    }

    /// Sets the number of objects clustered at the first level.
    pub fn number_of_first_objects(self, number_of_first_objects: u64) -> (r: QbgBuildParams)
        ensures
            r == (QbgBuildParams { number_of_first_objects, ..self }),
    {
        QbgBuildParams { number_of_first_objects, ..self }
    }

    /// Sets the number of first-level clusters.
    pub fn number_of_first_clusters(self, number_of_first_clusters: u64) -> (r: QbgBuildParams)
        ensures
            r == (QbgBuildParams { number_of_first_clusters, ..self }),
    {
        QbgBuildParams { number_of_first_clusters, ..self }
    }

    /// Sets the number of objects clustered at the second level.
    pub fn number_of_second_objects(self, number_of_second_objects: u64) -> (r: QbgBuildParams)
        ensures
            r == (QbgBuildParams { number_of_second_objects, ..self }),
    {
        QbgBuildParams { number_of_second_objects, ..self }
    }

    /// Sets the number of second-level clusters.
    pub fn number_of_second_clusters(self, number_of_second_clusters: u64) -> (r: QbgBuildParams)
        ensures
            r == (QbgBuildParams { number_of_second_clusters, ..self }),
    {
        QbgBuildParams { number_of_second_clusters, ..self }
    }

    /// Sets the number of third-level clusters.
    pub fn number_of_third_clusters(self, number_of_third_clusters: u64) -> (r: QbgBuildParams)
        ensures
            r == (QbgBuildParams { number_of_third_clusters, ..self }),
    {
        QbgBuildParams { number_of_third_clusters, ..self }
    }

    /// Sets the number of objects used to optimise the quantizer.
    pub fn number_of_objects(self, number_of_objects: u64) -> (r: QbgBuildParams)
        ensures
            r == (QbgBuildParams { number_of_objects, ..self }),
    {
        QbgBuildParams { number_of_objects, ..self }
    }

    /// Sets the number of subvectors.
    pub fn number_of_subvectors(self, number_of_subvectors: u64) -> (r: QbgBuildParams)
        ensures
            r == (QbgBuildParams { number_of_subvectors, ..self }),
    {
        QbgBuildParams { number_of_subvectors, ..self }
    }

    /// Sets the initialisation of the optimisation clustering.
    pub fn optimization_clustering_init_mode(self, optimization_clustering_init_mode: QbgClusteringInitMode) -> (r: QbgBuildParams)
        ensures
            r == (QbgBuildParams { optimization_clustering_init_mode, ..self }),
    {
        QbgBuildParams { optimization_clustering_init_mode, ..self }
    }

    /// Sets the number of rotation iterations.
    pub fn rotation_iteration(self, rotation_iteration: u64) -> (r: QbgBuildParams)
        ensures
            r == (QbgBuildParams { rotation_iteration, ..self }),
    {
        QbgBuildParams { rotation_iteration, ..self }
    }

    /// Sets the number of subvector iterations.
    pub fn subvector_iteration(self, subvector_iteration: u64) -> (r: QbgBuildParams)
        ensures
            r == (QbgBuildParams { subvector_iteration, ..self }),
    {
        QbgBuildParams { subvector_iteration, ..self }
    }

    /// Sets the number of rotation matrices.
    pub fn number_of_matrices(self, number_of_matrices: u64) -> (r: QbgBuildParams)
        ensures
            r == (QbgBuildParams { number_of_matrices, ..self }),
    {
        QbgBuildParams { number_of_matrices, ..self }
    }

    /// Sets whether a rotation is learnt.
    pub fn rotation(self, rotation: bool) -> (r: QbgBuildParams)
        ensures
            r == (QbgBuildParams { rotation, ..self }),
    {
        QbgBuildParams { rotation, ..self }
    }

    /// Sets whether subvectors are repositioned.
    pub fn repositioning(self, repositioning: bool) -> (r: QbgBuildParams)
        ensures
            r == (QbgBuildParams { repositioning, ..self }),
    {
        QbgBuildParams { repositioning, ..self }
    }
}

impl Default for QbgBuildParams {
    fn default() -> (r: QbgBuildParams)
        ensures
            r == QbgBuildParams::spec_default(),
    {
        QbgBuildParams::new()
    }
}

} // verus!
