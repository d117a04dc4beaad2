use ngt::{
    ErrorKind, NgtDistance, NgtObject, NgtProperties, QbgBuildParams, QbgClusteringInitMode,
    QbgConstructParams, QbgDistance, QbgObject,
};

#[test]
fn default_properties() {
    let p = NgtProperties::dimension(3).unwrap();
    assert_eq!(3, p.get_dimension());
    assert_eq!(10, p.get_creation_edge_size());
    assert_eq!(40, p.get_search_edge_size());
    assert_eq!(NgtObject::Float, p.get_object_type());
    assert_eq!(NgtDistance::L2, p.get_distance_type());
    assert_eq!(p, p.try_clone().unwrap());
}

#[test]
fn property_limits() {
    assert_eq!(0, NgtProperties::dimension(0).unwrap().get_dimension());
    assert_eq!(
        ErrorKind::CapacityExceeded,
        NgtProperties::dimension(i32::MAX as usize + 1).unwrap_err().kind
    );
    let p = NgtProperties::dimension(3).unwrap();
    assert_eq!(ErrorKind::CapacityExceeded, p.creation_edge_size(40000).unwrap_err().kind);
    assert_eq!(ErrorKind::CapacityExceeded, p.search_edge_size(40000).unwrap_err().kind);
    assert_eq!(20, p.creation_edge_size(20).unwrap().get_creation_edge_size());
    assert_eq!(50, p.search_edge_size(50).unwrap().get_search_edge_size());
    assert_eq!(ErrorKind::InvalidState, p.distance_type(NgtDistance::Cosine).unwrap_err().kind);
    assert_eq!(NgtDistance::L1, p.distance_type(NgtDistance::L1).unwrap().get_distance_type());
}

#[test]
fn codes_round_trip() {
    for o in [NgtObject::Uint8, NgtObject::Float, NgtObject::Float16] {
        assert_eq!(o, NgtObject::try_from_primitive(o.to_primitive()).unwrap());
    }
    assert_eq!(2, NgtObject::Float.to_primitive());
    assert_eq!(101, NgtDistance::Lorentz.to_primitive());
    assert_eq!(NgtDistance::Poincare, NgtDistance::try_from_primitive(100).unwrap());
    assert_eq!(ErrorKind::CorruptFormat, NgtObject::try_from_primitive(0).unwrap_err().kind);
    assert_eq!(ErrorKind::CorruptFormat, NgtDistance::try_from_primitive(10).unwrap_err().kind);
}

#[test]
fn qbg_parameters() {
    let c = QbgConstructParams::<u8>::dimension(8)
        .extended_dimension(16)
        .number_of_subvectors(4)
        .number_of_blobs(10)
        .internal_data_type(QbgObject::Uint8)
        .distance_type(QbgDistance::L2);
    assert_eq!(8, c.dimension);
    assert_eq!(16, c.extended_dimension);
    assert_eq!(4, c.number_of_subvectors);
    assert_eq!(10, c.number_of_blobs);
    assert_eq!(QbgObject::Uint8, c.data_type);
    assert_eq!(QbgObject::Float, QbgConstructParams::<i32>::dimension(8).data_type);

    let b = QbgBuildParams::default();
    assert_eq!(1000, b.number_of_objects);
    assert_eq!(2000, b.rotation_iteration);
    assert!(b.rotation);
    let b = b
        .hierarchical_clustering_init_mode(QbgClusteringInitMode::Random)
        .number_of_first_objects(1)
        .number_of_first_clusters(2)
        .number_of_second_objects(3)
        .number_of_second_clusters(4)
        .number_of_third_clusters(5)
        .number_of_objects(6)
        .number_of_subvectors(7)
        .optimization_clustering_init_mode(QbgClusteringInitMode::Head)
        .rotation_iteration(8)
        .subvector_iteration(9)
        .number_of_matrices(10)
        .rotation(false)
        .repositioning(true);
    assert_eq!(QbgClusteringInitMode::Random, b.hierarchical_clustering_init_mode);
    assert_eq!(5, b.number_of_third_clusters);
    assert_eq!(10, b.number_of_matrices);
    assert!(!b.rotation && b.repositioning);
}
