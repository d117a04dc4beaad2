use ngt::optim::{
    convert_anng_to_onng, optimize_anng_edges_number, optimize_anng_search_parameters,
    refine_anng, AnngEdgeOptimParams, AnngRefineParams, GraphOptimParams,
};
use ngt::{ErrorKind, NgtIndex, NgtProperties, EPSILON, EPSILON_EXHAUSTIVE};

#[test]
fn test_refine_anng() {
    let prop = NgtProperties::dimension(3).unwrap();
    let mut index = NgtIndex::new(prop);
    for i in 0..1000 {
        let _ = index.insert(vec![i, i + 1, i + 2]).unwrap();
    }
    index.build(4).unwrap();
    refine_anng(&mut index, AnngRefineParams::default()).unwrap();

    assert_eq!(1000, index.nb_indexed());
    let res = index.search(&vec![500, 501, 502], 1, EPSILON).unwrap();
    assert_eq!(501, res[0].id);
}

#[test]
fn refine_requires_a_built_index() {
    let mut index = NgtIndex::new(NgtProperties::dimension(2).unwrap());
    index.insert(vec![1, 2]).unwrap();
    let err = refine_anng(&mut index, AnngRefineParams::default()).unwrap_err();
    assert_eq!(ErrorKind::InvalidState, err.kind);
}

#[test]
fn optimize_search_parameters_sets_explored_edges_to_largest_degree() {
    let prop = NgtProperties::dimension(2).unwrap().creation_edge_size(3).unwrap();
    let mut index = NgtIndex::new(prop);
    for i in 0..20 {
        index.insert(vec![i, 2 * i]).unwrap();
    }
    index.build(1).unwrap();
    let before = index.search(&vec![7, 13], 3, EPSILON_EXHAUSTIVE).unwrap();
    optimize_anng_search_parameters(&mut index).unwrap();
    assert_eq!(3, index.properties().get_search_edge_size());
    let after = index.search(&vec![7, 13], 3, EPSILON_EXHAUSTIVE).unwrap();
    assert_eq!(before, after);
}

#[test]
fn optimize_on_empty_index_sets_zero() {
    let mut index = NgtIndex::new(NgtProperties::dimension(2).unwrap());
    optimize_anng_search_parameters(&mut index).unwrap();
    assert_eq!(0, index.properties().get_search_edge_size());
}

#[test]
fn exhaustive_search_equals_linear_search() {
    let prop = NgtProperties::dimension(2).unwrap().creation_edge_size(2).unwrap();
    let mut index = NgtIndex::new(prop);
    for i in 0..80i32 {
        index.insert(vec![(i * 31) % 97, (i * 59) % 89]).unwrap();
    }
    index.build(1).unwrap();
    index.remove(5).unwrap();
    index.remove(40).unwrap();
    for j in 0..25i32 {
        let q = vec![(j * 13) % 97, (j * 7) % 89];
        let lin = index.linear_search(&q, 5).unwrap();
        let ex = index.search(&q, 5, EPSILON_EXHAUSTIVE).unwrap();
        assert_eq!(lin, ex);
    }
}

#[test]
fn search_after_removing_the_first_node_still_answers() {
    let mut index = NgtIndex::new(NgtProperties::dimension(1).unwrap());
    for x in [0, 10, 20, 30] {
        index.insert(vec![x]).unwrap();
    }
    index.build(1).unwrap();
    index.remove(1).unwrap();
    let res = index.search(&vec![1], 1, EPSILON).unwrap();
    assert_eq!(1, res.len());
    assert_eq!(2, res[0].id);
}

#[test]
fn test_convert_anng_to_onng() {
    let prop = NgtProperties::dimension(3).unwrap().creation_edge_size(30).unwrap();
    let mut index = NgtIndex::new(prop);
    for i in 0..300 {
        let _ = index.insert(vec![i, i + 1, i + 2]).unwrap();
    }
    index.build(4).unwrap();
    let params = GraphOptimParams {
        nb_outgoing: 10,
        nb_incoming: 100,
    };
    let onng = convert_anng_to_onng(&index, params).unwrap();
    assert_eq!(300, onng.nb_indexed());
    for q in [vec![0, 1, 2], vec![150, 151, 152], vec![299, 300, 301]] {
        let a = onng.search(&q, 3, EPSILON_EXHAUSTIVE).unwrap();
        let b = index.linear_search(&q, 3).unwrap();
        assert_eq!(a, b);
    }
    let res = onng.search(&vec![150, 151, 152], 1, EPSILON).unwrap();
    assert_eq!(151, res[0].id);
}

#[test]
fn convert_refuses_default_edge_size_and_unbuilt_index() {
    let mut index = NgtIndex::new(NgtProperties::dimension(1).unwrap());
    index.insert(vec![1]).unwrap();
    index.build(1).unwrap();
    let err = convert_anng_to_onng(&index, GraphOptimParams::default()).err().unwrap();
    assert_eq!(ErrorKind::InvalidState, err.kind);

    let prop = NgtProperties::dimension(1).unwrap().creation_edge_size(20).unwrap();
    let mut index = NgtIndex::new(prop);
    index.insert(vec![1]).unwrap();
    let err = convert_anng_to_onng(&index, GraphOptimParams::default()).err().unwrap();
    assert_eq!(ErrorKind::InvalidState, err.kind);
    index.build(1).unwrap();
    let bad = GraphOptimParams {
        nb_outgoing: -1,
        nb_incoming: 5,
    };
    assert!(convert_anng_to_onng(&index, bad).is_err());
    assert!(convert_anng_to_onng(&index, GraphOptimParams::default()).is_ok());
}

#[test]
fn test_optimize_anng() {
    let mut index = NgtIndex::new(NgtProperties::dimension(3).unwrap());
    for i in 0..1000 {
        let _ = index.insert(vec![i, i + 1, i + 2]).unwrap();
    }
    let bytes = index.to_bytes();
    let mut index = NgtIndex::from_bytes(&bytes).unwrap();
    optimize_anng_edges_number(&mut index, AnngEdgeOptimParams::default()).unwrap();
    let chosen = index.properties().get_creation_edge_size();
    assert!(chosen >= 1 && chosen <= 100);
    assert_eq!(1000, index.nb_inserted());
    assert_eq!(0, index.nb_indexed());

    index.build(4).unwrap();
    optimize_anng_search_parameters(&mut index).unwrap();
    let res = index.search(&vec![10, 11, 12], 1, EPSILON).unwrap();
    assert_eq!(11, res[0].id);
}

#[test]
fn optimize_edges_refuses_a_built_index() {
    let mut index = NgtIndex::new(NgtProperties::dimension(1).unwrap());
    index.insert(vec![1]).unwrap();
    index.build(1).unwrap();
    let err = optimize_anng_edges_number(&mut index, AnngEdgeOptimParams::default()).unwrap_err();
    assert_eq!(ErrorKind::InvalidState, err.kind);

    let mut index = NgtIndex::new(NgtProperties::dimension(1).unwrap());
    index.insert(vec![1]).unwrap();
    let params = AnngEdgeOptimParams {
        nb_edges_max: 0,
        ..AnngEdgeOptimParams::default()
    };
    let err = optimize_anng_edges_number(&mut index, params).unwrap_err();
    assert_eq!(ErrorKind::InvalidState, err.kind);
}

#[test]
fn optimize_edges_stops_at_the_first_count_reaching_the_target() {
    let mut index = NgtIndex::new(NgtProperties::dimension(1).unwrap());
    for i in 0..5 {
        index.insert(vec![i * 10]).unwrap();
    }
    let params = AnngEdgeOptimParams {
        target_accuracy: 0,
        ..AnngEdgeOptimParams::default()
    };
    optimize_anng_edges_number(&mut index, params).unwrap();
    assert_eq!(1, index.properties().get_creation_edge_size());
}
