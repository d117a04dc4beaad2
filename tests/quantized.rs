use ngt::{
    ErrorKind, NgtDistance, NgtIndex, NgtObject, NgtProperties, QgIndex, QgQuantizationParams,
    QgQuery, EPSILON,
};

// Float coordinates are written at a fixed-point scale of 10.

fn sixty_four(prop: NgtProperties, scale: i32) -> (NgtIndex, Vec<u32>) {
    let ndims = 3;
    let mut index = NgtIndex::new(prop);
    let ids = (1..ndims * 64)
        .step_by(ndims as usize)
        .map(|i| (0..ndims).map(|j| (i + j) * scale).collect::<Vec<i32>>())
        .map(|v| index.insert(v).unwrap())
        .collect::<Vec<u32>>();
    index.build(1).unwrap();
    let index = NgtIndex::from_bytes(&index.to_bytes()).unwrap();
    (index, ids)
}

fn params() -> QgQuantizationParams {
    QgQuantizationParams {
        dimension_of_subvector: 1,
        max_number_of_edges: 50,
    }
}

#[test]
fn test_quantize() {
    let mut index = NgtIndex::new(NgtProperties::dimension(3).unwrap());
    let vec1 = vec![10, 20, 30];
    let vec2 = vec![40, 50, 60];
    let id1 = index.insert(vec1.clone()).unwrap();
    let _id2 = index.insert(vec2.clone()).unwrap();
    index.build(1).unwrap();
    let _bytes = index.to_bytes();

    let index = QgIndex::quantize(index, QgQuantizationParams::default()).unwrap();
    let query = QgQuery::new(vec![11, 21, 31]).size(2);
    let res = index.search(&query).unwrap();
    assert_eq!(id1, res[0].id);
    assert_eq!(vec1, index.get_vec(id1).unwrap());
}

#[test]
fn test_qg_f32() {
    let props = NgtProperties::dimension(3)
        .unwrap()
        .distance_type(NgtDistance::L2)
        .unwrap();
    let (index, ids) = sixty_four(props, 10);
    let index = QgIndex::quantize(index, params()).unwrap();
    let v = vec![10, 20, 30];
    let res = index.search(&QgQuery::new(v.clone()).size(3)).unwrap();
    assert!(ids[0] == res[0].id);
    assert!(v == index.get_vec(ids[0]).unwrap());
}

#[test]
fn test_qg_f16() {
    let props = NgtProperties::dimension(3)
        .unwrap()
        .object_type(NgtObject::Float16)
        .unwrap()
        .distance_type(NgtDistance::L2)
        .unwrap();
    let (index, ids) = sixty_four(props, 10);
    let index = QgIndex::quantize(index, params()).unwrap();
    let v = vec![10, 20, 30];
    let res = index.search(&QgQuery::new(v.clone()).size(3)).unwrap();
    assert!(ids[0] == res[0].id);
    assert!(v == index.get_vec(ids[0]).unwrap());
}

#[test]
fn test_qg_u8() {
    let props = NgtProperties::dimension(3)
        .unwrap()
        .object_type(NgtObject::Uint8)
        .unwrap()
        .distance_type(NgtDistance::L2)
        .unwrap();
    let (index, ids) = sixty_four(props, 1);
    let index = QgIndex::quantize(index, params()).unwrap();
    let v = vec![1, 2, 3];
    let res = index.search(&QgQuery::new(v.clone()).size(3)).unwrap();
    assert!(res[0..3].iter().map(|r| r.id).any(|id| id == ids[0]));
    assert!(v == index.get_vec(ids[0]).unwrap());
}

#[test]
fn quantized_search_agrees_with_graph_search_on_top_result() {
    let props = NgtProperties::dimension(3).unwrap();
    let (index, _ids) = sixty_four(props, 10);
    let q = vec![301, 312, 318];
    let plain = index.search(&q, 2, EPSILON).unwrap();
    let index = QgIndex::quantize(index, params()).unwrap();
    let res = index
        .search(&QgQuery::new(q).result_expansion(3).size(2))
        .unwrap();
    assert_eq!(plain[0].id, res[0].id);
}

#[test]
fn quantized_with_wide_subvectors_still_ranks_exactly() {
    let props = NgtProperties::dimension(3).unwrap();
    let (index, ids) = sixty_four(props, 10);
    let index = QgIndex::quantize(
        index,
        QgQuantizationParams {
            dimension_of_subvector: 3,
            max_number_of_edges: 4,
        },
    )
    .unwrap();
    let res = index
        .search(&QgQuery::new(vec![10, 20, 30]).size(1).result_expansion(8))
        .unwrap();
    assert_eq!(ids[0], res[0].id);
    assert_eq!(0, res[0].distance);
}

#[test]
fn quantized_radius_drops_far_results() {
    let props = NgtProperties::dimension(3).unwrap();
    let (index, _ids) = sixty_four(props, 10);
    let index = QgIndex::quantize(index, params()).unwrap();
    let res = index
        .search(&QgQuery::new(vec![11, 21, 31]).size(5).radius(3))
        .unwrap();
    assert_eq!(1, res.len());
    assert_eq!(3, res[0].distance);
}

#[test]
fn quantize_requires_built_l2_index() {
    let mut index = NgtIndex::new(NgtProperties::dimension(2).unwrap());
    index.insert(vec![1, 2]).unwrap();
    let err = QgIndex::quantize(index, params()).err().unwrap();
    assert_eq!(ErrorKind::InvalidState, err.kind);

    let prop = NgtProperties::dimension(2)
        .unwrap()
        .distance_type(NgtDistance::L1)
        .unwrap();
    let mut index = NgtIndex::new(prop);
    index.insert(vec![1, 2]).unwrap();
    index.build(1).unwrap();
    let err = QgIndex::quantize(index, params()).err().unwrap();
    assert_eq!(ErrorKind::InvalidState, err.kind);
}

#[test]
fn quantized_search_errors() {
    let mut index = NgtIndex::new(NgtProperties::dimension(2).unwrap());
    index.insert(vec![1, 2]).unwrap();
    index.build(1).unwrap();
    index.remove(1).unwrap();
    let index = QgIndex::quantize(index, params()).unwrap();
    let err = index.search(&QgQuery::new(vec![1])).unwrap_err();
    assert_eq!(ErrorKind::DimensionMismatch, err.kind);
    let err = index.search(&QgQuery::new(vec![1, 2])).unwrap_err();
    assert_eq!(ErrorKind::InvalidState, err.kind);
    assert_eq!(ErrorKind::NotFound, index.get_vec(1).unwrap_err().kind);
}

#[test]
fn quantized_index_persists_and_reopens() {
    let props = NgtProperties::dimension(3).unwrap();
    let (index, ids) = sixty_four(props, 10);
    let index = QgIndex::quantize(index, params()).unwrap();
    let bytes = index.to_bytes();
    let back = QgIndex::from_bytes(&bytes).unwrap();
    assert_eq!(bytes, back.to_bytes());
    let q = QgQuery::new(vec![11, 21, 31]).size(3);
    assert_eq!(index.search(&q).unwrap(), back.search(&q).unwrap());
    assert_eq!(ids[0], back.search(&q).unwrap()[0].id);

    let mut bad = bytes.clone();
    let n = bad.len();
    bad[n - 8] = 9;
    assert_eq!(ErrorKind::CorruptFormat, QgIndex::from_bytes(&bad).err().unwrap().kind);
    assert_eq!(ErrorKind::CorruptFormat, QgIndex::from_bytes(&vec![1, 2, 3]).err().unwrap().kind);
}
