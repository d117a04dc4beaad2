use ngt::{ErrorKind, NgtIndex, NgtObject, NgtProperties, NgtQuery, EPSILON, EPSILON_EXHAUSTIVE};

// Float coordinates are written at a fixed-point scale of 10:
// [1.0, 2.0, 3.0] is [10, 20, 30] and [1.1, 2.1, 3.1] is [11, 21, 31].

fn new_index(dim: usize) -> NgtIndex {
    NgtIndex::new(NgtProperties::dimension(dim).unwrap())
}

fn reopen(index: &NgtIndex) -> NgtIndex {
    NgtIndex::from_bytes(&index.to_bytes()).unwrap()
}

fn basics() {
    let mut index = new_index(3);

    let vec1 = vec![10, 20, 30];
    let vec2 = vec![40, 50, 60];
    let id1 = index.insert(vec1.clone()).unwrap();
    let id2 = index.insert(vec2.clone()).unwrap();
    assert!(index.nb_inserted() == 2);
    assert!(index.nb_indexed() == 0);

    index.build(2).unwrap();
    assert!(index.nb_inserted() == 2);
    assert!(index.nb_indexed() == 2);

    let res = index.search(&vec![11, 21, 31], 1, EPSILON).unwrap();
    assert_eq!(id1, res[0].id);
    assert_eq!(vec1, index.get_vec(id1).unwrap());

    let res = index.linear_search(&vec![11, 21, 31], 1).unwrap();
    assert_eq!(id1, res[0].id);
    assert_eq!(vec1, index.get_vec(id1).unwrap());

    index.remove(id1).unwrap();
    let res = index.get_vec(id1);
    assert!(res.is_err());
    assert!(index.nb_inserted() == 1);
    assert!(index.nb_indexed() == 1);

    let res = index.search(&vec![11, 21, 31], 1, EPSILON).unwrap();
    assert_eq!(id2, res[0].id);
    assert_eq!(vec2, index.get_vec(id2).unwrap());

    let index = reopen(&index);
    assert!(index.nb_inserted() == 1);
    assert!(index.nb_indexed() == 1);

    let res = index.get_vec(id1);
    assert!(res.is_err());

    let res = index.search(&vec![11, 21, 31], 1, EPSILON).unwrap();
    assert_eq!(id2, res[0].id);
    assert_eq!(vec2, index.get_vec(id2).unwrap());
}

#[test]
fn test_basics() {
    basics();
}

#[test]
fn test_ngt_f32_basics() {
    basics();
}

#[test]
fn test_batch() {
    let mut index = new_index(3);
    index.insert_batch(vec![vec![10, 20, 30], vec![40, 50, 60]]).unwrap();
    index.build(2).unwrap();
    let _bytes = index.to_bytes();

    let res = index.search(&vec![11, 21, 31], 1, EPSILON).unwrap();
    assert_eq!(1, res[0].id);
}

#[test]
fn test_ngt_batch() {
    let mut index = new_index(3);
    index.insert_batch(vec![vec![10, 20, 30], vec![40, 50, 60]]).unwrap();
    index.build(2).unwrap();
    let index = reopen(&index);

    let res = index.search(&vec![11, 21, 31], 1, EPSILON).unwrap();
    assert_eq!(1, res[0].id);
}

fn six_vectors() -> Vec<Vec<i32>> {
    vec![
        vec![10, 20, 30],
        vec![40, 50, 60],
        vec![70, 80, 90],
        vec![80, 70, 60],
        vec![50, 40, 30],
        vec![20, 10, 60],
    ]
}

// Searches only read the index, so they may share it; here they run one
// after another.
fn many_searches() {
    let mut index = new_index(3);
    let vecs = six_vectors();
    index.insert_batch(vecs.clone()).unwrap();
    index.build(2).unwrap();
    let _bytes = index.to_bytes();

    for _ in 0..10_000 {
        for v in &vecs {
            let q: Vec<i32> = v.iter().map(|x| x + 1).collect();
            let res = index.search(&q, 2, EPSILON).unwrap();
            assert_eq!(2, res.len());
        }
    }
}

#[test]
fn test_multithreaded() {
    many_searches();
}

#[test]
fn test_ngt_multithreaded() {
    many_searches();
}

#[test]
fn test_ngt_u8() {
    let prop = NgtProperties::dimension(3)
        .unwrap()
        .object_type(NgtObject::Uint8)
        .unwrap();
    let mut index = NgtIndex::new(prop);
    index.insert_batch(vec![vec![1, 2, 3], vec![4, 5, 6]]).unwrap();
    index.insert(vec![7, 8, 9]).unwrap();
    index.build(2).unwrap();
    let index = reopen(&index);

    let res = index.search(&vec![1, 2, 3], 1, EPSILON).unwrap();
    assert_eq!(1, res[0].id);
}

#[test]
fn test_ngt_f16() {
    let prop = NgtProperties::dimension(3)
        .unwrap()
        .object_type(NgtObject::Float16)
        .unwrap();
    let mut index = NgtIndex::new(prop);
    index.insert_batch(vec![vec![10, 20, 30], vec![40, 50, 60]]).unwrap();
    index.insert(vec![70, 80, 90]).unwrap();
    index.build(2).unwrap();
    let index = reopen(&index);

    let res = index.search(&vec![11, 21, 31], 1, EPSILON).unwrap();
    assert_eq!(1, res[0].id);
}

#[test]
fn test_incremental_insert_and_build() {
    let mut index = new_index(3);
    for i in 0..120u32 {
        let id = index.insert(vec![10, 20, 30]).unwrap();
        assert_eq!(i + 1, id);
        index.build(1).unwrap();
        let _bytes = index.to_bytes();
    }
    assert_eq!(120, index.nb_indexed());
}

#[test]
fn insert_rejects_wrong_dimension() {
    let mut index = new_index(3);
    let err = index.insert(vec![1, 2]).unwrap_err();
    assert_eq!(ErrorKind::DimensionMismatch, err.kind);
    assert_eq!(0, index.nb_inserted());
}

#[test]
fn insert_rejects_value_outside_payload_type() {
    let prop = NgtProperties::dimension(2)
        .unwrap()
        .object_type(NgtObject::Uint8)
        .unwrap();
    let mut index = NgtIndex::new(prop);
    let err = index.insert(vec![1, 256]).unwrap_err();
    assert_eq!(ErrorKind::CapacityExceeded, err.kind);
    let err = index.insert(vec![-1, 0]).unwrap_err();
    assert_eq!(ErrorKind::CapacityExceeded, err.kind);
    assert_eq!(1, index.insert(vec![0, 255]).unwrap());
}

#[test]
fn insert_batch_with_inconsistent_lengths_changes_nothing() {
    let mut index = new_index(3);
    index.insert(vec![1, 2, 3]).unwrap();
    let err = index
        .insert_batch(vec![vec![1, 2, 3], vec![4, 5], vec![6, 7, 8]])
        .unwrap_err();
    assert_eq!(ErrorKind::DimensionMismatch, err.kind);
    assert_eq!(1, index.nb_inserted());
    assert_eq!(2, index.insert(vec![9, 9, 9]).unwrap());
}

#[test]
fn insert_batch_empty_is_ok() {
    let mut index = new_index(3);
    index.insert_batch(vec![]).unwrap();
    assert_eq!(0, index.nb_inserted());
}

#[test]
fn remove_unknown_id_is_not_found() {
    let mut index = new_index(2);
    assert_eq!(ErrorKind::NotFound, index.remove(1).unwrap_err().kind);
    index.insert(vec![1, 1]).unwrap();
    assert_eq!(ErrorKind::NotFound, index.remove(0).unwrap_err().kind);
    index.remove(1).unwrap();
    assert_eq!(ErrorKind::NotFound, index.remove(1).unwrap_err().kind);
    assert_eq!(ErrorKind::NotFound, index.get_vec(1).unwrap_err().kind);
}

#[test]
fn search_before_build_is_invalid_state() {
    let mut index = new_index(2);
    index.insert(vec![1, 1]).unwrap();
    let err = index.search(&vec![1, 1], 1, EPSILON).unwrap_err();
    assert_eq!(ErrorKind::InvalidState, err.kind);
    let err = index.search(&vec![1], 1, EPSILON).unwrap_err();
    assert_eq!(ErrorKind::DimensionMismatch, err.kind);
}

#[test]
fn search_with_k_zero_is_empty() {
    let mut index = new_index(2);
    index.insert(vec![1, 1]).unwrap();
    index.build(1).unwrap();
    assert!(index.search(&vec![1, 1], 0, EPSILON).unwrap().is_empty());
    assert!(index.linear_search(&vec![1, 1], 0).unwrap().is_empty());
}

#[test]
fn scenario_remove_changes_nearest() {
    let mut index = new_index(3);
    let id1 = index.insert(vec![10, 20, 30]).unwrap();
    let id2 = index.insert(vec![40, 50, 60]).unwrap();
    index.build(2).unwrap();
    let res = index.search(&vec![11, 21, 31], 1, EPSILON).unwrap();
    assert_eq!(1, res.len());
    assert_eq!(id1, res[0].id);
    // squared distance 3 at scale 10: a Euclidean distance of about 0.17
    assert_eq!(3, res[0].distance);
    index.remove(id1).unwrap();
    let res = index.search(&vec![11, 21, 31], 1, EPSILON).unwrap();
    assert_eq!(id2, res[0].id);
    assert_eq!(29 * 29 * 3, res[0].distance);
    assert_eq!(ErrorKind::NotFound, index.get_vec(id1).unwrap_err().kind);
}

#[test]
fn scenario_batch_persist_reopen() {
    let mut index = new_index(3);
    index.insert_batch(vec![vec![10, 20, 30], vec![40, 50, 60]]).unwrap();
    index.build(2).unwrap();
    let bytes = index.to_bytes();
    let index = NgtIndex::from_bytes(&bytes).unwrap();
    let res = index.search(&vec![11, 21, 31], 1, EPSILON).unwrap();
    assert_eq!(1, res[0].id);
}

#[test]
fn self_query_finds_itself() {
    let mut index = new_index(4);
    let mut ids = vec![];
    for i in 0..50i32 {
        ids.push(index.insert(vec![i, 2 * i % 7, 100 - i, i * i % 13]).unwrap());
    }
    index.build(1).unwrap();
    for (i, id) in ids.iter().enumerate() {
        let v = index.get_vec(*id).unwrap();
        let res = index.search(&v, 1, EPSILON).unwrap();
        assert_eq!(0, res[0].distance, "vector {}", i);
        assert_eq!(*id, res[0].id);
        let lin = index.linear_search(&v, 1).unwrap();
        assert_eq!(*id, lin[0].id);
    }
}

#[test]
fn linear_and_graph_search_agree_on_top_result() {
    let mut index = new_index(3);
    for i in 0..60i32 {
        index.insert(vec![(i * 37) % 101, (i * 17) % 53, (i * 7) % 29]).unwrap();
    }
    index.build(2).unwrap();
    for j in 0..20i32 {
        let q = vec![(j * 11) % 101, (j * 5) % 53, (j * 3) % 29];
        let lin = index.linear_search(&q, 1).unwrap();
        let res = index.search(&q, 1, 1000).unwrap();
        assert_eq!(lin[0].id, res[0].id);
        assert_eq!(lin[0].distance, res[0].distance);
    }
}

#[test]
fn linear_search_is_exact_and_sorted() {
    let mut index = new_index(1);
    for x in [5, 1, 9, 3, 7] {
        index.insert(vec![x]).unwrap();
    }
    index.remove(3).unwrap();
    let res = index.linear_search(&vec![4], 3).unwrap();
    let ids: Vec<u32> = res.iter().map(|r| r.id).collect();
    let dists: Vec<u128> = res.iter().map(|r| r.distance).collect();
    assert_eq!(vec![1, 4, 2], ids);
    assert_eq!(vec![1, 1, 9], dists);
}

#[test]
fn distances_l1_and_hamming() {
    let prop = NgtProperties::dimension(3)
        .unwrap()
        .distance_type(ngt::NgtDistance::L1)
        .unwrap();
    let mut index = NgtIndex::new(prop);
    index.insert(vec![1, -2, 3]).unwrap();
    let res = index.linear_search(&vec![0, 0, 0], 1).unwrap();
    assert_eq!(6, res[0].distance);

    let prop = NgtProperties::dimension(3)
        .unwrap()
        .distance_type(ngt::NgtDistance::Hamming)
        .unwrap();
    let mut index = NgtIndex::new(prop);
    index.insert(vec![1, 2, 3]).unwrap();
    let res = index.linear_search(&vec![1, 0, 3], 1).unwrap();
    assert_eq!(1, res[0].distance);
}

#[test]
fn persisted_form_round_trips_and_rejects_damage() {
    let mut index = new_index(2);
    index.insert_batch(vec![vec![-5, 7], vec![3, 3], vec![0, 1]]).unwrap();
    index.build(1).unwrap();
    index.remove(2).unwrap();
    let bytes = index.to_bytes();
    let back = NgtIndex::from_bytes(&bytes).unwrap();
    assert_eq!(bytes, back.to_bytes());
    assert_eq!(vec![-5, 7], back.get_vec(1).unwrap());
    assert!(back.get_vec(2).is_err());

    let mut short = bytes.clone();
    short.pop();
    assert_eq!(ErrorKind::CorruptFormat, NgtIndex::from_bytes(&short).err().unwrap().kind);
    let mut bad = bytes.clone();
    bad[28] = 2;
    assert_eq!(ErrorKind::CorruptFormat, NgtIndex::from_bytes(&bad).err().unwrap().kind);
    assert_eq!(ErrorKind::CorruptFormat, NgtIndex::from_bytes(&vec![]).err().unwrap().kind);
}

#[test]
fn search_query_with_radius_and_edge_size() {
    let mut index = new_index(1);
    for x in [0, 10, 20, 30, 40] {
        index.insert(vec![x]).unwrap();
    }
    index.build(1).unwrap();
    let q = NgtQuery::new(vec![12]).size(3).epsilon(EPSILON_EXHAUSTIVE).radius(100);
    let res = index.search_query(&q).unwrap();
    let ids: Vec<u32> = res.iter().map(|r| r.id).collect();
    assert_eq!(vec![2, 3], ids);
    assert_eq!(vec![4, 64], res.iter().map(|r| r.distance).collect::<Vec<u128>>());

    let q = NgtQuery::new(vec![12]).size(2).edge_size(1);
    let res = index.search_query(&q).unwrap();
    assert_eq!(2, res.len());
    assert_eq!(2, res[0].id);

    let q = NgtQuery::new(vec![12]).radius(1);
    assert!(index.search_query(&q).unwrap().is_empty());
    let q = NgtQuery::new(vec![1, 2]);
    assert_eq!(ErrorKind::DimensionMismatch, index.search_query(&q).unwrap_err().kind);
}

#[test]
fn repeated_searches_and_reopened_index_agree() {
    let mut index = new_index(2);
    for i in 0..40i32 {
        index.insert(vec![(i * 17) % 23, (i * 5) % 19]).unwrap();
    }
    index.build(1).unwrap();
    let reopened = reopen(&index);
    for j in 0..10i32 {
        let q = vec![j, 2 * j];
        let a = index.search(&q, 3, EPSILON).unwrap();
        let b = index.search(&q, 3, EPSILON).unwrap();
        let c = reopened.search(&q, 3, EPSILON).unwrap();
        let d = index
            .search_query(&NgtQuery::new(q.clone()).size(3))
            .unwrap();
        assert_eq!(a, b);
        assert_eq!(a, c);
        assert_eq!(a, d);
    }
}

#[test]
fn dimension_zero_index() {
    let mut index = new_index(0);
    let id = index.insert(vec![]).unwrap();
    index.build(1).unwrap();
    let res = index.search(&vec![], 1, EPSILON).unwrap();
    assert_eq!(id, res[0].id);
    assert_eq!(0, res[0].distance);
    let back = reopen(&index);
    assert_eq!(1, back.nb_indexed());
}

#[test]
fn build_links_every_later_node() {
    let mut index = new_index(1);
    for x in [3, 1, 4, 1, 5] {
        index.insert(vec![x]).unwrap();
    }
    index.build(1).unwrap();
    let bytes = index.to_bytes();
    // each record: live flag, one coordinate, then the edge count
    for s in 1..5usize {
        let count_at = 28 + s * 4 * (2 + 1 + 10) + 8;
        assert!(bytes[count_at] >= 1);
    }
}
