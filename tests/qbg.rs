use ngt::{ErrorKind, QbgBuildParams, QbgConstructParams, QbgIndex, QbgQuery};

// Float coordinates are written at a fixed-point scale of 10.

fn sixty_four<T: ngt::QbgObjectType>(
    index: &mut QbgIndex<T, ngt::ModeWrite>,
    scale: i32,
) -> Vec<u32> {
    let ndims = 3;
    (1..ndims * 64)
        .step_by(ndims as usize)
        .map(|i| (0..ndims).map(|j| (i + j) * scale).collect::<Vec<i32>>())
        .map(|v| index.insert(v).unwrap())
        .collect()
}

#[test]
fn test_qbg_f32() {
    let mut index = QbgIndex::create(QbgConstructParams::<i32>::dimension(3)).unwrap();
    let ids = sixty_four(&mut index, 10);
    index.build(QbgBuildParams::default()).unwrap();
    let _bytes = index.persist();
    let index = index.into_readable().unwrap();

    let v = vec![10, 20, 30];
    let res = index.search(QbgQuery::new(v.clone()).size(2)).unwrap();
    assert_eq!(ids[0], res[0].id);
    assert_eq!(v, index.get_vec(ids[0]).unwrap());
}

#[test]
fn test_qbg_f16() {
    let mut index = QbgIndex::create(QbgConstructParams::<i32>::dimension(3)).unwrap();
    let ids = sixty_four(&mut index, 10);
    index.build(QbgBuildParams::default()).unwrap();
    let _bytes = index.persist();
    let index = index.into_readable().unwrap();

    let v = vec![10, 20, 30];
    let res = index.search(QbgQuery::new(v.clone()).size(2)).unwrap();
    assert_eq!(ids[0], res[0].id);
    assert_eq!(v, index.get_vec(ids[0]).unwrap());
}

#[test]
fn test_qbg_u8() {
    let mut index = QbgIndex::create(QbgConstructParams::<u8>::dimension(3)).unwrap();
    let ids = sixty_four(&mut index, 1);
    index.build(QbgBuildParams::default()).unwrap();
    let _bytes = index.persist();
    let index = index.into_readable().unwrap();

    let v = vec![1, 2, 3];
    let res = index.search(QbgQuery::new(v.clone()).size(3)).unwrap();
    assert!(res[0..3].iter().map(|r| r.id).any(|id| id == ids[0]));
    assert!(v == index.get_vec(ids[0]).unwrap());
}

#[test]
fn qbg_modes_round_trip() {
    let mut index = QbgIndex::create(QbgConstructParams::<u8>::dimension(2).number_of_subvectors(2))
        .unwrap();
    assert_eq!(ErrorKind::CapacityExceeded, index.insert(vec![1, 300]).unwrap_err().kind);
    index.insert(vec![1, 2]).unwrap();
    let index = match index.into_readable() {
        Ok(_) => panic!("an unbuilt index cannot be quantized"),
        Err(e) => {
            assert_eq!(ErrorKind::InvalidState, e.kind);
            QbgIndex::create(QbgConstructParams::<u8>::dimension(2)).unwrap()
        }
    };
    let mut index = index;
    index.insert(vec![5, 5]).unwrap();
    index.build(QbgBuildParams::default()).unwrap();
    let readable = index.into_readable().unwrap();
    let mut writable = readable.into_writable().unwrap();
    assert_eq!(2, writable.insert(vec![6, 6]).unwrap());
    assert_eq!(vec![5, 5], writable.get_vec(1).unwrap());
    assert!(QbgIndex::create(QbgConstructParams::<u8>::dimension(1 << 40)).is_err());
}

#[test]
fn qbg_readable_persists_and_opens() {
    let mut index = QbgIndex::create(QbgConstructParams::<i32>::dimension(3)).unwrap();
    let ids = sixty_four(&mut index, 10);
    index.build(QbgBuildParams::default()).unwrap();
    let readable = index.into_readable().unwrap();
    let bytes = readable.persist();
    let opened: QbgIndex<i32, ngt::ModeRead> = QbgIndex::open(&bytes).unwrap();
    let res = opened.search(QbgQuery::new(vec![10, 20, 30]).size(2)).unwrap();
    assert_eq!(ids[0], res[0].id);
}
