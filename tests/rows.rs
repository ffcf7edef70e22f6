use barrier_coord::data_chunk::{DataChunk, RowRef};

fn chunk() -> DataChunk {
    DataChunk::try_new(
        vec![
            vec![Some(1), Some(2), None, Some(4)],
            vec![Some(10), Some(20), Some(30), Some(40)],
        ],
        vec![true, false, true, true],
    )
    .unwrap()
}

#[test]
fn mismatched_column_is_refused() {
    assert!(DataChunk::try_new(vec![vec![Some(1)]], vec![true, true]).is_none());
}

#[test]
fn capacity_and_cardinality() {
    let c = chunk();
    assert_eq!(c.capacity(), 4);
    assert_eq!(c.cardinality(), 3);
    assert_eq!(c.next_visible_row_idx(1), Some(2));
    assert_eq!(c.next_visible_row_idx(4), None);
}

#[test]
fn visible_rows_in_order() {
    let c = chunk();
    let mut it = c.rows();
    let mut seen = vec![];
    while let Some(r) = it.next() {
        seen.push(r.index());
    }
    assert_eq!(seen, vec![0, 2, 3]);
    assert!(it.next().is_none());
    assert_eq!(it.size_hint(), (0, Some(0)));
}

#[test]
fn visible_rows_in_range() {
    let c = chunk();
    let mut it = c.rows_in(1..3);
    assert_eq!(it.size_hint(), (0, Some(2)));
    assert_eq!(it.next().map(|r| r.index()), Some(2));
    assert!(it.next().is_none());
    let mut empty = c.rows_in(2..2);
    assert!(empty.next().is_none());
}

#[test]
fn unchecked_rows_count_cardinality() {
    let c = chunk();
    let mut it = c.rows_unchecked();
    assert_eq!(it.size_hint(), (3, Some(3)));
    let mut seen = vec![];
    while let Some(r) = it.next() {
        seen.push(r.index());
    }
    assert_eq!(seen, vec![0, 1, 2]);
}

#[test]
fn rows_with_holes_mark_invisible() {
    let c = chunk();
    let mut it = c.rows_with_holes();
    assert_eq!(it.size_hint(), (4, Some(4)));
    let mut seen = vec![];
    while let Some(r) = it.next() {
        seen.push(r.map(|r| r.index()));
    }
    assert_eq!(seen, vec![Some(0), None, Some(2), Some(3)]);
}

#[test]
fn row_values() {
    let c = chunk();
    let r = RowRef::new(&c, 2);
    assert_eq!(r.index(), 2);
    assert_eq!(r.len(), 2);
    assert_eq!(r.datum_at(0), None);
    assert_eq!(r.datum_at(1), Some(30));
    let mut it = r.iter();
    assert_eq!(it.size_hint(), (2, Some(2)));
    assert_eq!(it.next(), Some(None));
    assert_eq!(it.next(), Some(Some(30)));
    assert_eq!(it.next(), None);
    let other = DataChunk::try_new(vec![vec![None], vec![Some(30)]], vec![true]).unwrap();
    assert!(r.eq(&RowRef::new(&other, 0)));
    assert!(!r.eq(&RowRef::new(&c, 3)));
}
