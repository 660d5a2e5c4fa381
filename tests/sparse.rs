use std::sync::Arc;

use sparse_eigen::cs::{get_entry_from_slices, get_mut_entry_from_slices, CsLaneIter, CsMatrix, SparseEntry, SparseEntryMut};
use sparse_eigen::pattern::{SparsityPattern, SparsityPatternFormatError};

fn sample() -> CsMatrix<i64> {
    // [[1, 0, 2], [0, 0, 0], [0, 3, 4]]
    let p = SparsityPattern::try_from_offsets_and_indices(3, 3, vec![0, 2, 2, 4], vec![0, 2, 1, 2]).unwrap();
    CsMatrix::from_pattern_and_values(Arc::new(p), vec![1, 2, 3, 4])
}

#[test]
fn pattern_errors() {
    assert_eq!(
        SparsityPattern::try_from_offsets_and_indices(2, 3, vec![0, 1], vec![0]).unwrap_err(),
        SparsityPatternFormatError::InvalidOffsetArrayLength
    );
    assert_eq!(
        SparsityPattern::try_from_offsets_and_indices(1, 3, vec![1, 1], vec![0]).unwrap_err(),
        SparsityPatternFormatError::InvalidOffsetFirstLast
    );
    assert_eq!(
        SparsityPattern::try_from_offsets_and_indices(2, 3, vec![0, 1, 2], vec![0]).unwrap_err(),
        SparsityPatternFormatError::InvalidOffsetFirstLast
    );
    assert_eq!(
        SparsityPattern::try_from_offsets_and_indices(3, 3, vec![0, 2, 1, 2], vec![0, 1]).unwrap_err(),
        SparsityPatternFormatError::NonmonotonicOffsets
    );
    assert_eq!(
        SparsityPattern::try_from_offsets_and_indices(1, 3, vec![0, 2], vec![0, 3]).unwrap_err(),
        SparsityPatternFormatError::MinorIndexOutOfBounds
    );
    assert_eq!(
        SparsityPattern::try_from_offsets_and_indices(1, 3, vec![0, 2], vec![1, 1]).unwrap_err(),
        SparsityPatternFormatError::DuplicateEntry
    );
    assert_eq!(
        SparsityPattern::try_from_offsets_and_indices(1, 3, vec![0, 2], vec![2, 1]).unwrap_err(),
        SparsityPatternFormatError::NonmonotonicMinorIndices
    );
    // a decreasing pair across two lanes is fine
    assert!(SparsityPattern::try_from_offsets_and_indices(2, 3, vec![0, 1, 2], vec![2, 1]).is_ok());
}

#[test]
fn new_matrix_is_empty() {
    let m: CsMatrix<i64> = CsMatrix::new(3, 4);
    assert_eq!(m.values().len(), 0);
    assert_eq!(m.pattern().major_dim(), 3);
    assert_eq!(m.pattern().minor_dim(), 4);
    assert_eq!(m.get_entry(2, 3), Some(SparseEntry::Zero));
    assert_eq!(m.get_entry(3, 0), None);
    assert_eq!(m.get_entry(0, 4), None);
}

#[test]
fn entries() {
    let m = sample();
    assert_eq!(m.get_entry(0, 0), Some(SparseEntry::NonZero(&1)));
    assert_eq!(m.get_entry(0, 1), Some(SparseEntry::Zero));
    assert_eq!(m.get_entry(0, 2), Some(SparseEntry::NonZero(&2)));
    assert_eq!(m.get_entry(1, 1), Some(SparseEntry::Zero));
    assert_eq!(m.get_entry(2, 1), Some(SparseEntry::NonZero(&3)));
    assert_eq!(m.get_entry(2, 2), Some(SparseEntry::NonZero(&4)));
    assert_eq!(m.get_entry(2, 3), None);
    assert_eq!(m.get_entry(3, 0), None);
}

#[test]
fn entry_mut_changes_value() {
    let mut m = sample();
    match m.get_entry_mut(2, 1) {
        Some(SparseEntryMut::NonZero(v)) => *v = 30,
        _ => panic!("expected a stored entry"),
    }
    assert!(matches!(m.get_entry_mut(1, 0), Some(SparseEntryMut::Zero)));
    assert!(m.get_entry_mut(0, 3).is_none());
    assert_eq!(m.values(), &[1, 2, 30, 4]);
}

#[test]
fn index_ranges_and_data() {
    let m = sample();
    assert_eq!(m.get_index_range(0), Some(0..2));
    assert_eq!(m.get_index_range(1), Some(2..2));
    assert_eq!(m.get_index_range(2), Some(2..4));
    assert_eq!(m.get_index_range(3), None);
    let (o, i, v) = m.cs_data();
    assert_eq!(o, &[0, 2, 2, 4]);
    assert_eq!(i, &[0, 2, 1, 2]);
    assert_eq!(v, &[1, 2, 3, 4]);
}

#[test]
fn lanes() {
    let m = sample();
    let lane = m.get_lane(2).unwrap();
    assert_eq!(lane.minor_indices(), &[1, 2]);
    assert_eq!(lane.values(), &[3, 4]);
    assert_eq!(lane.nnz(), 2);
    assert_eq!(lane.minor_dim(), 3);
    assert_eq!(lane.get_entry(0), Some(SparseEntry::Zero));
    assert_eq!(lane.get_entry(2), Some(SparseEntry::NonZero(&4)));
    assert!(m.get_lane(3).is_none());
    assert_eq!(m.get_lane(1).unwrap().nnz(), 0);
}

#[test]
fn lane_mut() {
    let mut m = sample();
    {
        let mut lane = m.get_lane_mut(0).unwrap();
        lane.values_mut()[1] = 20;
        match lane.get_entry_mut(0) {
            Some(SparseEntryMut::NonZero(v)) => *v = 10,
            _ => panic!("expected a stored entry"),
        }
        let (idx, vals) = lane.indices_and_values_mut();
        assert_eq!(idx, &[0, 2]);
        vals[0] += 1;
    }
    assert_eq!(m.values(), &[11, 20, 3, 4]);
    assert!(m.get_lane_mut(5).is_none());
}

#[test]
fn lane_iteration() {
    let m = sample();
    let mut it = m.lane_iter();
    let l0 = it.next().unwrap();
    assert_eq!(l0.values(), &[1, 2]);
    let l1 = it.next().unwrap();
    assert_eq!(l1.nnz(), 0);
    let l2 = it.next().unwrap();
    assert_eq!(l2.minor_indices(), &[1, 2]);
    assert_eq!(l2.values(), &[3, 4]);
    assert!(it.next().is_none());
    assert!(it.next().is_none());
}

#[test]
fn lane_iteration_from_parts() {
    let p = SparsityPattern::try_from_offsets_and_indices(2, 2, vec![0, 1, 2], vec![1, 0]).unwrap();
    let vals = [7i64, 8];
    let mut it = CsLaneIter::new(&p, &vals);
    assert_eq!(it.next().unwrap().get_entry(1), Some(SparseEntry::NonZero(&7)));
    assert_eq!(it.next().unwrap().get_entry(0), Some(SparseEntry::NonZero(&8)));
    assert!(it.next().is_none());
}

#[test]
fn lane_iteration_mut() {
    let mut m = sample();
    {
        let mut it = m.lane_iter_mut();
        while let Some(mut lane) = it.next() {
            for v in lane.values_mut().iter_mut() {
                *v *= 2;
            }
        }
    }
    assert_eq!(m.values(), &[2, 4, 6, 8]);
}

#[test]
fn identity_matrix() {
    let m: CsMatrix<i64> = CsMatrix::identity(3);
    let (o, i, v) = m.disassemble();
    assert_eq!(o, vec![0, 1, 2, 3]);
    assert_eq!(i, vec![0, 1, 2]);
    assert_eq!(v, vec![1, 1, 1]);
    let e: CsMatrix<u32> = CsMatrix::identity(0);
    assert_eq!(e.values().len(), 0);
}

#[test]
fn identity_entries() {
    let m: CsMatrix<i32> = CsMatrix::identity(2);
    assert_eq!(m.get_entry(1, 1), Some(SparseEntry::NonZero(&1)));
    assert_eq!(m.get_entry(0, 1), Some(SparseEntry::Zero));
}

#[test]
fn disassemble_shared_pattern() {
    let m = sample();
    let shared = m.pattern().clone();
    let (o, i, v) = m.disassemble();
    assert_eq!(o, vec![0, 2, 2, 4]);
    assert_eq!(i, vec![0, 2, 1, 2]);
    assert_eq!(v, vec![1, 2, 3, 4]);
    assert_eq!(shared.nnz(), 4);
}

#[test]
fn take_parts_and_values_mut() {
    let mut m = sample();
    m.values_mut()[3] = 40;
    {
        let (p, vals) = m.pattern_and_values_mut();
        assert_eq!(p.nnz(), 4);
        vals[0] = -1;
    }
    {
        let (_, _, vals) = m.cs_data_mut();
        vals[1] = -2;
    }
    let (p, v) = m.take_pattern_and_values();
    assert_eq!(v, vec![-1, -2, 3, 40]);
    assert_eq!(p.major_offsets(), &[0, 2, 2, 4]);
}

#[test]
fn slices_lookup() {
    let idx = [1usize, 4, 6];
    let vals = ['a', 'b', 'c'];
    assert_eq!(get_entry_from_slices(8, &idx, &vals, 4), Some(SparseEntry::NonZero(&'b')));
    assert_eq!(get_entry_from_slices(8, &idx, &vals, 5), Some(SparseEntry::Zero));
    assert_eq!(get_entry_from_slices(8, &idx, &vals, 9), None);
    let mut vals = [10, 20, 30];
    if let Some(SparseEntryMut::NonZero(v)) = get_mut_entry_from_slices(8, &idx, &mut vals, 6) {
        *v = 31;
    }
    assert_eq!(vals, [10, 20, 31]);
}

#[test]
fn empty_pattern() {
    let p = SparsityPattern::new(2, 5);
    assert_eq!(p.major_offsets(), &[0, 0, 0]);
    assert_eq!(p.get_lane(1), Some(&[][..]));
    assert_eq!(p.get_lane(2), None);
    let (o, i) = p.disassemble();
    assert_eq!(o, vec![0, 0, 0]);
    assert!(i.is_empty());
}

#[test]
fn filter_keeps_matching_entries() {
    let m = sample();
    let f = m.filter(|_, _, v| *v % 2 == 0);
    let (o, i, v) = f.disassemble();
    assert_eq!(o, vec![0, 1, 1, 2]);
    assert_eq!(i, vec![2, 2]);
    assert_eq!(v, vec![2, 4]);
}

#[test]
fn filter_by_position() {
    let m = sample();
    let lower = m.filter(|i, j, _| j <= i);
    assert_eq!(lower.get_entry(0, 0), Some(SparseEntry::NonZero(&1)));
    assert_eq!(lower.get_entry(0, 2), Some(SparseEntry::Zero));
    assert_eq!(lower.get_entry(2, 1), Some(SparseEntry::NonZero(&3)));
    assert_eq!(lower.get_entry(2, 2), Some(SparseEntry::NonZero(&4)));
    assert_eq!(lower.get_entry(3, 0), None);
    let none = m.filter(|_, _, _| false);
    assert_eq!(none.values().len(), 0);
    assert_eq!(none.pattern().major_dim(), 3);
    let all = m.filter(|_, _, _| true);
    assert_eq!(all.values(), &[1, 2, 3, 4]);
}
