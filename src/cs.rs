use crate::pattern::{pattern_valid, sorted_between, SparsityPattern};
use std::ops::Range;
use std::sync::Arc;
use vstd::prelude::*;

verus! {

/// An entry of a sparse matrix: a stored value, or an implicit zero.
#[derive(Debug, PartialEq, Eq)]
pub enum SparseEntry<'a, T> {
    NonZero(&'a T),
    Zero,
}

/// A mutable entry of a sparse matrix: a stored value, or an implicit zero.
#[derive(Debug, PartialEq, Eq)]
pub enum SparseEntryMut<'a, T> {
    NonZero(&'a mut T),
    Zero,
}

/// Minor index `j` is stored at local position `k` of the lane `indices`.
pub open spec fn stored_at(indices: Seq<usize>, j: int, k: int) -> bool {
    0 <= k < indices.len() && indices[k] == j
}

/// What looking up minor index `j` in a lane with these indices and values gives:
/// the stored value, a zero inside the minor dimension, or nothing outside it.
pub open spec fn lane_lookup<T>(
    minor_dim: nat,
    indices: Seq<usize>,
    values: Seq<T>,
    j: int,
) -> Option<Option<T>> {
    if exists|k: int| stored_at(indices, j, k) {
        Some(Some(values[choose|k: int| stored_at(indices, j, k)]))
    } else if j < minor_dim {
        Some(None)
    } else {
        None
    }
}

/// The value that an entry refers to, as `lane_lookup` describes it.
pub open spec fn entry_value<T>(e: Option<SparseEntry<'_, T>>) -> Option<Option<T>> {
    match e {
        Some(SparseEntry::NonZero(v)) => Some(Some(*v)),
        Some(SparseEntry::Zero) => Some(None),
        None => None,
    }
}

/// Local position of `j` among strictly increasing `indices`, found by bisection.
fn search_sorted(indices: &[usize], j: usize) -> (r: Option<usize>)
    requires
        sorted_between(indices@, 0, indices@.len() as int),
    ensures
        r matches Some(k) ==> stored_at(indices@, j as int, k as int),
        r is None ==> !exists|k: int| stored_at(indices@, j as int, k),
{
    let mut lo: usize = 0;
    let mut hi: usize = indices.len();
    while lo < hi
        invariant
            sorted_between(indices@, 0, indices@.len() as int),
            lo <= hi <= indices@.len(),
            forall|k: int| 0 <= k < lo ==> #[trigger] indices@[k] < j,
            forall|k: int| hi <= k < indices@.len() ==> #[trigger] indices@[k] > j,
        decreases hi - lo,
    {
        let mid = lo + (hi - lo) / 2;
        if indices[mid] == j {
            return Some(mid);
        } else if indices[mid] < j {
            lo = mid + 1;
        } else {
            hi = mid;
        }
    }
    None
}

/// The entry at minor index `j` of a lane with these indices and values.
pub fn get_entry_from_slices<'a, T>(
    minor_dim: usize,
    minor_indices: &'a [usize],
    values: &'a [T],
    global_minor_index: usize,
) -> (r: Option<SparseEntry<'a, T>>)
    requires
        minor_indices@.len() == values@.len(),
        sorted_between(minor_indices@, 0, minor_indices@.len() as int),
    ensures
        entry_value(r) == lane_lookup(
            minor_dim as nat,
            minor_indices@,
            values@,
            global_minor_index as int,
        ),
{
    match search_sorted(minor_indices, global_minor_index) {
        Some(k) => {
            proof {
                unique_position(minor_indices@, global_minor_index as int, k as int);
            }
            Some(SparseEntry::NonZero(&values[k]))
        },
        None => {
            if global_minor_index < minor_dim {
                Some(SparseEntry::Zero)
            } else {
                None
            }
        },
    }
}

/// The entry at minor index `j` of a lane with these indices and values, through which
/// a stored value can be changed.
pub fn get_mut_entry_from_slices<'a, T>(
    minor_dim: usize,
    minor_indices: &'a [usize],
    values: &'a mut [T],
    global_minor_indices: usize,
) -> (r: Option<SparseEntryMut<'a, T>>)
    requires
        minor_indices@.len() == old(values)@.len(),
        sorted_between(minor_indices@, 0, minor_indices@.len() as int),
    ensures
        r is None <==> lane_lookup(minor_dim as nat, minor_indices@, old(values)@, global_minor_indices as int) is None,
        r matches Some(SparseEntryMut::Zero) ==> lane_lookup(
            minor_dim as nat,
            minor_indices@,
            old(values)@,
            global_minor_indices as int,
        ) == Some(None::<T>) && final(values)@ == old(values)@,
        r is None ==> final(values)@ == old(values)@,
        r matches Some(SparseEntryMut::NonZero(v)) ==> exists|k: int|
            stored_at(minor_indices@, global_minor_indices as int, k) && *v == old(values)@[k]
                && final(values)@ == old(values)@.update(k, *final(v)),
{
    match search_sorted(minor_indices, global_minor_indices) {
        Some(k) => {
            proof {
                unique_position(minor_indices@, global_minor_indices as int, k as int);
            }
            let (_, rest) = values.split_at_mut(k);
            let v = rest.first_mut().unwrap();
            Some(SparseEntryMut::NonZero(v))
        },
        None => {
            if global_minor_indices < minor_dim {
                Some(SparseEntryMut::Zero)
            } else {
                None
            }
        },
    }
}

/// Relies on `Arc::try_unwrap`: the pattern itself when this is its only reference,
/// otherwise the reference handed back.
#[verifier::external_body]
fn try_unwrap_pattern(p: Arc<SparsityPattern>) -> (r: Result<SparsityPattern, Arc<SparsityPattern>>)
    ensures
        match r {
            Ok(t) => t == *p,
            Err(a) => a == p,
        },
{
    Arc::try_unwrap(p)
}

/// A lane of a compressed matrix: its sorted minor indices and their values.
#[derive(Debug, Clone, PartialEq, Eq)]
pub struct CsLane<'a, T> {
    minor_dim: usize,
    minor_indices: &'a [usize],
    values: &'a [T],
}

/// A lane of a compressed matrix whose values can be changed.
#[derive(Debug, PartialEq, Eq)]
pub struct CsLaneMut<'a, T> {
    minor_dim: usize,
    minor_indices: &'a [usize],
    values: &'a mut [T],
}

/// The minor indices of a lane are strictly increasing, below the minor dimension,
/// and as many as its values.
pub open spec fn lane_valid<T>(minor_dim: nat, indices: Seq<usize>, values: Seq<T>) -> bool {
    &&& indices.len() == values.len()
    &&& sorted_between(indices, 0, indices.len() as int)
    &&& forall|k: int| 0 <= k < indices.len() ==> #[trigger] indices[k] < minor_dim
}

impl<'a, T> CsLane<'a, T> {
    pub closed spec fn minor(&self) -> nat {
        self.minor_dim as nat
    }

    pub closed spec fn indices(&self) -> Seq<usize> {
        self.minor_indices@
    }

    pub closed spec fn values_view(&self) -> Seq<T> {
        self.values@
    }

    pub open spec fn wf(&self) -> bool {
        lane_valid(self.minor(), self.indices(), self.values_view())
    }

    pub fn minor_dim(&self) -> (r: usize)
        ensures
            r == self.minor(),
    {
        self.minor_dim
    }

    pub fn nnz(&self) -> (r: usize)
        ensures
            r == self.indices().len(),
    {
        self.minor_indices.len()
    }

    pub fn minor_indices(&self) -> (r: &[usize])
        ensures
            r@ == self.indices(),
    {
        self.minor_indices
    }

    pub fn values(&self) -> (r: &[T])
        ensures
            r@ == self.values_view(),
    {
        self.values
    }

    /// The entry at minor index `global_col_index` of this lane.
    pub fn get_entry(&self, global_col_index: usize) -> (r: Option<SparseEntry<'_, T>>)
        requires
            self.wf(),
        ensures
            entry_value(r) == lane_lookup(
                self.minor(),
                self.indices(),
                self.values_view(),
                global_col_index as int,
            ),
    {
        get_entry_from_slices(self.minor_dim, self.minor_indices, self.values, global_col_index)
    }
}

impl<'a, T> CsLaneMut<'a, T> {
    pub closed spec fn minor(&self) -> nat {
        self.minor_dim as nat
    }

    pub closed spec fn indices(&self) -> Seq<usize> {
        self.minor_indices@
    }

    pub closed spec fn values_view(&self) -> Seq<T> {
        self.values@
    }

    pub open spec fn wf(&self) -> bool {
        lane_valid(self.minor(), self.indices(), self.values_view())
    }

    pub fn minor_dim(&self) -> (r: usize)
        ensures
            r == self.minor(),
    {
        self.minor_dim
    }

    pub fn nnz(&self) -> (r: usize)
        ensures
            r == self.indices().len(),
    {
        self.minor_indices.len()
    }

    pub fn minor_indices(&self) -> (r: &[usize])
        ensures
            r@ == self.indices(),
    {
        self.minor_indices
    }

    pub fn values(&self) -> (r: &[T])
        ensures
            r@ == self.values_view(),
    {
        self.values
    }

    /// The entry at minor index `global_col_index` of this lane.
    pub fn get_entry(&self, global_col_index: usize) -> (r: Option<SparseEntry<'_, T>>)
        requires
            self.wf(),
        ensures
            entry_value(r) == lane_lookup(
                self.minor(),
                self.indices(),
                self.values_view(),
                global_col_index as int,
            ),
    {
        get_entry_from_slices(self.minor_dim, self.minor_indices, self.values, global_col_index)
    }

    pub fn values_mut(&mut self) -> (r: &mut [T])
        ensures
            r@ == old(self).values_view(),
            final(self).values_view() == final(r)@,
            final(self).indices() == old(self).indices(),
            final(self).minor() == old(self).minor(),
    {
        &mut *self.values
    }

    pub fn indices_and_values_mut(&mut self) -> (r: (&[usize], &mut [T]))
        ensures
            r.0@ == old(self).indices(),
            r.1@ == old(self).values_view(),
            final(self).values_view() == final(r.1)@,
            final(self).indices() == old(self).indices(),
            final(self).minor() == old(self).minor(),
    {
        (self.minor_indices, &mut *self.values)
    }

    /// The entry at minor index `global_minor_index` of this lane, through which a
    /// stored value can be changed.
    pub fn get_entry_mut(&mut self, global_minor_index: usize) -> (r: Option<SparseEntryMut<'_, T>>)
        requires
            old(self).wf(),
        ensures
            final(self).indices() == old(self).indices(),
            final(self).minor() == old(self).minor(),
            r is None <==> lane_lookup(old(self).minor(), old(self).indices(), old(self).values_view(), global_minor_index as int) is None,
            r matches Some(SparseEntryMut::Zero) ==> lane_lookup(
                old(self).minor(),
                old(self).indices(),
                old(self).values_view(),
                global_minor_index as int,
            ) == Some(None::<T>) && final(self).values_view() == old(self).values_view(),
            r is None ==> final(self).values_view() == old(self).values_view(),
            r matches Some(SparseEntryMut::NonZero(v)) ==> exists|k: int|
                stored_at(old(self).indices(), global_minor_index as int, k) && *v == old(self).values_view()[k]
                    && final(self).values_view() == old(self).values_view().update(k, *final(v)),
    {
        get_mut_entry_from_slices(self.minor_dim, self.minor_indices, &mut *self.values, global_minor_index)
    }
}

/// A compressed matrix: a sparsity pattern, shared behind an `Arc`, and one value for
/// each stored entry. Lanes run along the major dimension: rows for a CSR matrix,
/// columns for a CSC matrix.
#[derive(Debug, Clone)]
pub struct CsMatrix<T> {
    sparsity_pattern: Arc<SparsityPattern>,
    values: Vec<T>,
}

impl<T> CsMatrix<T> {
    pub closed spec fn pattern_view(&self) -> SparsityPattern {
        *self.sparsity_pattern
    }

    pub closed spec fn values_view(&self) -> Seq<T> {
        self.values@
    }

    /// One value for each stored entry.
    pub open spec fn wf(&self) -> bool {
        self.values_view().len() == self.pattern_view().nnz_spec()
    }

    pub open spec fn major(&self) -> nat {
        self.pattern_view().major()
    }

    pub open spec fn minor(&self) -> nat {
        self.pattern_view().minor()
    }

    /// The minor indices of lane `i`.
    pub open spec fn lane_indices(&self, i: int) -> Seq<usize> {
        self.pattern_view().indices().subrange(
            self.pattern_view().lane_begin(i),
            self.pattern_view().lane_end(i),
        )
    }

    /// The values of lane `i`.
    pub open spec fn lane_values(&self, i: int) -> Seq<T> {
        self.values_view().subrange(
            self.pattern_view().lane_begin(i),
            self.pattern_view().lane_end(i),
        )
    }

    /// The entry at major index `i` and minor index `j`: `Some(Some(v))` for a stored
    /// value, `Some(None)` for an implicit zero, `None` out of bounds.
    pub open spec fn entry(&self, i: int, j: int) -> Option<Option<T>> {
        if 0 <= i < self.major() {
            lane_lookup(self.minor(), self.lane_indices(i), self.lane_values(i), j)
        } else {
            None
        }
    }

    /// The lane views of a well-formed matrix are valid lanes.
    proof fn lemma_lane_valid(&self, i: int)
        requires
            self.wf(),
            pattern_valid(self.pattern_view().offsets(), self.pattern_view().indices(), self.minor()),
            0 <= i < self.major(),
        ensures
            lane_valid(self.minor(), self.lane_indices(i), self.lane_values(i)),
            0 <= self.pattern_view().lane_begin(i) <= self.pattern_view().lane_end(i)
                <= self.pattern_view().nnz_spec(),
    {
        let p = self.pattern_view();
        let offs = p.offsets();
        assert(offs[i] <= offs[i + 1]);
        assert(offs[i + 1] <= offs[offs.len() - 1]);
        assert(crate::pattern::lane_sorted(offs, p.indices(), i));
        let li = self.lane_indices(i);
        assert forall|a: int, b: int| 0 <= a < b < li.len() implies #[trigger] li[a] < #[trigger] li[b] by {
            assert(p.indices()[offs[i] + a] < p.indices()[offs[i] + b]);
        }
        assert forall|k: int| 0 <= k < li.len() implies #[trigger] li[k] < self.minor() by {
            assert(p.indices()[offs[i] + k] < self.minor());
        }
    }

    /// A matrix with no stored entries.
    pub fn new(major_dim: usize, minor_dim: usize) -> (r: Self)
        requires
            major_dim < usize::MAX,
        ensures
            r.wf(),
            r.major() == major_dim,
            r.minor() == minor_dim,
            r.values_view().len() == 0,
            forall|i: int, j: int| 0 <= i < major_dim && 0 <= j < minor_dim ==> #[trigger] r.entry(i, j) == Some(None::<T>),
    {
        let r = CsMatrix {
            sparsity_pattern: Arc::new(SparsityPattern::new(major_dim, minor_dim)),
            values: Vec::new(),
        };
        assert forall|i: int, j: int| 0 <= i < major_dim && 0 <= j < minor_dim implies #[trigger] r.entry(i, j) == Some(None::<T>) by {
            assert(r.lane_indices(i).len() == 0);
        }
        r
    }

    pub fn pattern(&self) -> (r: &Arc<SparsityPattern>)
        ensures
            **r == self.pattern_view(),
    {
        &self.sparsity_pattern
    }

    pub fn values(&self) -> (r: &[T])
        ensures
            r@ == self.values_view(),
    {
        self.values.as_slice()
    }

    pub fn values_mut(&mut self) -> (r: &mut [T])
        ensures
            r@ == old(self).values_view(),
            final(self).values_view() == final(r)@,
            final(self).pattern_view() == old(self).pattern_view(),
    {
        self.values.as_mut_slice()
    }

    /// The raw data: `(major_offsets, minor_indices, values)`.
    pub fn cs_data(&self) -> (r: (&[usize], &[usize], &[T]))
        ensures
            r.0@ == self.pattern_view().offsets(),
            r.1@ == self.pattern_view().indices(),
            r.2@ == self.values_view(),
            pattern_valid(self.pattern_view().offsets(), self.pattern_view().indices(), self.minor()),
    {
        let pattern: &SparsityPattern = &self.sparsity_pattern;
        (pattern.major_offsets(), pattern.minor_indices(), self.values.as_slice())
    }

    /// The raw data: `(major_offsets, minor_indices, values)`, with the values mutable.
    pub fn cs_data_mut(&mut self) -> (r: (&[usize], &[usize], &mut [T]))
        ensures
            r.0@ == old(self).pattern_view().offsets(),
            r.1@ == old(self).pattern_view().indices(),
            r.2@ == old(self).values_view(),
            pattern_valid(old(self).pattern_view().offsets(), old(self).pattern_view().indices(), old(self).minor()),
            final(self).values_view() == final(r.2)@,
            final(self).pattern_view() == old(self).pattern_view(),
    {
        let pattern: &SparsityPattern = &self.sparsity_pattern;
        (pattern.major_offsets(), pattern.minor_indices(), self.values.as_mut_slice())
    }

    pub fn pattern_and_values_mut(&mut self) -> (r: (&Arc<SparsityPattern>, &mut [T]))
        ensures
            **r.0 == old(self).pattern_view(),
            r.1@ == old(self).values_view(),
            final(self).values_view() == final(r.1)@,
            final(self).pattern_view() == old(self).pattern_view(),
    {
        (&self.sparsity_pattern, self.values.as_mut_slice())
    }

    pub fn from_pattern_and_values(pattern: Arc<SparsityPattern>, values: Vec<T>) -> (r: Self)
        requires
            pattern.nnz_spec() == values@.len(),
        ensures
            r.wf(),
            r.pattern_view() == *pattern,
            r.values_view() == values@,
    {
        CsMatrix { sparsity_pattern: pattern, values }
    }

    /// The positions of lane `row_index` among the stored entries, or `None` when there
    /// is no such lane.
    pub fn get_index_range(&self, row_index: usize) -> (r: Option<Range<usize>>)
        ensures
            r is Some <==> row_index < self.major(),
            pattern_valid(self.pattern_view().offsets(), self.pattern_view().indices(), self.minor()),
            r matches Some(range) ==> range.start == self.pattern_view().lane_begin(row_index as int)
                && range.end == self.pattern_view().lane_end(row_index as int)
                && range.start <= range.end <= self.pattern_view().nnz_spec(),
    {
        let offsets = self.sparsity_pattern.major_offsets();
        if row_index < offsets.len() - 1 {
            let row_begin = offsets[row_index];
            let row_end = offsets[row_index + 1];
            assert(offsets@[row_index + 1] <= offsets@[offsets@.len() - 1]);
            Some(row_begin..row_end)
        } else {
            None
        }
    }

    pub fn take_pattern_and_values(self) -> (r: (Arc<SparsityPattern>, Vec<T>))
        ensures
            *r.0 == self.pattern_view(),
            r.1@ == self.values_view(),
    {
        (self.sparsity_pattern, self.values)
    }

    /// Takes the matrix apart into `(major_offsets, minor_indices, values)`, cloning the
    /// pattern only when it is shared.
    pub fn disassemble(self) -> (r: (Vec<usize>, Vec<usize>, Vec<T>))
        ensures
            r.0@ == self.pattern_view().offsets(),
            r.1@ == self.pattern_view().indices(),
            r.2@ == self.values_view(),
    {
        let pattern = self.sparsity_pattern;
        let values = self.values;
        let owned_pattern = match try_unwrap_pattern(pattern) {
            Ok(p) => p,
            Err(arc) => {
                let shared: &SparsityPattern = &arc;
                shared.clone()
            },
        };
        let (offsets, indices) = owned_pattern.disassemble();
        (offsets, indices, values)
    }

    /// The entry at the given major and minor indices, or `None` out of bounds.
    pub fn get_entry(&self, major_index: usize, minor_index: usize) -> (r: Option<SparseEntry<'_, T>>)
        requires
            self.wf(),
        ensures
            entry_value(r) == self.entry(major_index as int, minor_index as int),
    {
        let row_range = match self.get_index_range(major_index) {
            Some(range) => range,
            None => {
                return None;
            },
        };
        let (_, minor_indices, values) = self.cs_data();
        proof {
            self.lemma_lane_valid(major_index as int);
        }
        let minor_indices = vstd::slice::slice_subrange(minor_indices, row_range.start, row_range.end);
        let values = vstd::slice::slice_subrange(values, row_range.start, row_range.end);
        get_entry_from_slices(self.sparsity_pattern.minor_dim(), minor_indices, values, minor_index)
    }

    /// The entry at the given major and minor indices, through which a stored value can
    /// be changed, or `None` out of bounds.
    pub fn get_entry_mut(&mut self, major_index: usize, minor_index: usize) -> (r: Option<SparseEntryMut<'_, T>>)
        requires
            old(self).wf(),
        ensures
            final(self).pattern_view() == old(self).pattern_view(),
            r is None <==> old(self).entry(major_index as int, minor_index as int) is None,
            r is None ==> final(self).values_view() == old(self).values_view(),
            r matches Some(SparseEntryMut::Zero) ==> old(self).entry(major_index as int, minor_index as int)
                == Some(None::<T>) && final(self).values_view() == old(self).values_view(),
            r matches Some(SparseEntryMut::NonZero(v)) ==> exists|k: int|
                old(self).pattern_view().lane_begin(major_index as int) <= k < old(self).pattern_view().lane_end(major_index as int)
                    && old(self).pattern_view().indices()[k] == minor_index
                    && *v == old(self).values_view()[k]
                    && final(self).values_view() == old(self).values_view().update(k, *final(v)),
    {
        let row_range = match self.get_index_range(major_index) {
            Some(range) => range,
            None => {
                return None;
            },
        };
        proof {
            self.lemma_lane_valid(major_index as int);
        }
        let minor_dim = self.sparsity_pattern.minor_dim();
        let (_, minor_indices, values) = self.cs_data_mut();
        let minor_indices = vstd::slice::slice_subrange(minor_indices, row_range.start, row_range.end);
        let (_, rest) = values.split_at_mut(row_range.start);
        let (lane_values, _) = rest.split_at_mut(row_range.end - row_range.start);
        let r = get_mut_entry_from_slices(minor_dim, minor_indices, lane_values, minor_index);
        r
    }

    /// The lane at major index `index`, whose values can be changed, or `None` when there
    /// is no such lane.
    pub fn get_lane_mut(&mut self, index: usize) -> (r: Option<CsLaneMut<'_, T>>)
        requires
            old(self).wf(),
        ensures
            final(self).pattern_view() == old(self).pattern_view(),
            r is Some <==> index < old(self).major(),
            r is None ==> final(self).values_view() == old(self).values_view(),
            r matches Some(lane) ==> lane.wf() && lane.minor() == old(self).minor()
                && lane.indices() == old(self).lane_indices(index as int)
                && lane.values_view() == old(self).lane_values(index as int),
    {
        let range = match self.get_index_range(index) {
            Some(range) => range,
            None => {
                return None;
            },
        };
        proof {
            self.lemma_lane_valid(index as int);
        }
        let minor_dim = self.sparsity_pattern.minor_dim();
        let (_, minor_indices, values) = self.cs_data_mut();
        let (_, rest) = values.split_at_mut(range.start);
        let (lane_values, _) = rest.split_at_mut(range.end - range.start);
        Some(CsLaneMut {
            minor_dim,
            minor_indices: vstd::slice::slice_subrange(minor_indices, range.start, range.end),
            values: lane_values,
        })
    }

    /// Walks the lanes in order.
    pub fn lane_iter(&self) -> (r: CsLaneIter<'_, T>)
        requires
            self.wf(),
        ensures
            r.wf(),
            r.lane_index() == 0,
            r.pattern_of() == self.pattern_view(),
            r.remaining() == self.values_view(),
    {
        CsLaneIter::new(&self.sparsity_pattern, self.values.as_slice())
    }

    /// Walks the lanes in order, with their values mutable.
    pub fn lane_iter_mut(&mut self) -> (r: CsLaneIterMut<'_, T>)
        requires
            old(self).wf(),
        ensures
            r.wf(),
            r.lane_index() == 0,
            r.pattern_of() == old(self).pattern_view(),
            r.remaining() == old(self).values_view(),
            final(self).pattern_view() == old(self).pattern_view(),
    {
        CsLaneIterMut::new(&self.sparsity_pattern, self.values.as_mut_slice())
    }

    /// The lane at major index `index`, or `None` when there is no such lane.
    pub fn get_lane(&self, index: usize) -> (r: Option<CsLane<'_, T>>)
        requires
            self.wf(),
        ensures
            r is Some <==> index < self.major(),
            r matches Some(lane) ==> lane.wf() && lane.minor() == self.minor()
                && lane.indices() == self.lane_indices(index as int)
                && lane.values_view() == self.lane_values(index as int),
    {
        let range = match self.get_index_range(index) {
            Some(range) => range,
            None => {
                return None;
            },
        };
        let (_, minor_indices, values) = self.cs_data();
        proof {
            self.lemma_lane_valid(index as int);
        }
        Some(CsLane {
            minor_indices: vstd::slice::slice_subrange(minor_indices, range.start, range.end),
            values: vstd::slice::slice_subrange(values, range.start, range.end),
            minor_dim: self.sparsity_pattern.minor_dim(),
        })
    }
}

/// `r` keeps, in order, the entries of `a` on which `predicate` returned true: its
/// stored entry `q` is a clone of the stored entry `src[q]` of `a`, in the same lane
/// and at the same minor index, and an entry of `a` is kept exactly when the predicate,
/// called with its lane, its minor index and its value, returned true.
pub open spec fn filtered_from<T: Clone, P: Fn(usize, usize, &T) -> bool>(
    a: CsMatrix<T>,
    r: CsMatrix<T>,
    src: Seq<int>,
    predicate: P,
) -> bool {
    let pa = a.pattern_view();
    let pr = r.pattern_view();
    &&& src.len() == pr.nnz_spec()
    &&& forall|q1: int, q2: int| 0 <= q1 < q2 < src.len() ==> #[trigger] src[q1] < #[trigger] src[q2]
    &&& forall|q: int|
        0 <= q < src.len() ==> 0 <= #[trigger] src[q] < pa.nnz_spec() && pr.indices()[q]
            == pa.indices()[src[q]] && cloned(a.values_view()[src[q]], r.values_view()[q])
    &&& forall|i: int, q: int|
        0 <= i < pa.major() && 0 <= q < src.len() ==> #[trigger] same_lane(pr.offsets(), pa.offsets(), src, i, q)
    &&& forall|i: int, k: int|
        #![trigger pa.lane_end(i), kept_at(src, k)]
        0 <= i < pa.major() && pa.lane_begin(i) <= k < pa.lane_end(i) ==> predicate.ensures(
            (i as usize, pa.indices()[k], &a.values_view()[k]),
            kept_at(src, k),
        )
}

/// Kept entry `q` lies in lane `a` of the result exactly when its source position lies
/// in lane `a` of the matrix it was filtered from.
pub open spec fn same_lane(new_offsets: Seq<usize>, offsets: Seq<usize>, src: Seq<int>, a: int, q: int) -> bool {
    (new_offsets[a] <= q < new_offsets[a + 1]) <==> (offsets[a] <= src[q] < offsets[a + 1])
}

/// Some kept entry comes from position `k`.
pub open spec fn kept_at(src: Seq<int>, k: int) -> bool {
    exists|q: int| 0 <= q < src.len() && #[trigger] src[q] == k
}

impl<T: Clone> CsMatrix<T> {
    /// The matrix of the same shape that keeps the stored entries on which
    /// `predicate(major_index, minor_index, value)` returns true.
    pub fn filter<P>(&self, predicate: P) -> (r: Self)
        where
            P: Fn(usize, usize, &T) -> bool,
        requires
            self.wf(),
            forall|i: usize, j: usize, v: &T| #[trigger] predicate.requires((i, j, v)),
        ensures
            r.wf(),
            r.major() == self.major(),
            r.minor() == self.minor(),
            exists|src: Seq<int>| filtered_from(*self, r, src, predicate),
    {
        let (offsets, indices, values) = self.cs_data();
        let major_dim = self.sparsity_pattern.major_dim();
        let minor_dim = self.sparsity_pattern.minor_dim();
        let ghost offs = offsets@;
        let ghost inds = indices@;
        let ghost vals = values@;
        let ghost pa = self.pattern_view();
        let mut new_offsets: Vec<usize> = Vec::new();
        let mut new_indices: Vec<usize> = Vec::new();
        let mut new_values: Vec<T> = Vec::new();
        let ghost mut src: Seq<int> = Seq::empty();
        let ghost mut kept: Seq<bool> = Seq::empty();
        new_offsets.push(0);
        let mut i: usize = 0;
        while i < major_dim
            invariant
                pattern_valid(offs, inds, minor_dim as nat),
                offs == pa.offsets(),
                inds == pa.indices(),
                vals == self.values_view(),
                offsets@ == offs,
                indices@ == inds,
                values@ == vals,
                offs.len() == major_dim + 1,
                vals.len() == inds.len(),
                minor_dim == pa.minor(),
                forall|x: usize, y: usize, v: &T| #[trigger] predicate.requires((x, y, v)),
                i <= major_dim,
                new_offsets@.len() == i + 1,
                new_offsets@[0] == 0,
                new_offsets@[i as int] == new_indices@.len(),
                forall|a: int, b: int| 0 <= a <= b <= i ==> #[trigger] new_offsets@[a] <= #[trigger] new_offsets@[b],
                new_values@.len() == new_indices@.len(),
                src.len() == new_indices@.len(),
                kept.len() == offs[i as int],
                forall|q1: int, q2: int| 0 <= q1 < q2 < src.len() ==> #[trigger] src[q1] < #[trigger] src[q2],
                forall|q: int| 0 <= q < src.len() ==> 0 <= #[trigger] src[q] < offs[i as int]
                    && new_indices@[q] == inds[src[q]] && cloned(vals[src[q]], new_values@[q]),
                forall|a: int, q: int| 0 <= a < i && 0 <= q < src.len() ==> #[trigger] same_lane(new_offsets@, offs, src, a, q),
                forall|k: int| 0 <= k < offs[i as int] ==> (#[trigger] kept[k] <==> exists|q: int| 0 <= q < src.len() && #[trigger] src[q] == k),
                forall|a: int, k: int| 0 <= a < i && offs[a] <= k < offs[a + 1] ==> #[trigger] predicate.ensures(
                    (a as usize, inds[k], &vals[k]),
                    kept[k],
                ),
            decreases major_dim - i,
        {
            let begin = offsets[i];
            let end = offsets[i + 1];
            assert(offs[i as int] <= offs[i + 1] <= offs[major_dim as int]);
            let ghost lane_start = new_indices@.len();
            let mut k: usize = begin;
            while k < end
                invariant
                    pattern_valid(offs, inds, minor_dim as nat),
                    offsets@ == offs,
                    indices@ == inds,
                    values@ == vals,
                    offs.len() == major_dim + 1,
                    vals.len() == inds.len(),
                    forall|x: usize, y: usize, v: &T| #[trigger] predicate.requires((x, y, v)),
                    i < major_dim,
                    begin == offs[i as int],
                    end == offs[i + 1],
                    end <= inds.len(),
                    begin <= k <= end,
                    new_offsets@.len() == i + 1,
                    new_offsets@[0] == 0,
                    new_offsets@[i as int] == lane_start,
                    lane_start <= new_indices@.len(),
                    forall|a: int, b: int| 0 <= a <= b <= i ==> #[trigger] new_offsets@[a] <= #[trigger] new_offsets@[b],
                    new_values@.len() == new_indices@.len(),
                    src.len() == new_indices@.len(),
                    kept.len() == k,
                    forall|q1: int, q2: int| 0 <= q1 < q2 < src.len() ==> #[trigger] src[q1] < #[trigger] src[q2],
                    forall|q: int| 0 <= q < src.len() ==> 0 <= #[trigger] src[q] < k
                        && new_indices@[q] == inds[src[q]] && cloned(vals[src[q]], new_values@[q]),
                    forall|q: int| 0 <= q < lane_start ==> #[trigger] src[q] < begin,
                    forall|q: int| lane_start <= q < src.len() ==> begin <= #[trigger] src[q],
                    forall|a: int, q: int| 0 <= a < i && 0 <= q < lane_start ==> #[trigger] same_lane(new_offsets@, offs, src, a, q),
                    forall|k2: int| 0 <= k2 < k ==> (#[trigger] kept[k2] <==> exists|q: int| 0 <= q < src.len() && #[trigger] src[q] == k2),
                    forall|a: int, k2: int| 0 <= a < i && offs[a] <= k2 < offs[a + 1] ==> #[trigger] predicate.ensures(
                        (a as usize, inds[k2], &vals[k2]),
                        kept[k2],
                    ),
                    forall|k2: int| begin <= k2 < k ==> #[trigger] predicate.ensures(
                        (i, inds[k2], &vals[k2]),
                        kept[k2],
                    ),
                decreases end - k,
            {
                let j = indices[k];
                let value = &values[k];
                let keep = predicate(i, j, value);
                let ghost old_src = src;
                let ghost old_kept = kept;
                if keep {
                    new_indices.push(j);
                    new_values.push(value.clone());
                    proof {
                        src = src.push(k as int);
                    }
                }
                proof {
                    assert forall|a: int, q: int| 0 <= a < i && 0 <= q < lane_start implies #[trigger] same_lane(new_offsets@, offs, src, a, q) by {
                        assert(same_lane(new_offsets@, offs, old_src, a, q));
                        assert(src[q] == old_src[q]);
                    }
                    kept = kept.push(keep);
                    assert forall|k2: int| 0 <= k2 < k + 1 implies (#[trigger] kept[k2] <==> exists|q: int| 0 <= q < src.len() && #[trigger] src[q] == k2) by {
                        if k2 < k {
                            if old_kept[k2] {
                                let q = choose|q: int| 0 <= q < old_src.len() && old_src[q] == k2;
                                assert(src[q] == k2);
                            }
                            if exists|q: int| 0 <= q < src.len() && #[trigger] src[q] == k2 {
                                let q = choose|q: int| 0 <= q < src.len() && src[q] == k2;
                                assert(q < old_src.len());
                                assert(old_src[q] == k2);
                            }
                        } else {
                            if keep {
                                assert(src[src.len() - 1] == k2);
                            } else {
                                if exists|q: int| 0 <= q < src.len() && #[trigger] src[q] == k2 {
                                    let q = choose|q: int| 0 <= q < src.len() && src[q] == k2;
                                    assert(old_src[q] < k);
                                }
                            }
                        }
                    }
                }
                k = k + 1;
            }
            let ghost old_offsets = new_offsets@;
            new_offsets.push(new_indices.len());
            proof {
                assert forall|a: int, q: int| 0 <= a < i + 1 && 0 <= q < src.len() implies #[trigger] same_lane(new_offsets@, offs, src, a, q) by {
                    if a < i && q < lane_start {
                        assert(same_lane(old_offsets, offs, src, a, q));
                    }
                    if a < i {
                        assert(new_offsets@[a] == old_offsets[a] && new_offsets@[a + 1] == old_offsets[a + 1]);
                        if q >= lane_start {
                            assert(old_offsets[a + 1] <= old_offsets[i as int]);
                            assert(offs[a + 1] <= offs[i as int]);
                            assert(src[q] >= begin);
                        }
                    } else {
                        assert(new_offsets@[a] == lane_start);
                        assert(new_offsets@[a + 1] == src.len());
                        if q < lane_start {
                            assert(src[q] < begin);
                        } else {
                            assert(src[q] >= begin);
                        }
                    }
                }
            }
            i = i + 1;
        }
        let ghost noffs = new_offsets@;
        let ghost ninds = new_indices@;
        assert(offs[major_dim as int] == inds.len());
        proof {
            assert forall|a: int| 0 <= a < noffs.len() - 1 implies #[trigger] crate::pattern::lane_sorted(noffs, ninds, a) by {
                assert forall|q1: int, q2: int| noffs[a] <= q1 < q2 < noffs[a + 1] implies #[trigger] ninds[q1] < #[trigger] ninds[q2] by {
                    assert(same_lane(noffs, offs, src, a, q1));
                    assert(same_lane(noffs, offs, src, a, q2));
                    assert(crate::pattern::lane_sorted(offs, inds, a));
                }
            }
            assert forall|q: int| 0 <= q < ninds.len() implies #[trigger] ninds[q] < minor_dim by {
                assert(inds[src[q]] < minor_dim);
            }
        }
        let new_pattern = match SparsityPattern::try_from_offsets_and_indices(
            major_dim,
            minor_dim,
            new_offsets,
            new_indices,
        ) {
            Ok(p) => p,
            Err(_) => {
                proof {
                    assert(false);
                }
                SparsityPattern::new(major_dim, minor_dim)
            },
        };
        let r = Self::from_pattern_and_values(Arc::new(new_pattern), new_values);
        proof {
            let pr = r.pattern_view();
            assert(pr.offsets() == noffs && pr.indices() == ninds);
            assert(r.values_view() == new_values@);
            assert forall|a: int, k: int|
                #![trigger pa.lane_end(a), kept_at(src, k)]
                0 <= a < pa.major() && pa.lane_begin(a) <= k < pa.lane_end(a) implies predicate.ensures(
                (a as usize, pa.indices()[k], &self.values_view()[k]),
                kept_at(src, k),
            ) by {
                assert(offs[a + 1] <= offs[major_dim as int]);
                assert(kept[k] == kept_at(src, k));
                assert(predicate.ensures((a as usize, inds[k], &vals[k]), kept[k]));
            }
            assert forall|a: int, q: int|
                0 <= a < pa.major() && 0 <= q < src.len() implies #[trigger] same_lane(pr.offsets(), pa.offsets(), src, a, q) by {
                assert(same_lane(noffs, offs, src, a, q));
            }
            assert(filtered_from(*self, r, src, predicate));
        }
        r
    }
}

/// Scalars with a multiplicative identity.
pub trait One: Sized {
    spec fn one_spec() -> Self;

    fn one() -> (r: Self)
        ensures
            r == Self::one_spec(),
    ;
}

impl One for i32 {
    open spec fn one_spec() -> i32 {
        1
    }

    fn one() -> (r: i32) {
        1
    }
}

impl One for i64 {
    open spec fn one_spec() -> i64 {
        1
    }

    fn one() -> (r: i64) {
        1
    }
}

impl One for u32 {
    open spec fn one_spec() -> u32 {
        1
    }

    fn one() -> (r: u32) {
        1
    }
}

impl One for u64 {
    open spec fn one_spec() -> u64 {
        1
    }

    fn one() -> (r: u64) {
        1
    }
}

impl One for usize {
    open spec fn one_spec() -> usize {
        1
    }

    fn one() -> (r: usize) {
        1
    }
}

impl<T: One> CsMatrix<T> {
    /// The `n` by `n` identity: one stored entry, equal to one, on each diagonal position.
    pub fn identity(n: usize) -> (r: Self)
        requires
            n < usize::MAX,
        ensures
            r.wf(),
            r.major() == n,
            r.minor() == n,
            forall|i: int, j: int| 0 <= i < n && 0 <= j < n ==> #[trigger] r.entry(i, j) == if i == j {
                Some(Some(T::one_spec()))
            } else {
                Some(None)
            },
    {
        let mut offsets: Vec<usize> = Vec::with_capacity(n + 1);
        let mut indices: Vec<usize> = Vec::with_capacity(n);
        let mut values: Vec<T> = Vec::with_capacity(n);
        let mut i: usize = 0;
        while i < n
            invariant
                i <= n < usize::MAX,
                offsets@.len() == i,
                indices@.len() == i,
                values@.len() == i,
                forall|k: int| 0 <= k < i ==> #[trigger] offsets@[k] == k,
                forall|k: int| 0 <= k < i ==> #[trigger] indices@[k] == k,
                forall|k: int| 0 <= k < i ==> #[trigger] values@[k] == T::one_spec(),
            decreases n - i,
        {
            offsets.push(i);
            indices.push(i);
            values.push(T::one());
            i = i + 1;
        }
        offsets.push(n);
        let ghost offs = offsets@;
        let ghost inds = indices@;
        assert(pattern_valid(offs, inds, n as nat)) by {
            assert forall|a: int, b: int| 0 <= a <= b < offs.len() implies #[trigger] offs[a] <= #[trigger] offs[b] by {
                assert(offs[a] == a && offs[b] == b);
            }
            assert forall|a: int| 0 <= a < offs.len() - 1 implies #[trigger] crate::pattern::lane_sorted(offs, inds, a) by {
                assert(offs[a] == a && offs[a + 1] == a + 1);
            }
        }
        let pattern = match SparsityPattern::try_from_offsets_and_indices(n, n, offsets, indices) {
            Ok(p) => p,
            Err(_) => {
                proof {
                    assert(false);
                }
                SparsityPattern::new(n, n)
            },
        };
        let r = Self::from_pattern_and_values(Arc::new(pattern), values);
        assert forall|a: int, j: int| 0 <= a < n && 0 <= j < n implies #[trigger] r.entry(a, j) == if a == j {
            Some(Some(T::one_spec()))
        } else {
            Some(None)
        } by {
            assert(offs[a] == a && offs[a + 1] == a + 1);
            let li = r.lane_indices(a);
            assert(li.len() == 1 && li[0] == a);
            if a == j {
                assert(stored_at(li, j, 0));
            } else {
                assert(!exists|k: int| stored_at(li, j, k));
            }
        }
        r
    }
}

/// Lane `i` of a valid pattern holds strictly increasing minor indices below the minor
/// dimension, at positions that lie inside the stored entries.
proof fn lemma_pattern_lane(p: SparsityPattern, i: int)
    requires
        pattern_valid(p.offsets(), p.indices(), p.minor()),
        0 <= i < p.major(),
    ensures
        0 <= p.lane_begin(i) <= p.lane_end(i) <= p.nnz_spec(),
        sorted_between(p.indices().subrange(p.lane_begin(i), p.lane_end(i)), 0, p.lane_end(i) - p.lane_begin(i)),
        forall|k: int| 0 <= k < p.lane_end(i) - p.lane_begin(i)
            ==> #[trigger] p.indices().subrange(p.lane_begin(i), p.lane_end(i))[k] < p.minor(),
{
    let offs = p.offsets();
    assert(offs[i] <= offs[i + 1]);
    assert(offs[i + 1] <= offs[offs.len() - 1]);
    assert(crate::pattern::lane_sorted(offs, p.indices(), i));
    let li = p.indices().subrange(p.lane_begin(i), p.lane_end(i));
    assert forall|a: int, b: int| 0 <= a < b < li.len() implies #[trigger] li[a] < #[trigger] li[b] by {
        assert(p.indices()[offs[i] + a] < p.indices()[offs[i] + b]);
    }
    assert forall|k: int| 0 <= k < li.len() implies #[trigger] li[k] < p.minor() by {
        assert(p.indices()[offs[i] + k] < p.minor());
    }
}

/// Walks the lanes of a compressed matrix in order.
pub struct CsLaneIter<'a, T> {
    // The index of the lane that will be returned on the next iteration
    current_lane_idx: usize,
    pattern: &'a SparsityPattern,
    remaining_values: &'a [T],
}

impl<'a, T> CsLaneIter<'a, T> {
    /// The index of the lane that comes next.
    pub closed spec fn lane_index(&self) -> nat {
        self.current_lane_idx as nat
    }

    pub closed spec fn pattern_of(&self) -> SparsityPattern {
        *self.pattern
    }

    /// The values of the lanes that have not come yet.
    pub closed spec fn remaining(&self) -> Seq<T> {
        self.remaining_values@
    }

    pub open spec fn wf(&self) -> bool {
        &&& self.lane_index() <= self.pattern_of().major()
        &&& self.remaining().len() == self.pattern_of().nnz_spec() - self.pattern_of().lane_begin(
            self.lane_index() as int,
        )
    }

    pub fn new(pattern: &'a SparsityPattern, values: &'a [T]) -> (r: Self)
        requires
            values@.len() == pattern.nnz_spec(),
        ensures
            r.wf(),
            r.lane_index() == 0,
            r.pattern_of() == *pattern,
            r.remaining() == values@,
    {
        proof {
            use_type_invariant(pattern);
        }
        Self { current_lane_idx: 0, pattern, remaining_values: values }
    }

    /// The next lane, or `None` after the last one.
    pub fn next(&mut self) -> (r: Option<CsLane<'a, T>>)
        requires
            old(self).wf(),
        ensures
            final(self).wf(),
            final(self).pattern_of() == old(self).pattern_of(),
            r is Some <==> old(self).lane_index() < old(self).pattern_of().major(),
            r is None ==> *final(self) == *old(self),
            r matches Some(lane) ==> {
                let p = old(self).pattern_of();
                let i = old(self).lane_index() as int;
                let count = p.lane_end(i) - p.lane_begin(i);
                &&& lane.wf()
                &&& lane.minor() == p.minor()
                &&& lane.indices() == p.indices().subrange(p.lane_begin(i), p.lane_end(i))
                &&& lane.values_view() == old(self).remaining().subrange(0, count)
                &&& final(self).remaining() == old(self).remaining().subrange(count, old(self).remaining().len() as int)
                &&& final(self).lane_index() == i + 1
            },
    {
        let lane = self.pattern.get_lane(self.current_lane_idx);
        let minor_dim = self.pattern.minor_dim();
        proof {
            use_type_invariant(self.pattern);
        }
        match lane {
            Some(minor_indices) => {
                proof {
                    lemma_pattern_lane(*self.pattern, self.current_lane_idx as int);
                }
                let count = minor_indices.len();
                let (values_in_lane, rest) = self.remaining_values.split_at(count);
                self.remaining_values = rest;
                self.current_lane_idx = self.current_lane_idx + 1;
                Some(CsLane { minor_dim, minor_indices, values: values_in_lane })
            },
            None => None,
        }
    }
}

/// Walks the lanes of a compressed matrix in order, with their values mutable.
pub struct CsLaneIterMut<'a, T> {
    // The index of the lane that will be returned on the next iteration
    current_lane_idx: usize,
    pattern: &'a SparsityPattern,
    remaining_values: &'a mut [T],
}

impl<'a, T> CsLaneIterMut<'a, T> {
    /// The index of the lane that comes next.
    pub closed spec fn lane_index(&self) -> nat {
        self.current_lane_idx as nat
    }

    pub closed spec fn pattern_of(&self) -> SparsityPattern {
        *self.pattern
    }

    /// The values of the lanes that have not come yet.
    pub closed spec fn remaining(&self) -> Seq<T> {
        self.remaining_values@
    }

    pub open spec fn wf(&self) -> bool {
        &&& self.lane_index() <= self.pattern_of().major()
        &&& self.remaining().len() == self.pattern_of().nnz_spec() - self.pattern_of().lane_begin(
            self.lane_index() as int,
        )
    }

    pub fn new(pattern: &'a SparsityPattern, values: &'a mut [T]) -> (r: Self)
        requires
            old(values)@.len() == pattern.nnz_spec(),
        ensures
            r.wf(),
            r.lane_index() == 0,
            r.pattern_of() == *pattern,
            r.remaining() == old(values)@,
    {
        proof {
            use_type_invariant(pattern);
        }
        Self { current_lane_idx: 0, pattern, remaining_values: values }
    }

    /// The next lane, or `None` after the last one.
    pub fn next(&mut self) -> (r: Option<CsLaneMut<'a, T>>)
        requires
            old(self).wf(),
        ensures
            final(self).wf(),
            final(self).pattern_of() == old(self).pattern_of(),
            r is Some <==> old(self).lane_index() < old(self).pattern_of().major(),
            r is None ==> final(self).lane_index() == old(self).lane_index(),
            r matches Some(lane) ==> {
                let p = old(self).pattern_of();
                let i = old(self).lane_index() as int;
                let count = p.lane_end(i) - p.lane_begin(i);
                &&& lane.wf()
                &&& lane.minor() == p.minor()
                &&& lane.indices() == p.indices().subrange(p.lane_begin(i), p.lane_end(i))
                &&& lane.values_view() == old(self).remaining().subrange(0, count)
                &&& final(self).remaining() == old(self).remaining().subrange(count, old(self).remaining().len() as int)
                &&& final(self).lane_index() == i + 1
            },
    {
        let lane = self.pattern.get_lane(self.current_lane_idx);
        let minor_dim = self.pattern.minor_dim();
        proof {
            use_type_invariant(self.pattern);
        }
        match lane {
            Some(minor_indices) => {
                proof {
                    lemma_pattern_lane(*self.pattern, self.current_lane_idx as int);
                }
                let count = minor_indices.len();
                let mut remaining: &'a mut [T] = &mut [];
                core::mem::swap(&mut self.remaining_values, &mut remaining);
                let (values_in_lane, rest) = remaining.split_at_mut(count);
                self.remaining_values = rest;
                self.current_lane_idx = self.current_lane_idx + 1;
                Some(CsLaneMut { minor_dim, minor_indices, values: values_in_lane })
            },
            None => None,
        }
    }
}

/// In a strictly increasing lane a minor index is stored at one position at most.
proof fn unique_position(indices: Seq<usize>, j: int, k: int)
    requires
        sorted_between(indices, 0, indices.len() as int),
        stored_at(indices, j, k),
    ensures
        (choose|k2: int| stored_at(indices, j, k2)) == k,
{
    let k2 = choose|k2: int| stored_at(indices, j, k2);
    if k2 < k {
        assert(indices[k2] < indices[k]);
    } else if k < k2 {
        assert(indices[k] < indices[k2]);
    }
}

} // verus!
