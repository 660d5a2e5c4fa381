use vstd::prelude::*;

verus! {

/// Why a pair of offset and index arrays does not describe a sparsity pattern.
#[derive(Debug, Clone, Copy, PartialEq, Eq)]
pub enum SparsityPatternFormatError {
    /// The offset array does not hold `major_dim + 1` entries.
    InvalidOffsetArrayLength,
    /// The first offset is not 0, or the last is not the number of minor indices.
    InvalidOffsetFirstLast,
    /// An offset is smaller than the one before it.
    NonmonotonicOffsets,
    /// A minor index is not below the minor dimension.
    MinorIndexOutOfBounds,
    /// A lane holds the same minor index twice in a row.
    DuplicateEntry,
    /// A lane holds a minor index smaller than the one before it.
    NonmonotonicMinorIndices,
}

/// `s` is strictly increasing on the positions `lo .. hi`.
pub open spec fn sorted_between(s: Seq<usize>, lo: int, hi: int) -> bool {
    forall|a: int, b: int| lo <= a < b < hi ==> #[trigger] s[a] < #[trigger] s[b]
}

/// The minor indices of lane `i` are strictly increasing.
pub open spec fn lane_sorted(offsets: Seq<usize>, indices: Seq<usize>, i: int) -> bool {
    sorted_between(indices, offsets[i] as int, offsets[i + 1] as int)
}

/// The offsets are non-decreasing, start at 0 and end at the number of stored indices.
pub open spec fn offsets_valid(offsets: Seq<usize>, nnz: nat) -> bool {
    &&& offsets.len() >= 1
    &&& offsets[0] == 0
    &&& offsets.last() == nnz
    &&& forall|i: int, j: int|
        0 <= i <= j < offsets.len() ==> #[trigger] offsets[i] <= #[trigger] offsets[j]
}

/// Offsets and minor indices that describe a compressed sparsity pattern with
/// `offsets.len() - 1` lanes along the major dimension.
pub open spec fn pattern_valid(offsets: Seq<usize>, indices: Seq<usize>, minor_dim: nat) -> bool {
    &&& offsets_valid(offsets, indices.len())
    &&& forall|i: int| 0 <= i < offsets.len() - 1 ==> #[trigger] lane_sorted(offsets, indices, i)
    &&& forall|k: int| 0 <= k < indices.len() ==> #[trigger] indices[k] < minor_dim
}

/// `k` is the first position whose minor index is bad.
pub open spec fn first_bad(offsets: Seq<usize>, indices: Seq<usize>, minor_dim: nat, k: int) -> bool {
    &&& 0 <= k < indices.len()
    &&& index_bad(offsets, indices, minor_dim, k)
    &&& forall|k2: int| 0 <= k2 < k ==> !#[trigger] index_bad(offsets, indices, minor_dim, k2)
}

/// Position `k` has a predecessor in its lane.
pub open spec fn has_pred_in_lane(offsets: Seq<usize>, k: int) -> bool {
    exists|i: int| 0 <= i < offsets.len() - 1 && #[trigger] offsets[i] < k < offsets[i + 1]
}

/// The minor index at position `k` is out of bounds or not above its predecessor.
pub open spec fn index_bad(offsets: Seq<usize>, indices: Seq<usize>, minor_dim: nat, k: int) -> bool {
    indices[k] >= minor_dim || (has_pred_in_lane(offsets, k) && indices[k] <= indices[k - 1])
}

/// The error that describes a bad position `k`.
pub open spec fn index_error_at(
    offsets: Seq<usize>,
    indices: Seq<usize>,
    minor_dim: nat,
    k: int,
) -> SparsityPatternFormatError {
    if indices[k] >= minor_dim {
        SparsityPatternFormatError::MinorIndexOutOfBounds
    } else if indices[k] == indices[k - 1] {
        SparsityPatternFormatError::DuplicateEntry
    } else {
        SparsityPatternFormatError::NonmonotonicMinorIndices
    }
}

/// The sparsity pattern of a compressed matrix: for each lane of the major dimension,
/// the sorted minor indices of its explicitly stored entries.
#[derive(Debug)]
pub struct SparsityPattern {
    major_offsets: Vec<usize>,
    minor_indices: Vec<usize>,
    minor_dim: usize,
}

/// A copy of `v`, element by element.
fn copy_indices(v: &Vec<usize>) -> (r: Vec<usize>)
    ensures
        r@ == v@,
{
    let mut r: Vec<usize> = Vec::with_capacity(v.len());
    let mut i: usize = 0;
    while i < v.len()
        invariant
            i <= v@.len(),
            r@ == v@.subrange(0, i as int),
        decreases v@.len() - i,
    {
        r.push(v[i]);
        i = i + 1;
        assert(r@ == v@.subrange(0, i as int));
    }
    assert(v@.subrange(0, v@.len() as int) == v@);
    r
}

impl Clone for SparsityPattern {
    fn clone(&self) -> (r: Self)
        ensures
            r.offsets() == self.offsets(),
            r.indices() == self.indices(),
            r.minor() == self.minor(),
    {
        proof {
            use_type_invariant(self);
        }
        SparsityPattern {
            major_offsets: copy_indices(&self.major_offsets),
            minor_indices: copy_indices(&self.minor_indices),
            minor_dim: self.minor_dim,
        }
    }
}

impl SparsityPattern {
    /// The lane offsets, `major_dim + 1` of them.
    pub closed spec fn offsets(&self) -> Seq<usize> {
        self.major_offsets@
    }

    /// The minor indices of all stored entries, lane after lane.
    pub closed spec fn indices(&self) -> Seq<usize> {
        self.minor_indices@
    }

    pub closed spec fn minor(&self) -> nat {
        self.minor_dim as nat
    }

    pub open spec fn major(&self) -> nat {
        (self.offsets().len() - 1) as nat
    }

    pub open spec fn nnz_spec(&self) -> nat {
        self.indices().len()
    }

    /// The first position of lane `i` in `indices()`.
    pub open spec fn lane_begin(&self, i: int) -> int {
        self.offsets()[i] as int
    }

    /// One past the last position of lane `i` in `indices()`.
    pub open spec fn lane_end(&self, i: int) -> int {
        self.offsets()[i + 1] as int
    }

    /// Every pattern is well formed.
    #[verifier::type_invariant]
    pub open spec fn inv(&self) -> bool {
        &&& pattern_valid(self.offsets(), self.indices(), self.minor())
        &&& self.offsets().len() <= usize::MAX
    }

    /// A pattern with no stored entries.
    pub fn new(major_dim: usize, minor_dim: usize) -> (r: Self)
        requires
            major_dim < usize::MAX,
        ensures
            r.major() == major_dim,
            r.minor() == minor_dim,
            r.nnz_spec() == 0,
            forall|i: int| 0 <= i <= major_dim ==> #[trigger] r.offsets()[i] == 0,
    {
        let mut offsets: Vec<usize> = Vec::with_capacity(major_dim + 1);
        let mut i: usize = 0;
        while i <= major_dim
            invariant
                i <= major_dim + 1,
                major_dim < usize::MAX,
                offsets@.len() == i,
                forall|k: int| 0 <= k < i ==> #[trigger] offsets@[k] == 0,
            decreases major_dim + 1 - i,
        {
            offsets.push(0);
            i = i + 1;
        }
        SparsityPattern { major_offsets: offsets, minor_indices: Vec::new(), minor_dim }
    }

    pub fn major_dim(&self) -> (r: usize)
        ensures
            r == self.major(),
            pattern_valid(self.offsets(), self.indices(), self.minor()),
    {
        proof {
            use_type_invariant(self);
        }
        self.major_offsets.len() - 1
    }

    pub fn minor_dim(&self) -> (r: usize)
        ensures
            r == self.minor(),
            pattern_valid(self.offsets(), self.indices(), self.minor()),
    {
        proof {
            use_type_invariant(self);
        }
        self.minor_dim
    }

    pub fn nnz(&self) -> (r: usize)
        ensures
            r == self.nnz_spec(),
            pattern_valid(self.offsets(), self.indices(), self.minor()),
    {
        proof {
            use_type_invariant(self);
        }
        self.minor_indices.len()
    }

    pub fn major_offsets(&self) -> (r: &[usize])
        ensures
            r@ == self.offsets(),
            pattern_valid(self.offsets(), self.indices(), self.minor()),
    {
        proof {
            use_type_invariant(self);
        }
        self.major_offsets.as_slice()
    }

    pub fn minor_indices(&self) -> (r: &[usize])
        ensures
            r@ == self.indices(),
            pattern_valid(self.offsets(), self.indices(), self.minor()),
    {
        proof {
            use_type_invariant(self);
        }
        self.minor_indices.as_slice()
    }

    /// The minor indices of lane `index`, or `None` when there is no such lane.
    pub fn get_lane(&self, index: usize) -> (r: Option<&[usize]>)
        ensures
            index < self.major() <==> r.is_some(),
            pattern_valid(self.offsets(), self.indices(), self.minor()),
            r.is_some() ==> r.unwrap()@ == self.indices().subrange(
                self.lane_begin(index as int),
                self.lane_end(index as int),
            ),
    {
        proof {
            use_type_invariant(self);
        }
        if index < self.major_offsets.len() - 1 {
            let begin = self.major_offsets[index];
            let end = self.major_offsets[index + 1];
            Some(vstd::slice::slice_subrange(self.minor_indices.as_slice(), begin, end))
        } else {
            None
        }
    }

    /// Builds a pattern from its offsets and minor indices, checking that they describe
    /// `major_dim` lanes of strictly increasing minor indices below `minor_dim`.
    pub fn try_from_offsets_and_indices(
        major_dim: usize,
        minor_dim: usize,
        major_offsets: Vec<usize>,
        minor_indices: Vec<usize>,
    ) -> (r: Result<Self, SparsityPatternFormatError>)
        ensures
            r.is_ok() <==> major_offsets@.len() == major_dim + 1 && pattern_valid(
                major_offsets@,
                minor_indices@,
                minor_dim as nat,
            ),
            r matches Ok(p) ==> p.offsets() == major_offsets@ && p.indices() == minor_indices@
                && p.minor() == minor_dim,
            major_offsets@.len() != major_dim + 1 ==> r == Err::<Self, _>(
                SparsityPatternFormatError::InvalidOffsetArrayLength,
            ),
            major_offsets@.len() == major_dim + 1 && (major_offsets@[0] != 0
                || major_offsets@.last() != minor_indices@.len()) ==> r == Err::<Self, _>(
                SparsityPatternFormatError::InvalidOffsetFirstLast,
            ),
            r == Err::<Self, _>(SparsityPatternFormatError::NonmonotonicOffsets) <==> (
            major_offsets@.len() == major_dim + 1 && major_offsets@[0] == 0
                && major_offsets@.last() == minor_indices@.len() && exists|i: int|
                0 <= i < major_dim && #[trigger] major_offsets@[i + 1] < major_offsets@[i]),
            offsets_valid(major_offsets@, minor_indices@.len()) && major_offsets@.len()
                == major_dim + 1 && !pattern_valid(major_offsets@, minor_indices@, minor_dim as nat)
                ==> exists|k: int|
                first_bad(major_offsets@, minor_indices@, minor_dim as nat, k) && r == Err::<
                    Self,
                    _,
                >(index_error_at(major_offsets@, minor_indices@, minor_dim as nat, k)),
    {
        let ghost offs = major_offsets@;
        let ghost inds = minor_indices@;
        if major_offsets.len() == 0 || major_offsets.len() - 1 != major_dim {
            return Err(SparsityPatternFormatError::InvalidOffsetArrayLength);
        }
        if major_offsets[0] != 0 || major_offsets[major_dim] != minor_indices.len() {
            return Err(SparsityPatternFormatError::InvalidOffsetFirstLast);
        }
        let mut i: usize = 0;
        while i < major_dim
            invariant
                offs == major_offsets@,
                inds == minor_indices@,
                offs.len() == major_dim + 1,
                offs[0] == 0,
                offs[major_dim as int] == inds.len(),
                i <= major_dim,
                forall|a: int, b: int| 0 <= a <= b <= i ==> #[trigger] offs[a] <= #[trigger] offs[b],
            decreases major_dim - i,
        {
            if major_offsets[i + 1] < major_offsets[i] {
                assert(offs[i + 1] < offs[i as int]);
                return Err(SparsityPatternFormatError::NonmonotonicOffsets);
            }
            i = i + 1;
        }
        assert(offsets_valid(offs, inds.len()));
        assert(!exists|i: int| 0 <= i < major_dim && #[trigger] offs[i + 1] < offs[i]) by {
            assert forall|i: int| 0 <= i < major_dim implies !(#[trigger] offs[i + 1] < offs[i]) by {
                assert(offs[i] <= offs[i + 1]);
            }
        }
        let mut lane: usize = 0;
        while lane < major_dim
            invariant
                offs == major_offsets@,
                inds == minor_indices@,
                offs.len() == major_dim + 1,
                offsets_valid(offs, inds.len()),
                lane <= major_dim,
                forall|i: int| 0 <= i < lane ==> #[trigger] lane_sorted(offs, inds, i),
                forall|k: int| 0 <= k < offs[lane as int] ==> #[trigger] inds[k] < minor_dim,
                forall|k: int| 0 <= k < offs[lane as int] ==> !#[trigger] index_bad(offs, inds, minor_dim as nat, k),
            decreases major_dim - lane,
        {
            let begin = major_offsets[lane];
            let end = major_offsets[lane + 1];
            assert(offs[lane + 1] <= offs[major_dim as int]);
            proof {
                // The first position of a lane has no predecessor in its lane.
                if begin < end {
                    assert(!has_pred_in_lane(offs, begin as int)) by {
                        if has_pred_in_lane(offs, begin as int) {
                            let i2 = choose|i2: int|
                                0 <= i2 < offs.len() - 1 && #[trigger] offs[i2] < begin < offs[i2 + 1];
                            if i2 >= lane {
                                assert(offs[lane as int] <= offs[i2]);
                            } else {
                                assert(offs[i2 + 1] <= offs[lane as int]);
                            }
                        }
                    }
                }
            }
            let mut k: usize = begin;
            while k < end
                invariant
                    offs == major_offsets@,
                    inds == minor_indices@,
                    offs.len() == major_dim + 1,
                    offsets_valid(offs, inds.len()),
                    lane < major_dim,
                    begin == offs[lane as int],
                    end == offs[lane + 1],
                    end <= inds.len(),
                    begin <= k <= end,
                    begin < end ==> !has_pred_in_lane(offs, begin as int),
                    sorted_between(inds, begin as int, k as int),
                    forall|k2: int| 0 <= k2 < k ==> #[trigger] inds[k2] < minor_dim,
                    forall|k2: int| 0 <= k2 < k ==> !#[trigger] index_bad(offs, inds, minor_dim as nat, k2),
                decreases end - k,
            {
                if minor_indices[k] >= minor_dim {
                    assert(first_bad(offs, inds, minor_dim as nat, k as int));
                    assert(!(inds[k as int] < minor_dim));
                    return Err(SparsityPatternFormatError::MinorIndexOutOfBounds);
                }
                if k > begin {
                    assert(has_pred_in_lane(offs, k as int)) by {
                        assert(0 <= lane < offs.len() - 1 && offs[lane as int] < k < offs[lane + 1]);
                    }
                    if minor_indices[k] == minor_indices[k - 1] {
                        assert(first_bad(offs, inds, minor_dim as nat, k as int));
                        assert(!lane_sorted(offs, inds, lane as int)) by {
                            assert(!(inds[k - 1] < inds[k as int]));
                        }
                        return Err(SparsityPatternFormatError::DuplicateEntry);
                    }
                    if minor_indices[k] < minor_indices[k - 1] {
                        assert(first_bad(offs, inds, minor_dim as nat, k as int));
                        assert(!lane_sorted(offs, inds, lane as int)) by {
                            assert(!(inds[k - 1] < inds[k as int]));
                        }
                        return Err(SparsityPatternFormatError::NonmonotonicMinorIndices);
                    }
                }
                k = k + 1;
            }
            assert(lane_sorted(offs, inds, lane as int));
            lane = lane + 1;
        }
        proof {
            assert(pattern_valid(offs, inds, minor_dim as nat));
        }
        Ok(SparsityPattern { major_offsets, minor_indices, minor_dim })
    }

    /// Takes the pattern apart into its offsets and minor indices.
    pub fn disassemble(self) -> (r: (Vec<usize>, Vec<usize>))
        ensures
            r.0@ == self.offsets(),
            r.1@ == self.indices(),
    {
        (self.major_offsets, self.minor_indices)
    }
}

} // verus!
