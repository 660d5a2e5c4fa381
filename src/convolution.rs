//! Convolutions of vectors and matrices over a scalar field.
use crate::symmetric::{at, DMatrix, RealField};
use vstd::prelude::*;

verus! {

/// A column vector.
#[derive(Clone, Debug)]
pub struct Vector<S> {
    data: Vec<S>,
}

/// The sum over `j < count` of `v[i + j] * kernel[ker - j - 1]`, added in the order of
/// `j`: entry `i` of the valid convolution when `count` is the kernel's length.
pub open spec fn valid_sum<S: RealField>(v: Seq<S>, kernel: Seq<S>, i: int, count: nat) -> S
    decreases count,
{
    if count == 0 {
        S::zero_spec()
    } else {
        let j = count - 1;
        valid_sum(v, kernel, i, (count - 1) as nat).plus_spec(
            v[i + j].times_spec(kernel[kernel.len() - j - 1]),
        )
    }
}

/// The sum over `u` from `lo` to `lo + count - 1` with `i - u` inside the kernel of
/// `v[u] * kernel[i - u]`, added in the order of `u`.
pub open spec fn full_sum<S: RealField>(v: Seq<S>, kernel: Seq<S>, i: int, lo: int, count: nat) -> S
    decreases count,
{
    if count == 0 {
        S::zero_spec()
    } else {
        let u = lo + count - 1;
        let prev = full_sum(v, kernel, i, lo, (count - 1) as nat);
        if i - u < kernel.len() {
            prev.plus_spec(v[u].times_spec(kernel[i - u]))
        } else {
            prev
        }
    }
}

/// Entry `i` of the full convolution of `v` with `kernel`: the terms `v[u] * kernel[i - u]`
/// for the `u` between `lo` and `hi` whose kernel position exists.
pub open spec fn full_entry<S: RealField>(v: Seq<S>, kernel: Seq<S>, i: int) -> S {
    let lo = if i > v.len() {
        i - kernel.len()
    } else {
        0
    };
    let hi = if i < v.len() - 1 {
        i
    } else {
        v.len() - 1
    };
    if lo == hi {
        S::zero_spec().plus_spec(v[lo].times_spec(kernel[i - lo]))
    } else {
        full_sum(v, kernel, i, lo, (hi + 1 - lo) as nat)
    }
}

/// The zeros in front of `v` that centre a kernel of length `ker` on each entry.
pub open spec fn front_padding(ker: int) -> int {
    ker - 1 - (ker - 1) / 2
}

/// Entry `k` of `v` padded with `p` zeros in front and zeros after its end.
pub open spec fn padded<S: RealField>(v: Seq<S>, p: int, k: int) -> S {
    if p <= k < v.len() + p {
        v[k - p]
    } else {
        S::zero_spec()
    }
}

/// The sum over `j < count` of `padded(v, p, i + j) * kernel[ker - j - 1]` with the
/// centring padding `p`, added in the order of `j`: entry `i` of the same-length
/// convolution, which is entry `i + (ker - 1) / 2` of the full one.
pub open spec fn same_sum<S: RealField>(v: Seq<S>, kernel: Seq<S>, i: int, count: nat) -> S
    decreases count,
{
    if count == 0 {
        S::zero_spec()
    } else {
        let j = count - 1;
        same_sum(v, kernel, i, (count - 1) as nat).plus_spec(
            padded(v, front_padding(kernel.len() as int), i + j).times_spec(kernel[kernel.len() - j - 1]),
        )
    }
}

impl<S: RealField> Vector<S> {
    pub closed spec fn entries(&self) -> Seq<S> {
        self.data@
    }

    pub fn from_vec(data: Vec<S>) -> (r: Self)
        ensures
            r.entries() == data@,
    {
        Vector { data }
    }

    pub fn len(&self) -> (r: usize)
        ensures
            r == self.entries().len(),
    {
        self.data.len()
    }

    pub fn as_slice(&self) -> (r: &[S])
        ensures
            r@ == self.entries(),
    {
        self.data.as_slice()
    }

    /// The full convolution of this vector with `kernel`: entry `i` sums
    /// `self[u] * kernel[i - u]` over the valid `u`; `len + kernel.len - 1` entries.
    pub fn convolve_full(&self, kernel: Vector<S>) -> (r: Vector<S>)
        requires
            0 < kernel.entries().len() <= self.entries().len(),
            self.entries().len() + kernel.entries().len() - 1 <= usize::MAX,
        ensures
            r.entries().len() == self.entries().len() + kernel.entries().len() - 1,
            forall|i: int| 0 <= i < r.entries().len() ==> #[trigger] r.entries()[i] == full_entry(
                self.entries(),
                kernel.entries(),
                i,
            ),
    {
        let vec = self.data.len();
        let ker = kernel.data.len();
        let mut conv: Vec<S> = Vec::new();
        let len = vec - 1 + ker;
        let mut i: usize = 0;
        while i < len
            invariant
                vec == self.data@.len(),
                ker == kernel.data@.len(),
                0 < ker <= vec,
                len == vec + ker - 1,
                i <= len,
                conv@.len() == i,
                forall|t: int| 0 <= t < i ==> #[trigger] conv@[t] == full_entry(self.data@, kernel.data@, t),
            decreases len - i,
        {
            let u_i = if i > vec {
                i - ker
            } else {
                0
            };
            let u_f = if i < vec - 1 {
                i
            } else {
                vec - 1
            };
            let mut acc = S::zero();
            if u_i == u_f {
                acc = acc.plus(self.data[u_i].times(kernel.data[i - u_i]));
            } else {
                let mut u: usize = u_i;
                while u < u_f + 1
                    invariant
                        vec == self.data@.len(),
                        ker == kernel.data@.len(),
                        u_f < vec,
                        u_i <= u <= u_f + 1,
                        u_f <= i,
                        acc == full_sum(self.data@, kernel.data@, i as int, u_i as int, (u - u_i) as nat),
                    decreases u_f + 1 - u,
                {
                    if i - u < ker {
                        acc = acc.plus(self.data[u].times(kernel.data[i - u]));
                    }
                    u = u + 1;
                }
            }
            conv.push(acc);
            i = i + 1;
        }
        Vector { data: conv }
    }

    /// The part of the convolution that does not rely on zero padding:
    /// `len - kernel.len + 1` entries.
    pub fn convolve_valid(&self, kernel: Vector<S>) -> (r: Vector<S>)
        requires
            0 < kernel.entries().len() <= self.entries().len(),
        ensures
            r.entries().len() == self.entries().len() - kernel.entries().len() + 1,
            forall|i: int| 0 <= i < r.entries().len() ==> #[trigger] r.entries()[i] == valid_sum(
                self.entries(),
                kernel.entries(),
                i,
                kernel.entries().len(),
            ),
    {
        let vec = self.data.len();
        let ker = kernel.data.len();
        let mut conv: Vec<S> = Vec::new();
        let mut i: usize = 0;
        while i < vec - ker + 1
            invariant
                vec == self.data@.len(),
                ker == kernel.data@.len(),
                0 < ker <= vec,
                i <= vec - ker + 1,
                conv@.len() == i,
                forall|t: int| 0 <= t < i ==> #[trigger] conv@[t] == valid_sum(self.data@, kernel.data@, t, ker as nat),
            decreases vec - ker + 1 - i,
        {
            let mut acc = S::zero();
            let mut j: usize = 0;
            while j < ker
                invariant
                    vec == self.data@.len(),
                    ker == kernel.data@.len(),
                    0 < ker <= vec,
                    i < vec - ker + 1,
                    j <= ker,
                    acc == valid_sum(self.data@, kernel.data@, i as int, j as nat),
                decreases ker - j,
            {
                acc = acc.plus(self.data[i + j].times(kernel.data[ker - j - 1]));
                j = j + 1;
            }
            conv.push(acc);
            i = i + 1;
        }
        Vector { data: conv }
    }

    /// The convolution of the same length as this vector, centred with respect to the
    /// full one: entry `i` is entry `i + (kernel.len - 1) / 2` of the full convolution.
    pub fn convolve_same(&self, kernel: Vector<S>) -> (r: Vector<S>)
        requires
            0 < kernel.entries().len() <= self.entries().len(),
        ensures
            r.entries().len() == self.entries().len(),
            forall|i: int| 0 <= i < r.entries().len() ==> #[trigger] r.entries()[i] == same_sum(
                self.entries(),
                kernel.entries(),
                i,
                kernel.entries().len(),
            ),
    {
        let vec = self.data.len();
        let ker = kernel.data.len();
        let pad = ker - 1 - (ker - 1) / 2;
        let mut conv: Vec<S> = Vec::new();
        let mut i: usize = 0;
        while i < vec
            invariant
                pad == front_padding(ker as int),
                vec == self.data@.len(),
                ker == kernel.data@.len(),
                0 < ker <= vec,
                i <= vec,
                conv@.len() == i,
                forall|t: int| 0 <= t < i ==> #[trigger] conv@[t] == same_sum(self.data@, kernel.data@, t, ker as nat),
            decreases vec - i,
        {
            let mut acc = S::zero();
            let mut j: usize = 0;
            while j < ker
                invariant
                    vec == self.data@.len(),
                    ker == kernel.data@.len(),
                    0 < ker <= vec,
                    i < vec,
                    j <= ker,
                    pad == front_padding(ker as int),
                    acc == same_sum(self.data@, kernel.data@, i as int, j as nat),
                decreases ker - j,
            {
                // Position i + j - pad of the vector, or zero padding on either side.
                let val = if j < pad {
                    if i < pad - j {
                        S::zero()
                    } else {
                        self.data[i - (pad - j)]
                    }
                } else if j - pad >= vec - i {
                    S::zero()
                } else {
                    self.data[i + (j - pad)]
                };
                acc = acc.plus(val.times(kernel.data[ker - j - 1]));
                j = j + 1;
            }
            conv.push(acc);
            i = i + 1;
        }
        Vector { data: conv }
    }
}

/// The product of kernel entry `(ki, kj)` with the matrix entry under it when the
/// kernel is centred on entry `(i, j)` of `m`, or zero when that lies outside `m`.
pub open spec fn kernel_term<S: RealField>(m: DMatrix<S>, kernel: DMatrix<S>, i: int, j: int, ki: int, kj: int) -> S {
    let half = (kernel.rows() / 2) as int;
    let r = i + ki - half;
    let c = j + kj - half;
    if 0 <= r < m.rows() && 0 <= c < m.cols() {
        kernel.entries()[at(kernel.cols() as int, ki, kj)].times_spec(m.entries()[at(m.cols() as int, r, c)])
    } else {
        S::zero_spec()
    }
}

/// The terms of the kernel row `ki` from column `kj` on, added onto `acc`.
pub open spec fn row_terms<S: RealField>(m: DMatrix<S>, kernel: DMatrix<S>, i: int, j: int, ki: int, kj: int, acc: S) -> S
    decreases kernel.rows() - kj,
{
    if kj >= kernel.rows() {
        acc
    } else {
        row_terms(m, kernel, i, j, ki, kj + 1, acc.plus_spec(kernel_term(m, kernel, i, j, ki, kj)))
    }
}

/// The terms of the kernel rows `ki ..`, added onto `acc` row after row.
pub open spec fn all_terms<S: RealField>(m: DMatrix<S>, kernel: DMatrix<S>, i: int, j: int, ki: int, acc: S) -> S
    decreases kernel.rows() - ki,
{
    if ki >= kernel.rows() {
        acc
    } else {
        all_terms(m, kernel, i, j, ki + 1, row_terms(m, kernel, i, j, ki, 0, acc))
    }
}

impl<S: RealField> DMatrix<S> {
    /// Slides the square kernel, centred, over this matrix; entry `(i, j)` of the result
    /// sums, over the kernel entries, their products with the matrix entries under them,
    /// the matrix being padded with zeros.
    pub fn mat_convolve_full(&self, kernel: DMatrix<S>) -> (r: DMatrix<S>)
        requires
            self.wf(),
            kernel.wf(),
            0 < kernel.rows() <= self.rows(),
            0 < kernel.cols() <= self.cols(),
            kernel.rows() <= kernel.cols(),
        ensures
            r.wf(),
            r.rows() == self.rows(),
            r.cols() == self.cols(),
            forall|i: int, j: int|
                0 <= i < r.rows() && 0 <= j < r.cols() ==> #[trigger] r.entries()[at(r.cols() as int, i, j)]
                    == all_terms(*self, kernel, i, j, 0, S::zero_spec()),
    {
        let mat_rows = self.nrows();
        let mat_cols = self.ncols();
        let kernel_size = kernel.nrows();
        let kernel_min = kernel_size / 2;
        assert(mat_rows + mat_cols <= usize::MAX + 1) by (nonlinear_arith)
            requires
                mat_rows * mat_cols <= usize::MAX,
                mat_rows >= 1,
                mat_cols >= 1,
        ;
        let mut conv: Vec<S> = Vec::new();
        let mut i: usize = 0;
        while i < mat_rows
            invariant
                self.wf(),
                kernel.wf(),
                mat_rows == self.rows(),
                mat_cols == self.cols(),
                kernel_size == kernel.rows(),
                0 < kernel_size <= kernel.cols(),
                kernel_size <= mat_rows,
                kernel_size <= mat_cols,
                kernel_min == kernel_size / 2,
                mat_rows + mat_cols <= usize::MAX + 1,
                mat_rows * mat_cols <= usize::MAX,
                i <= mat_rows,
                conv@.len() == i * mat_cols,
                forall|a: int, b: int| 0 <= a < i && 0 <= b < mat_cols ==> #[trigger] conv@[at(mat_cols as int, a, b)]
                    == all_terms(*self, kernel, a, b, 0, S::zero_spec()),
            decreases mat_rows - i,
        {
            let mut j: usize = 0;
            while j < mat_cols
                invariant
                    self.wf(),
                    kernel.wf(),
                    mat_rows == self.rows(),
                    mat_cols == self.cols(),
                    kernel_size == kernel.rows(),
                    0 < kernel_size <= kernel.cols(),
                    kernel_size <= mat_rows,
                    kernel_size <= mat_cols,
                    kernel_min == kernel_size / 2,
                    mat_rows + mat_cols <= usize::MAX + 1,
                    i < mat_rows,
                    j <= mat_cols,
                    conv@.len() == i * mat_cols + j,
                    forall|a: int, b: int| 0 <= a < i && 0 <= b < mat_cols ==> #[trigger] conv@[at(mat_cols as int, a, b)]
                        == all_terms(*self, kernel, a, b, 0, S::zero_spec()),
                    forall|b: int| 0 <= b < j ==> #[trigger] conv@[at(mat_cols as int, i as int, b)]
                        == all_terms(*self, kernel, i as int, b, 0, S::zero_spec()),
                decreases mat_cols - j,
            {
                let mut convolved_value = S::zero();
                let mut k_i: usize = 0;
                while k_i < kernel_size
                    invariant
                        self.wf(),
                        kernel.wf(),
                        mat_rows == self.rows(),
                        mat_cols == self.cols(),
                        kernel_size == kernel.rows(),
                        0 < kernel_size <= kernel.cols(),
                        kernel_size <= mat_rows,
                        kernel_size <= mat_cols,
                        kernel_min == kernel_size / 2,
                        mat_rows + mat_cols <= usize::MAX + 1,
                        i < mat_rows,
                        j < mat_cols,
                        k_i <= kernel_size,
                        all_terms(*self, kernel, i as int, j as int, k_i as int, convolved_value) == all_terms(
                            *self,
                            kernel,
                            i as int,
                            j as int,
                            0,
                            S::zero_spec(),
                        ),
                    decreases kernel_size - k_i,
                {
                    let mut k_j: usize = 0;
                    while k_j < kernel_size
                        invariant
                            self.wf(),
                            kernel.wf(),
                            mat_rows == self.rows(),
                            mat_cols == self.cols(),
                            kernel_size == kernel.rows(),
                            0 < kernel_size <= kernel.cols(),
                            kernel_size <= mat_rows,
                            kernel_size <= mat_cols,
                            kernel_min == kernel_size / 2,
                            mat_rows + mat_cols <= usize::MAX + 1,
                            i < mat_rows,
                            j < mat_cols,
                            k_i < kernel_size,
                            k_j <= kernel_size,
                            all_terms(
                                *self,
                                kernel,
                                i as int,
                                j as int,
                                k_i + 1,
                                row_terms(*self, kernel, i as int, j as int, k_i as int, k_j as int, convolved_value),
                            ) == all_terms(*self, kernel, i as int, j as int, 0, S::zero_spec()),
                        decreases kernel_size - k_j,
                    {
                        // The matrix entry under kernel entry (k_i, k_j), when there is one.
                        let in_range = i + k_i >= kernel_min && i + k_i - kernel_min < mat_rows
                            && j + k_j >= kernel_min && j + k_j - kernel_min < mat_cols;
                        let term = if in_range {
                            let pixel_value = self.get(i + k_i - kernel_min, j + k_j - kernel_min);
                            let kernel_value = kernel.get(k_i, k_j);
                            kernel_value.times(pixel_value)
                        } else {
                            S::zero()
                        };
                        convolved_value = convolved_value.plus(term);
                        k_j = k_j + 1;
                    }
                    k_i = k_i + 1;
                }
                proof {
                    assert forall|a: int, b: int| 0 <= a < i && 0 <= b < mat_cols implies at(mat_cols as int, a, b) < i * mat_cols by {
                        assert(a * mat_cols + b < i * mat_cols) by (nonlinear_arith)
                            requires
                                0 <= a < i,
                                0 <= b < mat_cols,
                        ;
                    }
                }
                conv.push(convolved_value);
                j = j + 1;
            }
            assert((i + 1) * mat_cols == i * mat_cols + mat_cols) by (nonlinear_arith);
            i = i + 1;
        }
        DMatrix::from_parts(mat_rows, mat_cols, conv)
    }
}

} // verus!
