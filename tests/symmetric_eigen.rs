use sparse_eigen::convolution::Vector;
use sparse_eigen::iso::Iso3;
use sparse_eigen::symmetric::{decompose_tridiagonal, delimit, wilkinson_shift, DMatrix, RealField, SymmetricEigen};

#[derive(Clone, Copy, Debug, PartialEq)]
struct F(f64);

impl RealField for F {
    // The functions that name each operation are the operations themselves.
    fn zero_spec() -> Self {
        Self::zero()
    }

    fn one_spec() -> Self {
        Self::one()
    }

    fn plus_spec(self, rhs: Self) -> Self {
        self.plus(rhs)
    }

    fn minus_spec(self, rhs: Self) -> Self {
        self.minus(rhs)
    }

    fn times_spec(self, rhs: Self) -> Self {
        self.times(rhs)
    }

    fn over_spec(self, rhs: Self) -> Self {
        self.over(rhs)
    }

    fn negate_spec(self) -> Self {
        self.negate()
    }

    fn magnitude_spec(self) -> Self {
        self.magnitude()
    }

    fn square_root_spec(self) -> Self {
        self.square_root()
    }

    fn sign_spec(self) -> Self {
        self.sign()
    }

    fn is_zero_spec(self) -> bool {
        self.is_zero()
    }

    fn greater_than_spec(self, rhs: Self) -> bool {
        self.greater_than(rhs)
    }

    fn half_spec(self) -> Self {
        self.half()
    }

    fn twice_spec(self) -> Self {
        self.twice()
    }

    fn default_epsilon_spec() -> Self {
        Self::default_epsilon()
    }

    fn zero() -> Self {
        F(0.0)
    }
    fn one() -> Self {
        F(1.0)
    }
    fn plus(self, rhs: Self) -> Self {
        F(self.0 + rhs.0)
    }
    fn minus(self, rhs: Self) -> Self {
        F(self.0 - rhs.0)
    }
    fn times(self, rhs: Self) -> Self {
        F(self.0 * rhs.0)
    }
    fn over(self, rhs: Self) -> Self {
        F(self.0 / rhs.0)
    }
    fn negate(self) -> Self {
        F(-self.0)
    }
    fn magnitude(self) -> Self {
        F(self.0.abs())
    }
    fn square_root(self) -> Self {
        F(self.0.sqrt())
    }
    fn sign(self) -> Self {
        if self.0 == 0.0 { F(1.0) } else { F(self.0.signum()) }
    }
    fn is_zero(self) -> bool {
        self.0 == 0.0
    }
    fn greater_than(self, rhs: Self) -> bool {
        self.0 > rhs.0
    }
    fn half(self) -> Self {
        F(self.0 * 0.5)
    }
    fn twice(self) -> Self {
        F(self.0 * 2.0)
    }
    fn default_epsilon() -> Self {
        F(f64::EPSILON)
    }
}

/// Relative comparison: the difference is within `epsilon`, or within machine
/// precision relative to the larger magnitude.
fn relative_eq(a: f64, b: f64, epsilon: f64) -> bool {
    let diff = (a - b).abs();
    diff <= epsilon || diff <= a.abs().max(b.abs()) * f64::EPSILON
}

/// A small deterministic generator of values in `[0, 1)`.
struct Lcg(u64);

impl Lcg {
    fn next(&mut self) -> f64 {
        self.0 = self.0.wrapping_mul(6364136223846793005).wrapping_add(1442695040888963407);
        (self.0 >> 11) as f64 / (1u64 << 53) as f64
    }
}

/// The eigenvalue of `[[m11, m12], [m21, m22]]` closest to `m22`.
fn expected_shift(m11: f64, m12: f64, m21: f64, m22: f64) -> f64 {
    let val = (m11 - m22) * 0.5;
    let discr = m21 * m12 + val * val;
    let sqrt_discr = discr.sqrt();
    let half_tra = (m11 + m22) * 0.5;
    let (x, y) = (half_tra + sqrt_discr, half_tra - sqrt_discr);
    if (x - m22).abs() < (y - m22).abs() {
        x
    } else {
        y
    }
}

fn shift(m11: f64, m12: f64, m21: f64, m22: f64) -> f64 {
    let _ = m21;
    wilkinson_shift(F(m11), F(m22), F(m12)).0
}

#[test]
fn wilkinson_shift_random() {
    let mut g = Lcg(7);
    for _ in 0..1000 {
        let (a, b, c, d) = (g.next(), g.next(), g.next(), g.next());
        // m * m^T for m = [[a, b], [c, d]]
        let (m11, m12, m22) = (a * a + b * b, a * c + b * d, c * c + d * d);
        let expected = expected_shift(m11, m12, m12, m22);
        let computed = shift(m11, m12, m12, m22);
        assert!(relative_eq(expected, computed, 1.0e-7));
    }
}

#[test]
fn wilkinson_shift_zero() {
    assert!(relative_eq(expected_shift(0.0, 0.0, 0.0, 0.0), shift(0.0, 0.0, 0.0, 0.0), f64::EPSILON));
}

#[test]
fn wilkinson_shift_zero_diagonal() {
    assert!(relative_eq(expected_shift(0.0, 42.0, 42.0, 0.0), shift(0.0, 42.0, 42.0, 0.0), f64::EPSILON));
}

#[test]
fn wilkinson_shift_zero_off_diagonal() {
    assert!(relative_eq(expected_shift(42.0, 0.0, 0.0, 64.0), shift(42.0, 0.0, 0.0, 64.0), f64::EPSILON));
}

#[test]
fn wilkinson_shift_zero_trace() {
    assert!(relative_eq(expected_shift(42.0, 20.0, 20.0, -42.0), shift(42.0, 20.0, 20.0, -42.0), f64::EPSILON));
}

#[test]
fn wilkinson_shift_zero_diag_diff_and_zero_off_diagonal() {
    assert!(relative_eq(expected_shift(42.0, 0.0, 0.0, 42.0), shift(42.0, 0.0, 0.0, 42.0), f64::EPSILON));
}

#[test]
fn wilkinson_shift_zero_det() {
    assert!(relative_eq(expected_shift(2.0, 4.0, 4.0, 8.0), shift(2.0, 4.0, 4.0, 8.0), f64::EPSILON));
}

#[test]
fn wilkinson_shift_exact_values() {
    assert_eq!(shift(42.0, 0.0, 0.0, 64.0), 64.0);
    // [[2, 4], [4, 8]] has eigenvalues 0 and 10; 10 is nearest 8.
    assert!((shift(2.0, 4.0, 4.0, 8.0) - 10.0).abs() < 1e-12);
}

fn random_symmetric(g: &mut Lcg, n: usize) -> Vec<f64> {
    let mut m = vec![0.0; n * n];
    for i in 0..n {
        for j in 0..=i {
            let v = g.next() * 20.0 - 10.0;
            m[i * n + j] = v;
            m[j * n + i] = v;
        }
    }
    m
}

fn matrix(n: usize, data: &[f64]) -> DMatrix<F> {
    DMatrix::from_row_slice(n, n, data.iter().map(|&v| F(v)).collect()).unwrap()
}

fn check_decomposition(n: usize, data: &[f64]) {
    let amax = data.iter().fold(0.0f64, |m, v| m.max(v.abs()));
    let e = matrix(n, data).symmetric_eigen();
    assert_eq!(e.eigenvalues.len(), n);
    let r = e.recompose();
    let tol = 1.0e-10 * (n as f64) * amax.max(1.0);
    for i in 0..n {
        for j in 0..n {
            assert!((r.get(i, j).0 - data[i * n + j]).abs() <= tol, "entry ({}, {})", i, j);
        }
    }
    // columns are orthonormal
    for a in 0..n {
        for b in 0..n {
            let dot: f64 = (0..n).map(|r| e.eigenvectors.get(r, a).0 * e.eigenvectors.get(r, b).0).sum();
            let expected = if a == b { 1.0 } else { 0.0 };
            assert!((dot - expected).abs() <= 1.0e-10 * n as f64, "columns {} and {}", a, b);
        }
    }
}

#[test]
fn reconstruction_and_orthonormality() {
    let mut g = Lcg(11);
    for n in 1..=12 {
        let data = random_symmetric(&mut g, n);
        check_decomposition(n, &data);
    }
    let data = random_symmetric(&mut g, 50);
    check_decomposition(50, &data);
}

#[test]
fn tridiagonal_and_diagonal_inputs() {
    check_decomposition(3, &[2.0, 1.0, 0.0, 1.0, 2.0, 1.0, 0.0, 1.0, 2.0]);
    check_decomposition(3, &[5.0, 0.0, 0.0, 0.0, -1.0, 0.0, 0.0, 0.0, 3.0]);
    check_decomposition(2, &[0.0, 0.0, 0.0, 0.0]);
    check_decomposition(2, &[1.0, 1.0, 1.0, 1.0]);
}

#[test]
fn only_lower_triangle_is_read() {
    let full = [4.0, 1.0, 1.0, 3.0];
    let lower = [4.0, 99.0, 1.0, 3.0];
    let a = matrix(2, &full).symmetric_eigenvalues();
    let b = matrix(2, &lower).symmetric_eigenvalues();
    assert_eq!(a, b);
}

#[test]
fn known_eigenvalues() {
    // [[2, 1], [1, 2]] has eigenvalues 3 and 1.
    let mut vals: Vec<f64> = matrix(2, &[2.0, 1.0, 1.0, 2.0]).symmetric_eigenvalues().iter().map(|v| v.0).collect();
    vals.sort_by(|a, b| a.partial_cmp(b).unwrap());
    assert!((vals[0] - 1.0).abs() < 1e-12 && (vals[1] - 3.0).abs() < 1e-12);
}

#[test]
fn eigenvalues_only_matches_full_decomposition() {
    let mut g = Lcg(5);
    for n in 1..=10 {
        let data = random_symmetric(&mut g, n);
        let mut a: Vec<f64> = matrix(n, &data).symmetric_eigenvalues().iter().map(|v| v.0).collect();
        let mut b: Vec<f64> = matrix(n, &data).symmetric_eigen().eigenvalues.iter().map(|v| v.0).collect();
        a.sort_by(|x, y| x.partial_cmp(y).unwrap());
        b.sort_by(|x, y| x.partial_cmp(y).unwrap());
        for i in 0..n {
            assert!((a[i] - b[i]).abs() <= 1e-10 * 10.0 * n as f64);
        }
    }
}

#[test]
fn one_by_one() {
    let e = matrix(1, &[-7.5]).symmetric_eigen();
    assert_eq!(e.eigenvalues, vec![F(-7.5)]);
    assert_eq!(e.eigenvectors.get(0, 0), F(1.0));
    let t = SymmetricEigen::try_new(matrix(1, &[3.0]), F(f64::EPSILON), 1).unwrap();
    assert_eq!(t.eigenvalues, vec![F(3.0)]);
}

#[test]
fn budget_of_one_iteration_gives_no_result() {
    let mut g = Lcg(3);
    let data = random_symmetric(&mut g, 6);
    assert!(matrix(6, &data).try_symmetric_eigen(F(f64::EPSILON), 1).is_none());
    assert!(matrix(6, &data).try_symmetric_eigen(F(f64::EPSILON), 0).is_some());
    assert!(matrix(6, &data).try_symmetric_eigen(F(f64::EPSILON), 1000).is_some());
}

#[test]
fn recompose_after_editing_eigenvalues() {
    let mut e = matrix(2, &[2.0, 1.0, 1.0, 2.0]).symmetric_eigen();
    for v in e.eigenvalues.iter_mut() {
        *v = F(1.0);
    }
    let r = e.recompose();
    assert!((r.get(0, 0).0 - 1.0).abs() < 1e-12 && r.get(0, 1).0.abs() < 1e-12);
}

#[test]
fn matrix_shape_checked() {
    assert!(DMatrix::from_row_slice(2, 3, vec![F(0.0); 6]).is_some());
    assert!(DMatrix::from_row_slice(2, 3, vec![F(0.0); 5]).is_none());
    let m = DMatrix::from_row_slice(2, 3, (0..6).map(|v| F(v as f64)).collect()).unwrap();
    assert_eq!((m.nrows(), m.ncols(), m.get(1, 2)), (2, 3, F(5.0)));
}

fn vector(v: &[f64]) -> Vector<F> {
    Vector::from_vec(v.iter().map(|&x| F(x)).collect())
}

fn values(v: &Vector<F>) -> Vec<f64> {
    v.as_slice().iter().map(|x| x.0).collect()
}

#[test]
fn convolve_full_values() {
    let r = vector(&[1.0, 2.0, 3.0]).convolve_full(vector(&[1.0, 1.0]));
    assert_eq!(values(&r), vec![1.0, 3.0, 5.0, 3.0]);
    let r = vector(&[1.0, 2.0, 3.0, 4.0]).convolve_full(vector(&[1.0, 0.0, -1.0]));
    assert_eq!(values(&r), vec![1.0, 2.0, 2.0, 2.0, -3.0, -4.0]);
    let r = vector(&[5.0]).convolve_full(vector(&[2.0]));
    assert_eq!(values(&r), vec![10.0]);
}

#[test]
fn convolve_valid_values() {
    let r = vector(&[1.0, 2.0, 3.0, 4.0]).convolve_valid(vector(&[1.0, 0.0, -1.0]));
    assert_eq!(values(&r), vec![2.0, 2.0]);
    let r = vector(&[1.0, 2.0]).convolve_valid(vector(&[3.0, 4.0]));
    assert_eq!(values(&r), vec![10.0]);
}

#[test]
fn convolve_same_values() {
    let r = vector(&[1.0, 2.0, 3.0, 4.0]).convolve_same(vector(&[1.0, 0.0, -1.0]));
    assert_eq!(values(&r), vec![2.0, 2.0, 2.0, -3.0]);
    assert_eq!(r.len(), 4);
    // centred on the full convolution for every kernel length
    assert_eq!(values(&vector(&[1.0, 2.0, 3.0]).convolve_same(vector(&[2.0]))), vec![2.0, 4.0, 6.0]);
    assert_eq!(values(&vector(&[1.0, 2.0, 3.0]).convolve_same(vector(&[1.0, 1.0]))), vec![1.0, 3.0, 5.0]);
    let v = vector(&[1.0, 2.0, 3.0, 4.0]);
    let full = values(&v.convolve_full(vector(&[1.0, 1.0, 1.0, 1.0])));
    assert_eq!(full, vec![1.0, 3.0, 6.0, 10.0, 9.0, 7.0, 4.0]);
    assert_eq!(values(&v.convolve_same(vector(&[1.0, 1.0, 1.0, 1.0]))), full[1..5].to_vec());
}

#[test]
fn mat_convolve_with_single_entry_kernel() {
    let m = DMatrix::from_row_slice(2, 2, vec![F(1.0), F(2.0), F(3.0), F(4.0)]).unwrap();
    let k = DMatrix::from_row_slice(1, 1, vec![F(2.0)]).unwrap();
    let r = m.mat_convolve_full(k);
    assert_eq!(r.as_slice(), &[F(2.0), F(4.0), F(6.0), F(8.0)]);
}

#[test]
fn mat_convolve_with_square_kernel() {
    let m = DMatrix::from_row_slice(3, 3, (1..=9).map(|v| F(v as f64)).collect()).unwrap();
    let k = DMatrix::from_row_slice(3, 3, vec![F(1.0); 9]).unwrap();
    let r = m.mat_convolve_full(k);
    // each entry sums its 3 x 3 neighbourhood, with zeros outside the matrix
    assert_eq!(r.get(0, 0), F(12.0));
    assert_eq!(r.get(1, 1), F(45.0));
    assert_eq!(r.get(2, 2), F(28.0));
    assert_eq!(r.get(0, 2), F(16.0));
    assert_eq!((r.nrows(), r.ncols()), (3, 3));
}

fn rotation_values(iso: &Iso3<F>) -> [[f64; 3]; 3] {
    let mut r = [[0.0; 3]; 3];
    for i in 0..3 {
        for j in 0..3 {
            r[i][j] = iso.rotation[i][j].0;
        }
    }
    r
}

#[test]
fn look_at_turns_x_axis() {
    let iso = Iso3::look_at(&[F(1.0), F(2.0), F(3.0)], &[F(3.0), F(2.0), F(3.0)], &[F(0.0), F(0.0), F(1.0)]);
    assert_eq!(rotation_values(&iso), [[1.0, 0.0, 0.0], [0.0, 0.0, 1.0], [0.0, -1.0, 0.0]]);
    assert_eq!(iso.translation, [F(1.0), F(2.0), F(3.0)]);
}

#[test]
fn look_at_z_turns_z_axis() {
    let iso = Iso3::look_at_z(&[F(0.0), F(0.0), F(0.0)], &[F(0.0), F(0.0), F(5.0)], &[F(0.0), F(1.0), F(0.0)]);
    assert_eq!(rotation_values(&iso), [[1.0, 0.0, 0.0], [0.0, 1.0, 0.0], [0.0, 0.0, 1.0]]);
}

fn fs(v: &[f64]) -> Vec<F> {
    v.iter().map(|&x| F(x)).collect()
}

#[test]
fn scan_zeroes_deflated_entries() {
    let diag = fs(&[1.0, 2.0, 3.0, 4.0]);
    let mut off = fs(&[0.5, 1e-30, 0.25]);
    let sub = delimit(&diag, &mut off, 2, F(f64::EPSILON));
    assert_eq!((sub.start, sub.end, sub.zeroed), (0, 1, None));
    // entry 1 lies after the block and is set to zero; entry 2 is beyond the scan
    assert_eq!(off, fs(&[0.5, 0.0, 0.25]));
    let mut off = fs(&[1e-30, 0.5, 0.25]);
    let sub = delimit(&diag, &mut off, 3, F(f64::EPSILON));
    assert_eq!((sub.start, sub.end, sub.zeroed), (1, 3, Some(0)));
    assert_eq!(off, fs(&[0.0, 0.5, 0.25]));
}

#[test]
fn iteration_count_and_budget() {
    let mut diag = fs(&[3.0, 1.0, 2.0]);
    let mut off = fs(&[0.0, 0.0]);
    let mut q: Option<Vec<F>> = None;
    assert_eq!(decompose_tridiagonal(&mut diag, &mut off, &mut q, F(f64::EPSILON), 1), (true, 0));
    assert_eq!(diag, fs(&[3.0, 1.0, 2.0]));
    let mut diag = fs(&[2.0, 1.0, 3.0, 5.0]);
    let mut off = fs(&[1.0, 1.0, 1.0]);
    assert_eq!(decompose_tridiagonal(&mut diag, &mut off, &mut q, F(f64::EPSILON), 1), (false, 1));
    let mut diag = fs(&[2.0, 1.0, 3.0, 5.0]);
    let mut off = fs(&[1.0, 1.0, 1.0]);
    let (converged, n) = decompose_tridiagonal(&mut diag, &mut off, &mut q, F(f64::EPSILON), 0);
    assert!(converged && n > 1);
}
