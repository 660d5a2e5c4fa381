//! The implicit-shift QR iteration of the symmetric eigensolver on a tridiagonal
//! matrix, generic over the scalar field.
//!
//! The arithmetic goes through `RealField`, each of whose operations is named by a spec
//! function. Every step of the solver has a spec counterpart written over those names
//! (the shift, the Givens rotations, the bulge chase, the 2-by-2 solution, the
//! deflation scan, the Householder reduction, the scaling), and the iteration as a
//! whole is `decomposition_of`: the public functions return exactly what it gives, and
//! the laws relating them (eigenvalues with or without eigenvectors, lower triangle
//! only, larger budgets) are proved over it.
use crate::eigen::{
    all_negligible, delimit_subproblem, delimited, phase_of, end_after_step, first_phase, is_delimited, next_phase, step_for, Phase, Step,
    Subproblem,
};
use vstd::prelude::*;

verus! {

/// The operations of a real scalar field that the solver uses. Each operation is a
/// function of its arguments, named by a spec function; an implementation's operations
/// must be deterministic for its contracts to hold.
pub trait RealField: Copy {
    spec fn zero_spec() -> Self;

    spec fn one_spec() -> Self;

    spec fn plus_spec(self, rhs: Self) -> Self;

    spec fn minus_spec(self, rhs: Self) -> Self;

    spec fn times_spec(self, rhs: Self) -> Self;

    spec fn over_spec(self, rhs: Self) -> Self;

    spec fn negate_spec(self) -> Self;

    spec fn magnitude_spec(self) -> Self;

    spec fn square_root_spec(self) -> Self;

    spec fn sign_spec(self) -> Self;

    spec fn is_zero_spec(self) -> bool;

    spec fn greater_than_spec(self, rhs: Self) -> bool;

    spec fn half_spec(self) -> Self;

    spec fn twice_spec(self) -> Self;

    spec fn default_epsilon_spec() -> Self;

    fn zero() -> (r: Self)
        ensures
            r == Self::zero_spec(),
    ;

    fn one() -> (r: Self)
        ensures
            r == Self::one_spec(),
    ;

    fn plus(self, rhs: Self) -> (r: Self)
        ensures
            r == self.plus_spec(rhs),
    ;

    fn minus(self, rhs: Self) -> (r: Self)
        ensures
            r == self.minus_spec(rhs),
    ;

    fn times(self, rhs: Self) -> (r: Self)
        ensures
            r == self.times_spec(rhs),
    ;

    fn over(self, rhs: Self) -> (r: Self)
        ensures
            r == self.over_spec(rhs),
    ;

    fn negate(self) -> (r: Self)
        ensures
            r == self.negate_spec(),
    ;

    /// The absolute value.
    fn magnitude(self) -> (r: Self)
        ensures
            r == self.magnitude_spec(),
    ;

    fn square_root(self) -> (r: Self)
        ensures
            r == self.square_root_spec(),
    ;

    /// 1 or -1; 1 for zero, whatever its sign.
    fn sign(self) -> (r: Self)
        ensures
            r == self.sign_spec(),
    ;

    fn is_zero(self) -> (r: bool)
        ensures
            r == self.is_zero_spec(),
    ;

    fn greater_than(self, rhs: Self) -> (r: bool)
        ensures
            r == self.greater_than_spec(rhs),
    ;

    /// The value times one half.
    fn half(self) -> (r: Self)
        ensures
            r == self.half_spec(),
    ;

    /// The value times two.
    fn twice(self) -> (r: Self)
        ensures
            r == self.twice_spec(),
    ;

    /// The tolerance used when none is given.
    fn default_epsilon() -> (r: Self)
        ensures
            r == Self::default_epsilon_spec(),
    ;
}

/// The position of entry `(r, c)` in a row-major matrix with `cols` columns.
pub open spec fn at(cols: int, r: int, c: int) -> int {
    r * cols + c
}

/// Entry `(r, c)` of a row-major `dim` by `dim` matrix lies inside it.
proof fn lemma_at_bound(dim: int, r: int, c: int)
    requires
        0 <= r < dim,
        0 <= c < dim,
    ensures
        0 <= r * dim + c < dim * dim,
        0 <= r * dim,
{
    assert(0 <= r * dim + c < dim * dim) by (nonlinear_arith)
        requires
            0 <= r < dim,
            0 <= c < dim,
    ;
    assert(0 <= r * dim) by (nonlinear_arith)
        requires
            0 <= r,
            0 <= dim,
    ;
}

/// The Wilkinson shift of `[[tmm, tmn], [tmn, tnn]]`: `tnn` when `tmn * tmn` is zero,
/// otherwise `tnn - tmn^2 / (d + sign(d) * sqrt(d^2 + tmn^2))` with `d = (tmm - tnn) / 2`.
pub open spec fn wilkinson_shift_spec<S: RealField>(tmm: S, tnn: S, tmn: S) -> S {
    let sq_tmn = tmn.times_spec(tmn);
    if !sq_tmn.is_zero_spec() {
        let d = tmm.minus_spec(tnn).half_spec();
        tnn.minus_spec(
            sq_tmn.over_spec(
                d.plus_spec(d.sign_spec().times_spec(d.times_spec(d).plus_spec(sq_tmn).square_root_spec())),
            ),
        )
    } else {
        tnn
    }
}

/// The Wilkinson shift: the eigenvalue of `[[tmm, tmn], [tmn, tnn]]` nearest `tnn`,
/// written so that it does not cancel when `tmm` is close to `tnn`.
pub fn wilkinson_shift<S: RealField>(tmm: S, tnn: S, tmn: S) -> (r: S)
    ensures
        r == wilkinson_shift_spec(tmm, tnn, tmn),
        tmn.times_spec(tmn).is_zero_spec() ==> r == tnn,
{
    let sq_tmn = tmn.times(tmn);
    if !sq_tmn.is_zero() {
        // The denominator cannot be zero.
        let d = tmm.minus(tnn).half();
        tnn.minus(sq_tmn.over(d.plus(d.sign().times(d.times(d).plus(sq_tmn).square_root()))))
    } else {
        tnn
    }
}

/// The off-diagonal entry `m` is not above `eps` times the sum of the magnitudes of its
/// two diagonal neighbours.
pub open spec fn negligible_spec<S: RealField>(diag: Seq<S>, off_diag: Seq<S>, m: int, eps: S) -> bool {
    !off_diag[m].magnitude_spec().greater_than_spec(
        eps.times_spec(diag[m].magnitude_spec().plus_spec(diag[m + 1].magnitude_spec())),
    )
}

/// For each off-diagonal entry, whether it is negligible.
pub open spec fn negligible_flags<S: RealField>(diag: Seq<S>, off_diag: Seq<S>, eps: S) -> Seq<bool> {
    Seq::new(off_diag.len(), |m: int| negligible_spec(diag, off_diag, m, eps))
}

/// `off_diag` after a scan that found `sub` below row `end`: the entries after the
/// block and the one the scan declares converged are zero, the others unchanged.
pub open spec fn deflated<S: RealField>(off_diag: Seq<S>, end: int, sub: Subproblem) -> Seq<S> {
    Seq::new(
        off_diag.len(),
        |k: int|
            if (sub.end <= k < end) || sub.zeroed == Some(k as usize) {
                S::zero_spec()
            } else {
                off_diag[k]
            },
    )
}

fn is_negligible<S: RealField>(diag: &Vec<S>, off_diag: &Vec<S>, m: usize, eps: S) -> (r: bool)
    requires
        m < off_diag@.len() <= usize::MAX,
        off_diag@.len() + 1 == diag@.len(),
    ensures
        r == negligible_spec(diag@, off_diag@, m as int, eps),
{
    !off_diag[m].magnitude().greater_than(eps.times(diag[m].magnitude().plus(diag[m + 1].magnitude())))
}

/// Runs the deflation scan on the rows `0 ..= end`, and sets to zero the off-diagonal
/// entries that it declares converged: those after the block it finds, and the one
/// that separates the block from the rows before it.
pub fn delimit<S: RealField>(diag: &Vec<S>, off_diag: &mut Vec<S>, end: usize, eps: S) -> (r: Subproblem)
    requires
        old(off_diag)@.len() + 1 == diag@.len(),
        end < diag@.len(),
    ensures
        is_delimited(negligible_flags(diag@, old(off_diag)@, eps), end as int, r),
        r == delimited(negligible_flags(diag@, old(off_diag)@, eps), end as int),
        final(off_diag)@ == deflated(old(off_diag)@, end as int, r),
        r.start <= r.end <= end,
        r.start == r.end ==> r.end == 0,
{
    let ghost old_off = off_diag@;
    let len = off_diag.len();
    let mut flags: Vec<bool> = Vec::with_capacity(len);
    let mut m: usize = 0;
    while m < len
        invariant
            off_diag@ == old_off,
            len == off_diag@.len(),
            off_diag@.len() + 1 == diag@.len(),
            m <= len,
            flags@ == negligible_flags(diag@, old_off, eps).subrange(0, m as int),
        decreases len - m,
    {
        flags.push(is_negligible(diag, off_diag, m, eps));
        m = m + 1;
        assert(flags@ == negligible_flags(diag@, old_off, eps).subrange(0, m as int));
    }
    assert(flags@ == negligible_flags(diag@, old_off, eps));
    let sub = delimit_subproblem(flags.as_slice(), end);
    let mut k: usize = sub.end;
    while k < end
        invariant
            sub.end <= k <= end,
            end <= len,
            off_diag@.len() == len,
            forall|t: int| 0 <= t < len ==> #[trigger] off_diag@[t] == if sub.end <= t < k {
                S::zero_spec()
            } else {
                old_off[t]
            },
        decreases end - k,
    {
        off_diag.set(k, S::zero());
        k = k + 1;
    }
    if let Some(z) = sub.zeroed {
        off_diag.set(z, S::zero());
    }
    assert(off_diag@ == deflated(old_off, end as int, sub));
    sub
}

/// The rotation `(c, s)` that turns `(x, y)` into `(norm, 0)`, with that norm; `None`
/// when `y` is already zero.
pub open spec fn cancel_y_spec<S: RealField>(x: S, y: S) -> Option<(S, S, S)> {
    if !y.is_zero_spec() {
        let mod0 = if !x.is_zero_spec() { x.magnitude_spec() } else { S::zero_spec() };
        let sign0 = if !x.is_zero_spec() { x.sign_spec() } else { S::one_spec() };
        let denom = mod0.times_spec(mod0).plus_spec(y.times_spec(y)).square_root_spec();
        Some((mod0.over_spec(denom), y.negate_spec().over_spec(denom).times_spec(sign0), sign0.times_spec(denom)))
    } else {
        None
    }
}

fn cancel_y<S: RealField>(x: S, y: S) -> (r: Option<(S, S, S)>)
    ensures
        r == cancel_y_spec(x, y),
{
    if !y.is_zero() {
        let (mod0, sign0) = if !x.is_zero() {
            (x.magnitude(), x.sign())
        } else {
            (S::zero(), S::one())
        };
        let denom = mod0.times(mod0).plus(y.times(y)).square_root();
        Some((mod0.over(denom), y.negate().over(denom).times(sign0), sign0.times(denom)))
    } else {
        None
    }
}

/// The rotation with the non-normalised cosine `c` and sine `s`; `None` when their
/// norm is not above `eps`.
pub open spec fn rotation_from_spec<S: RealField>(c: S, s: S, eps: S) -> Option<(S, S)> {
    let mod0 = if !c.is_zero_spec() { c.magnitude_spec() } else { S::zero_spec() };
    let sign0 = if !c.is_zero_spec() { c.sign_spec() } else { S::one_spec() };
    let denom = mod0.times_spec(mod0).plus_spec(s.times_spec(s)).square_root_spec();
    if denom.greater_than_spec(eps) {
        Some((mod0.over_spec(denom), s.over_spec(sign0.times_spec(denom))))
    } else {
        None
    }
}

fn rotation_from<S: RealField>(c: S, s: S, eps: S) -> (r: Option<(S, S)>)
    ensures
        r == rotation_from_spec(c, s, eps),
{
    let (mod0, sign0) = if !c.is_zero() {
        (c.magnitude(), c.sign())
    } else {
        (S::zero(), S::one())
    };
    let denom = mod0.times(mod0).plus(s.times(s)).square_root();
    if denom.greater_than(eps) {
        Some((mod0.over(denom), s.over(sign0.times(denom))))
    } else {
        None
    }
}

/// `q` with the columns `i` and `i + 1` of its rows `r ..` multiplied on the right by
/// `[[c, -s], [s, c]]`, row after row.
pub open spec fn rotated_rows<S: RealField>(q: Seq<S>, dim: int, i: int, c: S, s: S, r: int) -> Seq<S>
    decreases dim - r,
{
    if r >= dim {
        q
    } else {
        let k = at(dim, r, i);
        let a = q[k];
        let b = q[k + 1];
        rotated_rows(
            q.update(k, a.times_spec(c).plus_spec(s.times_spec(b))).update(
                k + 1,
                s.negate_spec().times_spec(a).plus_spec(b.times_spec(c)),
            ),
            dim,
            i,
            c,
            s,
            r + 1,
        )
    }
}

/// Multiplies the columns `i` and `i + 1` of the `dim` by `dim` matrix `q` on the right
/// by the rotation `[[c, -s], [s, c]]`.
fn rotate_columns<S: RealField>(q: &mut Vec<S>, dim: usize, i: usize, c: S, s: S)
    requires
        old(q)@.len() == dim * dim,
        dim * dim <= usize::MAX,
        i + 1 < dim,
    ensures
        final(q)@.len() == old(q)@.len(),
        final(q)@ == rotated_rows(old(q)@, dim as int, i as int, c, s, 0),
{
    let mut r: usize = 0;
    while r < dim
        invariant
            q@.len() == dim * dim,
            dim * dim <= usize::MAX,
            i + 1 < dim,
            r <= dim,
            rotated_rows(q@, dim as int, i as int, c, s, r as int) == rotated_rows(old(q)@, dim as int, i as int, c, s, 0),
        decreases dim - r,
    {
        proof {
            lemma_at_bound(dim as int, r as int, i as int);
            lemma_at_bound(dim as int, r as int, i + 1);
        }
        let k = r * dim + i;
        let a = q[k];
        let b = q[k + 1];
        q[k] = a.times(c).plus(s.times(b));
        q[k + 1] = s.negate().times(a).plus(b.times(c));
        r = r + 1;
    }
}

/// The rotations applied to `q`, when there is one.
pub open spec fn rotated<S: RealField>(q: Option<Seq<S>>, dim: int, i: int, c: S, s: S) -> Option<Seq<S>> {
    match q {
        Some(m) => Some(rotated_rows(m, dim, i, c, s, 0)),
        None => None,
    }
}

/// The view of an optional matrix.
pub open spec fn opt_view<S>(q: Option<Vec<S>>) -> Option<Seq<S>> {
    match q {
        Some(m) => Some(m@),
        None => None,
    }
}

/// The bulge chase of a sweep from row `i` on, with the vector `(vx, vy)` still to be
/// rotated: `(diag, off_diag, q)` when it ends at row `n` or when no rotation exists.
pub open spec fn chase<S: RealField>(
    diag: Seq<S>,
    off: Seq<S>,
    q: Option<Seq<S>>,
    dim: int,
    start: int,
    n: int,
    i: int,
    vx: S,
    vy: S,
) -> (Seq<S>, Seq<S>, Option<Seq<S>>)
    decreases n - i,
{
    if i >= n {
        (diag, off, q)
    } else {
        match cancel_y_spec(vx, vy) {
            None => (diag, off, q),
            Some((c, s, norm)) => {
                let off1 = if i > start { off.update(i - 1, norm) } else { off };
                let mii = diag[i];
                let mjj = diag[i + 1];
                let mij = off1[i];
                let cc = c.times_spec(c);
                let ss = s.times_spec(s);
                let cs = c.times_spec(s);
                let b = cs.twice_spec().times_spec(mij);
                let diag2 = diag.update(i, cc.times_spec(mii).plus_spec(ss.times_spec(mjj)).minus_spec(b)).update(
                    i + 1,
                    ss.times_spec(mii).plus_spec(cc.times_spec(mjj)).plus_spec(b),
                );
                let off2 = off1.update(i, cs.times_spec(mii.minus_spec(mjj)).plus_spec(mij.times_spec(cc.minus_spec(ss))));
                let vx2 = if i != n - 1 { off2[i] } else { vx };
                let vy2 = if i != n - 1 { s.negate_spec().times_spec(off2[i + 1]) } else { vy };
                let off3 = if i != n - 1 { off2.update(i + 1, off2[i + 1].times_spec(c)) } else { off2 };
                chase(diag2, off3, rotated(q, dim, i, c, s.negate_spec()), dim, start, n, i + 1, vx2, vy2)
            },
        }
    }
}

/// One implicit-shift sweep over the block `[start, end]`.
pub open spec fn sweep_spec<S: RealField>(
    diag: Seq<S>,
    off: Seq<S>,
    q: Option<Seq<S>>,
    dim: int,
    start: int,
    end: int,
) -> (Seq<S>, Seq<S>, Option<Seq<S>>) {
    let vx = diag[start].minus_spec(wilkinson_shift_spec(diag[end - 1], diag[end], off[end - 1]));
    chase(diag, off, q, dim, start, end, start, vx, off[start])
}

/// One implicit-shift QR sweep over the unreduced block `[start, end]`, chasing the
/// bulge down the block and accumulating the rotations into `q`.
fn sweep<S: RealField>(
    diag: &mut Vec<S>,
    off_diag: &mut Vec<S>,
    q: &mut Option<Vec<S>>,
    dim: usize,
    start: usize,
    end: usize,
)
    requires
        old(diag)@.len() == dim,
        old(off_diag)@.len() + 1 == dim,
        start < end < dim,
        *old(q) matches Some(m) ==> m@.len() == dim * dim,
        dim * dim <= usize::MAX,
    ensures
        final(diag)@.len() == dim,
        final(off_diag)@.len() + 1 == dim,
        *final(q) matches Some(m) ==> m@.len() == dim * dim,
        final(q).is_some() == old(q).is_some(),
        forall|k: int| 0 <= k < dim && !(start <= k <= end) ==> #[trigger] final(diag)@[k] == old(diag)@[k],
        forall|k: int| 0 <= k < dim - 1 && !(start <= k < end) ==> #[trigger] final(off_diag)@[k] == old(off_diag)@[k],
        (final(diag)@, final(off_diag)@, opt_view(*final(q))) == sweep_spec(
            old(diag)@,
            old(off_diag)@,
            opt_view(*old(q)),
            dim as int,
            start as int,
            end as int,
        ),
{
    let ghost target = sweep_spec(diag@, off_diag@, opt_view(*q), dim as int, start as int, end as int);
    let m = end - 1;
    let n = end;
    let mut vx = diag[start].minus(wilkinson_shift(diag[m], diag[n], off_diag[m]));
    let mut vy = off_diag[start];
    let mut i: usize = start;
    let mut chasing = true;
    while chasing && i < n
        invariant
            chase(diag@, off_diag@, opt_view(*q), dim as int, start as int, n as int, i as int, vx, vy) == target,
            !chasing ==> cancel_y_spec(vx, vy) is None,
            diag@.len() == dim,
            off_diag@.len() + 1 == dim,
            start <= i <= n,
            n == end,
            end < dim,
            *q matches Some(m) ==> m@.len() == dim * dim,
            dim * dim <= usize::MAX,
            q.is_some() == old(q).is_some(),
            forall|k: int| 0 <= k < dim && !(start <= k <= end) ==> #[trigger] diag@[k] == old(diag)@[k],
            forall|k: int| 0 <= k < dim - 1 && !(start <= k < end) ==> #[trigger] off_diag@[k] == old(off_diag)@[k],
        decreases n - i + if chasing { 1int } else { 0int },
    {
        let j = i + 1;
        match cancel_y(vx, vy) {
            Some((c, s, norm)) => {
                if i > start {
                    off_diag[i - 1] = norm;
                }
                let mii = diag[i];
                let mjj = diag[j];
                let mij = off_diag[i];
                let cc = c.times(c);
                let ss = s.times(s);
                let cs = c.times(s);
                let b = cs.twice().times(mij);
                diag[i] = cc.times(mii).plus(ss.times(mjj)).minus(b);
                diag[j] = ss.times(mii).plus(cc.times(mjj)).plus(b);
                off_diag[i] = cs.times(mii.minus(mjj)).plus(mij.times(cc.minus(ss)));
                if i != n - 1 {
                    vx = off_diag[i];
                    vy = s.negate().times(off_diag[i + 1]);
                    off_diag[i + 1] = off_diag[i + 1].times(c);
                }
                match q {
                    Some(qm) => rotate_columns(qm, dim, i, c, s.negate()),
                    None => {},
                }
                i = i + 1;
            },
            None => {
                // No rotation exists: the block has decoupled, which the next
                // deflation scan detects.
                chasing = false;
            },
        }
    }
}

/// The closed-form solution of the 2-by-2 block at rows `start` and `start + 1`.
pub open spec fn solve2_spec<S: RealField>(
    diag: Seq<S>,
    off: Seq<S>,
    q: Option<Seq<S>>,
    dim: int,
    start: int,
    eps: S,
) -> (Seq<S>, Option<Seq<S>>) {
    let h00 = diag[start];
    let h11 = diag[start + 1];
    let h10 = off[start];
    let val = h00.minus_spec(h11).half_spec();
    let sqrt_discr = h10.times_spec(h10).plus_spec(val.times_spec(val)).square_root_spec();
    let half_tra = h00.plus_spec(h11).half_spec();
    let x = half_tra.plus_spec(sqrt_discr);
    let y = half_tra.minus_spec(sqrt_discr);
    let q2 = match rotation_from_spec(x.minus_spec(h11), h10, eps) {
        Some((c, s)) => rotated(q, dim, start, c, s),
        None => q,
    };
    (diag.update(start, x).update(start + 1, y), q2)
}

/// Solves the 2-by-2 block at rows `start` and `start + 1` in closed form, and turns
/// the corresponding columns of `q` onto its eigenvectors.
fn solve2<S: RealField>(
    diag: &mut Vec<S>,
    off_diag: &Vec<S>,
    q: &mut Option<Vec<S>>,
    dim: usize,
    start: usize,
    eps: S,
)
    requires
        old(diag)@.len() == dim,
        off_diag@.len() + 1 == dim,
        start + 1 < dim,
        *old(q) matches Some(m) ==> m@.len() == dim * dim,
        dim * dim <= usize::MAX,
    ensures
        final(diag)@.len() == dim,
        *final(q) matches Some(m) ==> m@.len() == dim * dim,
        final(q).is_some() == old(q).is_some(),
        forall|k: int| 0 <= k < dim && k != start && k != start + 1 ==> #[trigger] final(diag)@[k] == old(diag)@[k],
        (final(diag)@, opt_view(*final(q))) == solve2_spec(old(diag)@, off_diag@, opt_view(*old(q)), dim as int, start as int, eps),
{
    let h00 = diag[start];
    let h11 = diag[start + 1];
    let h10 = off_diag[start];
    let val = h00.minus(h11).half();
    let sqrt_discr = h10.times(h10).plus(val.times(val)).square_root();
    let half_tra = h00.plus(h11).half();
    let x = half_tra.plus(sqrt_discr);
    let y = half_tra.minus(sqrt_discr);
    let basis_x = x.minus(h11);
    let basis_y = h10;
    diag[start] = x;
    diag[start + 1] = y;
    match q {
        Some(qm) => match rotation_from(basis_x, basis_y, eps) {
            Some((c, s)) => rotate_columns(qm, dim, start, c, s),
            None => {},
        },
        None => {},
    }
}

/// The number of iterations allowed by `max_niter`: `usize::MAX` when it is 0.
pub open spec fn budget_of(max_niter: usize) -> nat {
    if max_niter == 0 {
        usize::MAX as nat
    } else {
        max_niter as nat
    }
}

/// The iteration from `phase` after `niter` iterations, within `budget` iterations:
/// whether it converged, the iterations run, and the final diagonal, off-diagonal and
/// accumulated rotations.
pub open spec fn iterate<S: RealField>(
    diag: Seq<S>,
    off: Seq<S>,
    q: Option<Seq<S>>,
    dim: int,
    eps: S,
    phase: Phase,
    niter: nat,
    budget: nat,
) -> (bool, nat, Seq<S>, Seq<S>, Option<Seq<S>>)
    decreases budget - niter,
{
    match phase {
        Phase::Running { start, end } => {
            if niter < budget {
                let (start, end) = (start as int, end as int);
                let stepped = if end - start > 1 {
                    sweep_spec(diag, off, q, dim, start, end)
                } else {
                    let (d, qq) = solve2_spec(diag, off, q, dim, start, eps);
                    (d, off, qq)
                };
                let (d1, o1, q1) = stepped;
                let new_end = if end - start > 1 && !negligible_spec(d1, o1, end - 1, eps) {
                    end
                } else {
                    end - 1
                };
                let sub = delimited(negligible_flags(d1, o1, eps), new_end);
                iterate(
                    d1,
                    deflated(o1, new_end, sub),
                    q1,
                    dim,
                    eps,
                    phase_of(sub, niter + 1, budget),
                    niter + 1,
                    budget,
                )
            } else {
                (false, niter, diag, off, q)
            }
        },
        Phase::Converged => (true, niter, diag, off, q),
        Phase::Diverged => (false, niter, diag, off, q),
    }
}

/// The whole iteration on a tridiagonal matrix: the opening scan, then `iterate`
/// within the budget of `max_niter`.
pub open spec fn decompose_spec<S: RealField>(
    diag: Seq<S>,
    off: Seq<S>,
    q: Option<Seq<S>>,
    eps: S,
    max_niter: usize,
) -> (bool, nat, Seq<S>, Seq<S>, Option<Seq<S>>) {
    let dim = diag.len() as int;
    let sub = delimited(negligible_flags(diag, off, eps), dim - 1);
    iterate(diag, deflated(off, dim - 1, sub), q, dim, eps, phase_of(sub, 0, 0), 0, budget_of(max_niter))
}

/// The bulge chase moves the diagonal and off-diagonal alike whether or not rotations
/// are accumulated.
proof fn lemma_chase_without_rotations<S: RealField>(
    diag: Seq<S>,
    off: Seq<S>,
    q: Option<Seq<S>>,
    dim: int,
    start: int,
    n: int,
    i: int,
    vx: S,
    vy: S,
)
    ensures
        chase(diag, off, q, dim, start, n, i, vx, vy).0 == chase(diag, off, None, dim, start, n, i, vx, vy).0,
        chase(diag, off, q, dim, start, n, i, vx, vy).1 == chase(diag, off, None, dim, start, n, i, vx, vy).1,
    decreases n - i,
{
    if i < n {
        if let Some((c, s, norm)) = cancel_y_spec(vx, vy) {
            let off1 = if i > start { off.update(i - 1, norm) } else { off };
            let mii = diag[i];
            let mjj = diag[i + 1];
            let mij = off1[i];
            let cc = c.times_spec(c);
            let ss = s.times_spec(s);
            let cs = c.times_spec(s);
            let b = cs.twice_spec().times_spec(mij);
            let diag2 = diag.update(i, cc.times_spec(mii).plus_spec(ss.times_spec(mjj)).minus_spec(b)).update(
                i + 1,
                ss.times_spec(mii).plus_spec(cc.times_spec(mjj)).plus_spec(b),
            );
            let off2 = off1.update(i, cs.times_spec(mii.minus_spec(mjj)).plus_spec(mij.times_spec(cc.minus_spec(ss))));
            let vx2 = if i != n - 1 { off2[i] } else { vx };
            let vy2 = if i != n - 1 { s.negate_spec().times_spec(off2[i + 1]) } else { vy };
            let off3 = if i != n - 1 { off2.update(i + 1, off2[i + 1].times_spec(c)) } else { off2 };
            lemma_chase_without_rotations(diag2, off3, rotated(q, dim, i, c, s.negate_spec()), dim, start, n, i + 1, vx2, vy2);
            lemma_chase_without_rotations(diag2, off3, None, dim, start, n, i + 1, vx2, vy2);
        }
    }
}

/// The iteration runs alike, and ends with the same eigenvalues, whether or not
/// rotations are accumulated.
pub proof fn lemma_iterate_without_rotations<S: RealField>(
    diag: Seq<S>,
    off: Seq<S>,
    q: Option<Seq<S>>,
    dim: int,
    eps: S,
    phase: Phase,
    niter: nat,
    budget: nat,
)
    ensures
        iterate(diag, off, q, dim, eps, phase, niter, budget).0 == iterate(diag, off, None, dim, eps, phase, niter, budget).0,
        iterate(diag, off, q, dim, eps, phase, niter, budget).1 == iterate(diag, off, None, dim, eps, phase, niter, budget).1,
        iterate(diag, off, q, dim, eps, phase, niter, budget).2 == iterate(diag, off, None, dim, eps, phase, niter, budget).2,
        iterate(diag, off, q, dim, eps, phase, niter, budget).3 == iterate(diag, off, None, dim, eps, phase, niter, budget).3,
    decreases budget - niter,
{
    if let Phase::Running { start, end } = phase {
        if niter < budget {
            let (start, end) = (start as int, end as int);
            if end - start > 1 {
                let vx = diag[start].minus_spec(wilkinson_shift_spec(diag[end - 1], diag[end], off[end - 1]));
                lemma_chase_without_rotations(diag, off, q, dim, start, end, start, vx, off[start]);
            }
            let stepped = if end - start > 1 {
                sweep_spec(diag, off, q, dim, start, end)
            } else {
                let (d, qq) = solve2_spec(diag, off, q, dim, start, eps);
                (d, off, qq)
            };
            let stepped_none = if end - start > 1 {
                sweep_spec(diag, off, None, dim, start, end)
            } else {
                let (d, qq) = solve2_spec(diag, off, None, dim, start, eps);
                (d, off, qq)
            };
            let (d1, o1, q1) = stepped;
            let (d2, o2, q2) = stepped_none;
            assert(d1 == d2 && o1 == o2);
            let new_end = if end - start > 1 && !negligible_spec(d1, o1, end - 1, eps) {
                end
            } else {
                end - 1
            };
            let sub = delimited(negligible_flags(d1, o1, eps), new_end);
            let o3 = deflated(o1, new_end, sub);
            let ph = phase_of(sub, niter + 1, budget);
            lemma_iterate_without_rotations(d1, o3, q1, dim, eps, ph, niter + 1, budget);
            lemma_iterate_without_rotations(d1, o3, q2, dim, eps, ph, niter + 1, budget);
        }
    }
}

/// An iteration that converged within `budget` iterations gives the same result with
/// any larger budget.
pub proof fn lemma_iterate_larger_budget<S: RealField>(
    diag: Seq<S>,
    off: Seq<S>,
    q: Option<Seq<S>>,
    dim: int,
    eps: S,
    phase: Phase,
    niter: nat,
    budget: nat,
    larger: nat,
)
    requires
        budget <= larger,
        niter <= budget,
        phase != Phase::Diverged,
        iterate(diag, off, q, dim, eps, phase, niter, budget).0,
    ensures
        iterate(diag, off, q, dim, eps, phase, niter, larger) == iterate(diag, off, q, dim, eps, phase, niter, budget),
    decreases budget - niter,
{
    if let Phase::Running { start, end } = phase {
        if niter < budget {
            let (start, end) = (start as int, end as int);
            let stepped = if end - start > 1 {
                sweep_spec(diag, off, q, dim, start, end)
            } else {
                let (d, qq) = solve2_spec(diag, off, q, dim, start, eps);
                (d, off, qq)
            };
            let (d1, o1, q1) = stepped;
            let new_end = if end - start > 1 && !negligible_spec(d1, o1, end - 1, eps) {
                end
            } else {
                end - 1
            };
            let sub = delimited(negligible_flags(d1, o1, eps), new_end);
            let o3 = deflated(o1, new_end, sub);
            let ph = phase_of(sub, niter + 1, budget);
            assert(iterate(diag, off, q, dim, eps, phase, niter, budget) == iterate(d1, o3, q1, dim, eps, ph, niter + 1, budget));
            if ph != Phase::Diverged {
                assert(phase_of(sub, niter + 1, larger) == ph);
                assert(iterate(diag, off, q, dim, eps, phase, niter, larger) == iterate(d1, o3, q1, dim, eps, ph, niter + 1, larger));
                lemma_iterate_larger_budget(d1, o3, q1, dim, eps, ph, niter + 1, budget, larger);
            }
        }
    }
}

/// Diagonalises the symmetric tridiagonal matrix with diagonal `diag` and off-diagonal
/// `off_diag` in place, accumulating the rotations into `q` when it is given. Returns
/// whether it converged, and the number of iterations it ran: a run that did not
/// converge used up the whole budget, `max_niter` iterations (`usize::MAX` when 0). On
/// convergence `diag` holds the unsorted eigenvalues.
pub fn decompose_tridiagonal<S: RealField>(
    diag: &mut Vec<S>,
    off_diag: &mut Vec<S>,
    q: &mut Option<Vec<S>>,
    eps: S,
    max_niter: usize,
) -> (r: (bool, usize))
    requires
        old(diag)@.len() >= 1,
        old(off_diag)@.len() + 1 == old(diag)@.len(),
        *old(q) matches Some(m) ==> m@.len() == old(diag)@.len() * old(diag)@.len(),
        old(diag)@.len() * old(diag)@.len() <= usize::MAX,
    ensures
        final(diag)@.len() == old(diag)@.len(),
        final(off_diag)@.len() == old(off_diag)@.len(),
        final(q).is_some() == old(q).is_some(),
        *final(q) matches Some(m) ==> m@.len() == old(diag)@.len() * old(diag)@.len(),
        r.1 <= budget_of(max_niter),
        !r.0 ==> r.1 == budget_of(max_niter),
        all_negligible(negligible_flags(old(diag)@, old(off_diag)@, eps), 0, old(off_diag)@.len() as int)
            ==> r.0 && r.1 == 0 && final(diag)@ == old(diag)@ && *final(q) == *old(q),
        old(diag)@.len() == 1 ==> r.0 && r.1 == 0 && final(diag)@ == old(diag)@ && *final(q) == *old(q),
        (r.0, r.1 as nat, final(diag)@, final(off_diag)@, opt_view(*final(q))) == decompose_spec(
            old(diag)@,
            old(off_diag)@,
            opt_view(*old(q)),
            eps,
            max_niter,
        ),
{
    let ghost target = decompose_spec(diag@, off_diag@, opt_view(*q), eps, max_niter);
    let dim = diag.len();
    let budget: usize = if max_niter == 0 {
        usize::MAX
    } else {
        max_niter
    };
    let ghost settled = all_negligible(negligible_flags(diag@, off_diag@, eps), 0, off_diag@.len() as int);
    let ghost flags = negligible_flags(diag@, off_diag@, eps);
    let sub = delimit(diag, off_diag, dim - 1, eps);
    proof {
        if settled && sub.end != 0 {
            assert(!flags[sub.end - 1]);
            assert(flags[sub.end - 1]);
        }
    }
    let mut phase = first_phase(sub);
    let mut niter: usize = 0;
    let mut running = phase != Phase::Converged;
    while running
        invariant
            iterate(diag@, off_diag@, opt_view(*q), dim as int, eps, phase, niter as nat, budget as nat) == target,
            diag@.len() == dim,
            off_diag@.len() + 1 == dim,
            *q matches Some(m) ==> m@.len() == dim * dim,
            dim * dim <= usize::MAX,
            q.is_some() == old(q).is_some(),
            budget == budget_of(max_niter),
            budget > 0,
            niter <= budget,
            running <==> phase is Running,
            phase is Running ==> niter < budget,
            phase matches Phase::Running { start, end } ==> start < end < dim,
            phase == Phase::Diverged ==> niter == budget,
            (settled || dim == 1) ==> phase == Phase::Converged && niter == 0 && diag@ == old(diag)@
                && *q == *old(q),
        decreases budget - niter,
    {
        if let Phase::Running { start, end } = phase {
            let step = step_for(start, end);
            match step {
                Step::Sweep { start, end } => sweep(diag, off_diag, q, dim, start, end),
                Step::Solve2 { start } => solve2(diag, off_diag, q, dim, start, eps),
            }
            let last_negligible = is_negligible(diag, off_diag, end - 1, eps);
            let new_end = end_after_step(step, end, last_negligible);
            let sub = delimit(diag, off_diag, new_end, eps);
            niter = niter + 1;
            phase = next_phase(sub, niter, budget);
            running = phase != Phase::Converged && phase != Phase::Diverged;
        }
    }
    (phase == Phase::Converged, niter)
}

/// The sum of the squares of `x[t ..]`, added in order onto `acc`.
pub open spec fn sum_squares<S: RealField>(x: Seq<S>, t: int, acc: S) -> S
    decreases x.len() - t,
{
    if t >= x.len() {
        acc
    } else {
        sum_squares(x, t + 1, acc.plus_spec(x[t].times_spec(x[t])))
    }
}

/// `x / |x|`, or `None` when the norm is zero.
pub open spec fn normalized_spec<S: RealField>(x: Seq<S>) -> Option<Seq<S>> {
    let norm = sum_squares(x, 0, S::zero_spec()).square_root_spec();
    if norm.is_zero_spec() {
        None
    } else {
        Some(Seq::new(x.len(), |t: int| x[t].over_spec(norm)))
    }
}

/// The dot product of `v` with the entries `k + 1 + t ..` of column `c`, added onto `acc`.
pub open spec fn col_dot<S: RealField>(a: Seq<S>, n: int, k: int, v: Seq<S>, c: int, t: int, acc: S) -> S
    decreases v.len() - t,
{
    if t >= v.len() {
        acc
    } else {
        col_dot(a, n, k, v, c, t + 1, acc.plus_spec(v[t].times_spec(a[at(n, k + 1 + t, c)])))
    }
}

/// Column `c` from row `k + 1 + t` on, less `2 v dot`.
pub open spec fn col_update<S: RealField>(a: Seq<S>, n: int, k: int, v: Seq<S>, c: int, dot: S, t: int) -> Seq<S>
    decreases v.len() - t,
{
    if t >= v.len() {
        a
    } else {
        let idx = at(n, k + 1 + t, c);
        col_update(a.update(idx, a[idx].minus_spec(v[t].twice_spec().times_spec(dot))), n, k, v, c, dot, t + 1)
    }
}

/// The reflection `I - 2 v v^T` applied from the left, to the columns `c ..`.
pub open spec fn reflect_rows_spec<S: RealField>(a: Seq<S>, n: int, k: int, v: Seq<S>, c: int) -> Seq<S>
    decreases n - c,
{
    if c >= n {
        a
    } else {
        reflect_rows_spec(col_update(a, n, k, v, c, col_dot(a, n, k, v, c, 0, S::zero_spec()), 0), n, k, v, c + 1)
    }
}

/// The dot product of the entries `k + 1 + t ..` of row `r` with `v`, added onto `acc`.
pub open spec fn row_dot<S: RealField>(a: Seq<S>, n: int, k: int, v: Seq<S>, r: int, t: int, acc: S) -> S
    decreases v.len() - t,
{
    if t >= v.len() {
        acc
    } else {
        row_dot(a, n, k, v, r, t + 1, acc.plus_spec(a[at(n, r, k + 1 + t)].times_spec(v[t])))
    }
}

/// Row `r` from column `k + 1 + t` on, less `2 dot v`.
pub open spec fn row_update<S: RealField>(a: Seq<S>, n: int, k: int, v: Seq<S>, r: int, dot: S, t: int) -> Seq<S>
    decreases v.len() - t,
{
    if t >= v.len() {
        a
    } else {
        let idx = at(n, r, k + 1 + t);
        row_update(a.update(idx, a[idx].minus_spec(dot.twice_spec().times_spec(v[t]))), n, k, v, r, dot, t + 1)
    }
}

/// The reflection `I - 2 v v^T` applied from the right, to the rows `r ..`.
pub open spec fn reflect_cols_spec<S: RealField>(a: Seq<S>, n: int, k: int, v: Seq<S>, r: int) -> Seq<S>
    decreases n - r,
{
    if r >= n {
        a
    } else {
        reflect_cols_spec(row_update(a, n, k, v, r, row_dot(a, n, k, v, r, 0, S::zero_spec()), 0), n, k, v, r + 1)
    }
}

/// The `n` by `n` identity, row-major.
pub open spec fn identity_spec<S: RealField>(n: int) -> Seq<S> {
    Seq::new((n * n) as nat, |p: int| if p / n == p % n { S::one_spec() } else { S::zero_spec() })
}

/// The Householder vector that clears column `k` below its subdiagonal, if any.
pub open spec fn householder<S: RealField>(a: Seq<S>, n: int, k: int) -> Option<Seq<S>> {
    let x = Seq::new((n - k - 1) as nat, |t: int| a[at(n, k + 1 + t, k)]);
    match normalized_spec(x) {
        None => None,
        Some(u) => normalized_spec(u.update(0, u[0].plus_spec(u[0].sign_spec()))),
    }
}

/// The reductions of the columns `k ..` of `a`, accumulated into `q` when given.
pub open spec fn reduce_from<S: RealField>(a: Seq<S>, q: Option<Seq<S>>, n: int, k: int) -> (Seq<S>, Option<Seq<S>>)
    decreases n - k,
{
    if !(n >= 2 && k < n - 2) {
        (a, q)
    } else {
        match householder(a, n, k) {
            Some(v) => reduce_from(
                reflect_cols_spec(reflect_rows_spec(a, n, k, v, 0), n, k, v, 0),
                match q {
                    Some(m) => Some(reflect_cols_spec(m, n, k, v, 0)),
                    None => None,
                },
                n,
                k + 1,
            ),
            None => reduce_from(a, q, n, k + 1),
        }
    }
}

/// The tridiagonal form of `a`: the accumulated reflections when asked for, the
/// diagonal and the subdiagonal.
pub open spec fn tridiagonal_spec<S: RealField>(a: Seq<S>, n: int, with_q: bool) -> (Option<Seq<S>>, Seq<S>, Seq<S>) {
    let (a2, q2) = reduce_from(a, if with_q { Some(identity_spec(n)) } else { None }, n, 0);
    (q2, Seq::new(n as nat, |i: int| a2[at(n, i, i)]), Seq::new((n - 1) as nat, |i: int| a2[at(n, i + 1, i)]))
}

/// `v` is the unit vector `x / |x|` of a nonzero `x`, or `None` when the norm of `x`
/// is zero.
fn normalized<S: RealField>(x: &Vec<S>) -> (r: Option<Vec<S>>)
    ensures
        r matches Some(v) ==> v@.len() == x@.len(),
        opt_view(r) == normalized_spec(x@),
{
    let mut sq = S::zero();
    let mut t: usize = 0;
    while t < x.len()
        invariant
            t <= x@.len(),
            sum_squares(x@, t as int, sq) == sum_squares(x@, 0, S::zero_spec()),
        decreases x@.len() - t,
    {
        sq = sq.plus(x[t].times(x[t]));
        t = t + 1;
    }
    let norm = sq.square_root();
    if norm.is_zero() {
        return None;
    }
    let mut v: Vec<S> = Vec::with_capacity(x.len());
    let mut t: usize = 0;
    while t < x.len()
        invariant
            t <= x@.len(),
            v@.len() == t,
            norm == sum_squares(x@, 0, S::zero_spec()).square_root_spec(),
            v@ == Seq::new(t as nat, |u: int| x@[u].over_spec(norm)),
        decreases x@.len() - t,
    {
        v.push(x[t].over(norm));
        t = t + 1;
        assert(v@ =~= Seq::new(t as nat, |u: int| x@[u].over_spec(norm)));
    }
    Some(v)
}

/// Multiplies the `n` by `n` matrix `a` on the left by the reflection
/// `I - 2 v v^T` that acts on the rows `k + 1 ..`.
fn reflect_rows<S: RealField>(a: &mut Vec<S>, n: usize, k: usize, v: &Vec<S>)
    requires
        old(a)@.len() == n * n,
        n * n <= usize::MAX,
        k < n,
        v@.len() == n - k - 1,
    ensures
        final(a)@.len() == n * n,
        final(a)@ == reflect_rows_spec(old(a)@, n as int, k as int, v@, 0),
{
    let mut c: usize = 0;
    while c < n
        invariant
            a@.len() == n * n,
            n * n <= usize::MAX,
            k < n,
            v@.len() == n - k - 1,
            c <= n,
            reflect_rows_spec(a@, n as int, k as int, v@, c as int) == reflect_rows_spec(old(a)@, n as int, k as int, v@, 0),
        decreases n - c,
    {
        let mut dot = S::zero();
        let mut t: usize = 0;
        while t < v.len()
            invariant
                a@.len() == n * n,
                n * n <= usize::MAX,
                k < n,
                v@.len() == n - k - 1,
                c < n,
                t <= v@.len(),
                col_dot(a@, n as int, k as int, v@, c as int, t as int, dot) == col_dot(a@, n as int, k as int, v@, c as int, 0, S::zero_spec()),
            decreases v@.len() - t,
        {
            proof {
                lemma_at_bound(n as int, k + 1 + t, c as int);
            }
            dot = dot.plus(v[t].times(a[(k + 1 + t) * n + c]));
            t = t + 1;
        }
        let ghost a0 = a@;
        let mut t: usize = 0;
        while t < v.len()
            invariant
                a@.len() == n * n,
                n * n <= usize::MAX,
                k < n,
                v@.len() == n - k - 1,
                c < n,
                t <= v@.len(),
                col_update(a@, n as int, k as int, v@, c as int, dot, t as int) == col_update(a0, n as int, k as int, v@, c as int, dot, 0),
            decreases v@.len() - t,
        {
            proof {
                lemma_at_bound(n as int, k + 1 + t, c as int);
            }
            let idx = (k + 1 + t) * n + c;
            a[idx] = a[idx].minus(v[t].twice().times(dot));
            t = t + 1;
        }
        c = c + 1;
    }
}

/// Multiplies the `n` by `n` matrix `a` on the right by the reflection
/// `I - 2 v v^T` that acts on the columns `k + 1 ..`.
fn reflect_cols<S: RealField>(a: &mut Vec<S>, n: usize, k: usize, v: &Vec<S>)
    requires
        old(a)@.len() == n * n,
        n * n <= usize::MAX,
        k < n,
        v@.len() == n - k - 1,
    ensures
        final(a)@.len() == n * n,
        final(a)@ == reflect_cols_spec(old(a)@, n as int, k as int, v@, 0),
{
    let mut r: usize = 0;
    while r < n
        invariant
            a@.len() == n * n,
            n * n <= usize::MAX,
            k < n,
            v@.len() == n - k - 1,
            r <= n,
            reflect_cols_spec(a@, n as int, k as int, v@, r as int) == reflect_cols_spec(old(a)@, n as int, k as int, v@, 0),
        decreases n - r,
    {
        let mut dot = S::zero();
        let mut t: usize = 0;
        while t < v.len()
            invariant
                a@.len() == n * n,
                n * n <= usize::MAX,
                k < n,
                v@.len() == n - k - 1,
                r < n,
                t <= v@.len(),
                row_dot(a@, n as int, k as int, v@, r as int, t as int, dot) == row_dot(a@, n as int, k as int, v@, r as int, 0, S::zero_spec()),
            decreases v@.len() - t,
        {
            proof {
                lemma_at_bound(n as int, r as int, k + 1 + t);
            }
            dot = dot.plus(a[r * n + k + 1 + t].times(v[t]));
            t = t + 1;
        }
        let ghost a0 = a@;
        let mut t: usize = 0;
        while t < v.len()
            invariant
                a@.len() == n * n,
                n * n <= usize::MAX,
                k < n,
                v@.len() == n - k - 1,
                r < n,
                t <= v@.len(),
                row_update(a@, n as int, k as int, v@, r as int, dot, t as int) == row_update(a0, n as int, k as int, v@, r as int, dot, 0),
            decreases v@.len() - t,
        {
            proof {
                lemma_at_bound(n as int, r as int, k + 1 + t);
            }
            let idx = r * n + k + 1 + t;
            a[idx] = a[idx].minus(dot.twice().times(v[t]));
            t = t + 1;
        }
        r = r + 1;
    }
}

/// The `n` by `n` identity, row-major.
fn identity<S: RealField>(n: usize) -> (r: Vec<S>)
    requires
        n * n <= usize::MAX,
    ensures
        r@.len() == n * n,
        r@ == identity_spec::<S>(n as int),
        forall|i: int, j: int| 0 <= i < n && 0 <= j < n ==> #[trigger] r@[at(n as int, i, j)] == if i == j {
            S::one_spec()
        } else {
            S::zero_spec()
        },
{
    let mut r: Vec<S> = Vec::new();
    let mut i: usize = 0;
    while i < n
        invariant
            n * n <= usize::MAX,
            i <= n,
            r@.len() == i * n,
            r@ == identity_spec::<S>(n as int).subrange(0, i * n),
            forall|a: int, b: int| 0 <= a < i && 0 <= b < n ==> #[trigger] r@[at(n as int, a, b)] == if a == b {
                S::one_spec()
            } else {
                S::zero_spec()
            },
        decreases n - i,
    {
        let mut j: usize = 0;
        while j < n
            invariant
                n * n <= usize::MAX,
                i < n,
                j <= n,
                r@.len() == i * n + j,
                r@ == identity_spec::<S>(n as int).subrange(0, i * n + j),
                forall|a: int, b: int| 0 <= a < i && 0 <= b < n ==> #[trigger] r@[at(n as int, a, b)] == if a == b {
                    S::one_spec()
                } else {
                    S::zero_spec()
                },
                forall|b: int| 0 <= b < j ==> #[trigger] r@[at(n as int, i as int, b)] == if i == b {
                    S::one_spec()
                } else {
                    S::zero_spec()
                },
            decreases n - j,
        {
            proof {
                assert forall|a: int, b: int| 0 <= a < i && 0 <= b < n implies at(n as int, a, b) < i * n by {
                    assert(a * n + b < i * n) by (nonlinear_arith)
                        requires
                            0 <= a < i,
                            0 <= b < n,
                    ;
                }
            }
            proof {
                lemma_at_bound(n as int, i as int, j as int);
                vstd::arithmetic::div_mod::lemma_fundamental_div_mod_converse_div(i * n + j, n as int, i as int, j as int);
                vstd::arithmetic::div_mod::lemma_fundamental_div_mod_converse_mod(i * n + j, n as int, i as int, j as int);
            }
            r.push(if i == j {
                S::one()
            } else {
                S::zero()
            });
            j = j + 1;
            assert(r@ =~= identity_spec::<S>(n as int).subrange(0, i * n + j));
        }
        assert((i + 1) * n == i * n + n) by (nonlinear_arith);
        i = i + 1;
    }
    r
}

/// Reduces the symmetric `n` by `n` matrix `a` to tridiagonal form by Householder
/// reflections: `(q, diag, off_diag)`, with `q` the accumulated orthogonal factor when
/// `with_q` holds.
fn tridiagonalize<S: RealField>(a: Vec<S>, n: usize, with_q: bool) -> (r: (Option<Vec<S>>, Vec<S>, Vec<S>))
    requires
        a@.len() == n * n,
        n * n <= usize::MAX,
        n >= 1,
    ensures
        r.1@.len() == n,
        r.2@.len() + 1 == n,
        r.0 is Some == with_q,
        r.0 matches Some(q) ==> q@.len() == n * n,
        n == 1 ==> r.1@ == a@ && (r.0 matches Some(q) ==> q@ == seq![S::one_spec()]),
        (opt_view(r.0), r.1@, r.2@) == tridiagonal_spec(a@, n as int, with_q),
{
    let ghost a0 = a@;
    let mut a = a;
    let mut q: Option<Vec<S>> = if with_q {
        Some(identity(n))
    } else {
        None
    };
    proof {
        if n == 1 {
            if with_q {
                let m = q.unwrap();
                assert(m@[at(1, 0, 0)] == S::one_spec());
                assert(m@ == seq![S::one_spec()]);
            }
        }
    }
    let ghost target = reduce_from(a0, opt_view(q), n as int, 0);
    let mut k: usize = 0;
    while n >= 2 && k < n - 2
        invariant
            reduce_from(a@, opt_view(q), n as int, k as int) == target,
            a@.len() == n * n,
            n * n <= usize::MAX,
            n >= 1,
            q is Some == with_q,
            q matches Some(m) ==> m@.len() == n * n,
            n == 1 ==> a@ == a0 && (q matches Some(m) ==> m@ == seq![S::one_spec()]),
        decreases n - k,
    {
        let mut x: Vec<S> = Vec::new();
        let mut t: usize = k + 1;
        while t < n
            invariant
                a@.len() == n * n,
                n * n <= usize::MAX,
                k + 2 < n,
                k + 1 <= t <= n,
                x@.len() == t - k - 1,
                x@ == Seq::new((t - k - 1) as nat, |u: int| a@[at(n as int, k + 1 + u, k as int)]),
            decreases n - t,
        {
            proof {
                lemma_at_bound(n as int, t as int, k as int);
            }
            x.push(a[t * n + k]);
            t = t + 1;
            assert(x@ =~= Seq::new((t - k - 1) as nat, |u: int| a@[at(n as int, k + 1 + u, k as int)]));
        }
        if let Some(u) = normalized(&x) {
            // x - alpha e1 with alpha = -sign(x0) |x|, scaled down by |x|.
            let mut w = u;
            w[0] = w[0].plus(w[0].sign());
            if let Some(v) = normalized(&w) {
                reflect_rows(&mut a, n, k, &v);
                reflect_cols(&mut a, n, k, &v);
                match q {
                    Some(ref mut qm) => reflect_cols(qm, n, k, &v),
                    None => {},
                }
            }
        }
        k = k + 1;
    }
    let mut diag: Vec<S> = Vec::with_capacity(n);
    let mut off_diag: Vec<S> = Vec::with_capacity(n - 1);
    let mut i: usize = 0;
    while i < n
        invariant
            a@.len() == n * n,
            n * n <= usize::MAX,
            i <= n,
            diag@.len() == i,
            n == 1 ==> a@ == a0,
            n == 1 && i == 1 ==> diag@ == a0,
            (a@, opt_view(q)) == target,
            diag@ == Seq::new(i as nat, |u: int| a@[at(n as int, u, u)]),
            off_diag@ == Seq::new((if i < n { i as int } else { n - 1 }) as nat, |u: int| a@[at(n as int, u + 1, u)]),
            n >= 1,
            off_diag@.len() == if i < n { i as int } else { n - 1 },
        decreases n - i,
    {
        proof {
            lemma_at_bound(n as int, i as int, i as int);
        }
        diag.push(a[i * n + i]);
        if i + 1 < n {
            proof {
                lemma_at_bound(n as int, i + 1, i as int);
            }
            off_diag.push(a[(i + 1) * n + i]);
        }
        i = i + 1;
        assert(diag@ =~= Seq::new(i as nat, |u: int| a@[at(n as int, u, u)]));
        assert(off_diag@ =~= Seq::new((if i < n { i as int } else { n - 1 }) as nat, |u: int| a@[at(n as int, u + 1, u)]));
    }
    (q, diag, off_diag)
}

/// The sum over `k < count` of `v[i][k] * values[k] * v[j][k]`, added in the order of
/// `k`, for a row-major `v` with `n` columns.
pub open spec fn weighted_dot<S: RealField>(v: Seq<S>, values: Seq<S>, n: int, i: int, j: int, count: nat) -> S
    decreases count,
{
    if count == 0 {
        S::zero_spec()
    } else {
        let k = count - 1;
        weighted_dot(v, values, n, i, j, (count - 1) as nat).plus_spec(
            v[at(n, i, k)].times_spec(values[k]).times_spec(v[at(n, j, k)]),
        )
    }
}

/// Rebuilds `v * diag(values) * v^T` from the `dim` by `dim` row-major matrix `v`,
/// whose columns are eigenvectors, and the eigenvalues `values`.
pub fn recompose<S: RealField>(v: &Vec<S>, values: &Vec<S>) -> (r: Vec<S>)
    requires
        v@.len() == values@.len() * values@.len(),
        values@.len() * values@.len() <= usize::MAX,
    ensures
        r@.len() == v@.len(),
        forall|i: int, j: int|
            0 <= i < values@.len() && 0 <= j < values@.len() ==> #[trigger] r@[at(values@.len() as int, i, j)]
                == weighted_dot(v@, values@, values@.len() as int, i, j, values@.len()),
{
    let dim = values.len();
    let mut r: Vec<S> = Vec::with_capacity(v.len());
    let mut i: usize = 0;
    while i < dim
        invariant
            v@.len() == dim * dim,
            dim * dim <= usize::MAX,
            values@.len() == dim,
            i <= dim,
            r@.len() == i * dim,
            forall|a: int, b: int| 0 <= a < i && 0 <= b < dim ==> #[trigger] r@[at(dim as int, a, b)]
                == weighted_dot(v@, values@, dim as int, a, b, dim as nat),
        decreases dim - i,
    {
        let mut j: usize = 0;
        while j < dim
            invariant
                v@.len() == dim * dim,
                dim * dim <= usize::MAX,
                values@.len() == dim,
                i < dim,
                j <= dim,
                r@.len() == i * dim + j,
                forall|a: int, b: int| 0 <= a < i && 0 <= b < dim ==> #[trigger] r@[at(dim as int, a, b)]
                    == weighted_dot(v@, values@, dim as int, a, b, dim as nat),
                forall|b: int| 0 <= b < j ==> #[trigger] r@[at(dim as int, i as int, b)]
                    == weighted_dot(v@, values@, dim as int, i as int, b, dim as nat),
            decreases dim - j,
        {
            let mut acc = S::zero();
            let mut k: usize = 0;
            while k < dim
                invariant
                    v@.len() == dim * dim,
                    dim * dim <= usize::MAX,
                    values@.len() == dim,
                    i < dim,
                    j < dim,
                    k <= dim,
                    acc == weighted_dot(v@, values@, dim as int, i as int, j as int, k as nat),
                decreases dim - k,
            {
                proof {
                    lemma_at_bound(dim as int, i as int, k as int);
                    lemma_at_bound(dim as int, j as int, k as int);
                }
                acc = acc.plus(v[i * dim + k].times(values[k]).times(v[j * dim + k]));
                k = k + 1;
            }
            proof {
                assert forall|a: int, b: int| 0 <= a < i && 0 <= b < dim implies at(dim as int, a, b) < i * dim by {
                    assert(a * dim + b < i * dim) by (nonlinear_arith)
                        requires
                            0 <= a < i,
                            0 <= b < dim,
                    ;
                }
            }
            r.push(acc);
            j = j + 1;
        }
        assert((i + 1) * dim == i * dim + dim) by (nonlinear_arith);
        i = i + 1;
    }
    r
}

/// A dense matrix, stored row by row.
#[derive(Clone, Debug)]
pub struct DMatrix<S> {
    nrows: usize,
    ncols: usize,
    data: Vec<S>,
}

impl<S: RealField> DMatrix<S> {
    pub closed spec fn rows(&self) -> nat {
        self.nrows as nat
    }

    pub closed spec fn cols(&self) -> nat {
        self.ncols as nat
    }

    /// The entries, row after row.
    pub closed spec fn entries(&self) -> Seq<S> {
        self.data@
    }

    pub open spec fn wf(&self) -> bool {
        &&& self.entries().len() == self.rows() * self.cols()
        &&& self.rows() * self.cols() <= usize::MAX
    }

    /// The matrix with `nrows` rows and `ncols` columns whose entries, row after row,
    /// are `data`; `None` when there are not exactly `nrows * ncols` of them.
    pub fn from_row_slice(nrows: usize, ncols: usize, data: Vec<S>) -> (r: Option<Self>)
        ensures
            r is Some <==> nrows * ncols <= usize::MAX && data@.len() == nrows * ncols,
            r matches Some(m) ==> m.wf() && m.rows() == nrows && m.cols() == ncols && m.entries() == data@,
    {
        match nrows.checked_mul(ncols) {
            Some(len) => {
                if len == data.len() {
                    Some(DMatrix { nrows, ncols, data })
                } else {
                    None
                }
            },
            None => None,
        }
    }

    /// The matrix with these dimensions and entries.
    pub(crate) fn from_parts(nrows: usize, ncols: usize, data: Vec<S>) -> (r: Self)
        requires
            data@.len() == nrows * ncols,
            nrows * ncols <= usize::MAX,
        ensures
            r.wf(),
            r.rows() == nrows,
            r.cols() == ncols,
            r.entries() == data@,
    {
        DMatrix { nrows, ncols, data }
    }

    pub fn nrows(&self) -> (r: usize)
        ensures
            r == self.rows(),
    {
        self.nrows
    }

    pub fn ncols(&self) -> (r: usize)
        ensures
            r == self.cols(),
    {
        self.ncols
    }

    /// The entry at row `i` and column `j`.
    pub fn get(&self, i: usize, j: usize) -> (r: S)
        requires
            self.wf(),
            i < self.rows(),
            j < self.cols(),
        ensures
            r == self.entries()[i * self.cols() + j],
    {
        proof {
            lemma_entry_bound(self.rows() as int, self.cols() as int, i as int, j as int);
        }
        self.data[i * self.ncols + j]
    }

    /// The entries, row after row.
    pub fn as_slice(&self) -> (r: &[S])
        ensures
            r@ == self.entries(),
    {
        self.data.as_slice()
    }

    /// Computes the eigendecomposition of this symmetric matrix with tolerance `eps`;
    /// `None` when `max_niter` iterations (`usize::MAX` when 0) do not reach
    /// convergence. Only the lower triangle, diagonal included, is read.
    pub fn try_symmetric_eigen(self, eps: S, max_niter: usize) -> (r: Option<SymmetricEigen<S>>)
        requires
            self.wf(),
            self.rows() == self.cols(),
            self.rows() >= 1,
        ensures
            r matches Some(e) ==> e.wf() && e.eigenvalues@.len() == self.rows(),
            r is None ==> self.rows() >= 2,
            self.rows() == 1 ==> r.unwrap().eigenvalues@ == seq![single_eigenvalue(self.entries()[0])]
                && r.unwrap().eigenvectors.entries() == seq![S::one_spec()],
            r is None <==> !decomposition_of(self, true, eps, max_niter).0,
            r matches Some(e) ==> e.eigenvalues@ == decomposition_of(self, true, eps, max_niter).1
                && Some(e.eigenvectors.entries()) == decomposition_of(self, true, eps, max_niter).2,
    {
        SymmetricEigen::try_new(self, eps, max_niter)
    }

    /// Computes the eigendecomposition of this symmetric matrix. Only the lower
    /// triangle, diagonal included, is read.
    pub fn symmetric_eigen(self) -> (r: SymmetricEigen<S>)
        requires
            self.wf(),
            self.rows() == self.cols(),
            self.rows() >= 1,
        ensures
            r.wf(),
            r.eigenvalues@.len() == self.rows(),
            self.rows() == 1 ==> r.eigenvalues@ == seq![single_eigenvalue(self.entries()[0])]
                && r.eigenvectors.entries() == seq![S::one_spec()],
            r.eigenvalues@ == decomposition_of(self, true, S::default_epsilon_spec(), 0).1,
            Some(r.eigenvectors.entries()) == decomposition_of(self, true, S::default_epsilon_spec(), 0).2,
    {
        SymmetricEigen::new(self)
    }

    /// Computes the eigenvalues of this symmetric matrix, without its eigenvectors.
    /// Only the lower triangle, diagonal included, is read.
    pub fn symmetric_eigenvalues(&self) -> (r: Vec<S>)
        requires
            self.wf(),
            self.rows() == self.cols(),
            self.rows() >= 1,
        ensures
            r@.len() == self.rows(),
            self.rows() == 1 ==> r@ == seq![single_eigenvalue(self.entries()[0])],
            r@ == decomposition_of(*self, false, S::default_epsilon_spec(), 0).1,
    {
        let (_, values, _) = do_decompose(self, false, S::default_epsilon(), 0);
        values
    }
}

proof fn lemma_entry_bound(rows: int, cols: int, i: int, j: int)
    requires
        0 <= i < rows,
        0 <= j < cols,
    ensures
        0 <= i * cols + j < rows * cols,
        0 <= i * cols,
{
    assert(0 <= i * cols + j < rows * cols) by (nonlinear_arith)
        requires
            0 <= i < rows,
            0 <= j < cols,
    ;
    assert(0 <= i * cols) by (nonlinear_arith)
        requires
            0 <= i,
            0 <= cols,
    ;
}

/// Eigendecomposition of a symmetric matrix.
#[derive(Clone, Debug)]
pub struct SymmetricEigen<S> {
    /// The eigenvectors of the decomposed matrix, one per column.
    pub eigenvectors: DMatrix<S>,
    /// The unsorted eigenvalues of the decomposed matrix.
    pub eigenvalues: Vec<S>,
}

/// The largest magnitude among the entries `k`, given with their running maximum:
/// how the scale factor of a matrix grows entry by entry from zero.
pub open spec fn max_magnitude<S: RealField>(acc: S, v: S) -> S {
    if v.magnitude_spec().greater_than_spec(acc) {
        v.magnitude_spec()
    } else {
        acc
    }
}

/// An entry divided by the scale factor `amax`, or left alone when that is zero.
pub open spec fn unscaled<S: RealField>(v: S, amax: S) -> S {
    if amax.is_zero_spec() {
        v
    } else {
        v.over_spec(amax)
    }
}

/// The eigenvalue of the 1-by-1 matrix `[v]`: `v` scaled down by its magnitude and
/// back up again.
pub open spec fn single_eigenvalue<S: RealField>(v: S) -> S {
    let amax = max_magnitude(S::zero_spec(), v);
    unscaled(v, amax).times_spec(amax)
}

/// The running maximum magnitude over the entries `j ..= i` of row `i` of `m`.
pub open spec fn row_scale<S: RealField>(m: DMatrix<S>, i: int, j: int, acc: S) -> S
    decreases i + 1 - j,
{
    if j > i {
        acc
    } else {
        row_scale(m, i, j + 1, max_magnitude(acc, m.entries()[at(m.cols() as int, i, j)]))
    }
}

/// The running maximum magnitude over the lower triangle of the rows `i ..` of `m`.
pub open spec fn scale_from<S: RealField>(m: DMatrix<S>, i: int, acc: S) -> S
    decreases m.rows() - i,
{
    if i >= m.rows() {
        acc
    } else {
        scale_from(m, i + 1, row_scale(m, i, 0, acc))
    }
}

/// The scale factor of `m`: the largest magnitude in its lower triangle, diagonal
/// included.
pub open spec fn scale_of<S: RealField>(m: DMatrix<S>) -> S {
    scale_from(m, 0, S::zero_spec())
}

/// The entry `(i, j)` of the symmetric matrix that the lower triangle of `m` holds.
pub open spec fn lower_entry<S: RealField>(m: DMatrix<S>, i: int, j: int) -> S {
    if j <= i {
        m.entries()[at(m.cols() as int, i, j)]
    } else {
        m.entries()[at(m.cols() as int, j, i)]
    }
}

/// The symmetric matrix that the lower triangle of `m` holds, divided by `amax`.
pub open spec fn symmetrized<S: RealField>(m: DMatrix<S>, amax: S) -> Seq<S> {
    let n = m.rows() as int;
    Seq::new((n * n) as nat, |p: int| unscaled(lower_entry(m, p / n, p % n), amax))
}

/// The whole decomposition of the symmetric matrix whose lower triangle `m` holds:
/// whether it converged within the budget of `max_niter`, the eigenvalues (the final
/// diagonal times the scale factor), and the eigenvectors when asked for.
pub open spec fn decomposition_of<S: RealField>(m: DMatrix<S>, eigenvectors: bool, eps: S, max_niter: usize) -> (
    bool,
    Seq<S>,
    Option<Seq<S>>,
) {
    let n = m.rows() as int;
    let amax = scale_of(m);
    let (q, d, o) = tridiagonal_spec(symmetrized(m, amax), n, eigenvectors);
    let r = decompose_spec(d, o, q, eps, max_niter);
    (r.0, Seq::new(n as nat, |u: int| r.2[u].times_spec(amax)), r.4)
}

/// The reduction to tridiagonal form does not depend on whether reflections are
/// accumulated.
proof fn lemma_reduce_without_reflections<S: RealField>(a: Seq<S>, q: Option<Seq<S>>, n: int, k: int)
    ensures
        reduce_from(a, q, n, k).0 == reduce_from(a, None, n, k).0,
        reduce_from(a, None, n, k).1 is None,
    decreases n - k,
{
    if n >= 2 && k < n - 2 {
        match householder(a, n, k) {
            Some(v) => {
                let a2 = reflect_cols_spec(reflect_rows_spec(a, n, k, v, 0), n, k, v, 0);
                let q2 = match q {
                    Some(m) => Some(reflect_cols_spec(m, n, k, v, 0)),
                    None => None,
                };
                lemma_reduce_without_reflections(a2, q2, n, k + 1);
                lemma_reduce_without_reflections(a2, None, n, k + 1);
            },
            None => {
                lemma_reduce_without_reflections(a, q, n, k + 1);
                lemma_reduce_without_reflections(a, None, n, k + 1);
            },
        }
    }
}

/// Computing the eigenvectors changes neither whether the decomposition converges nor
/// its eigenvalues: `symmetric_eigenvalues` and `symmetric_eigen` agree.
pub proof fn lemma_eigenvalues_without_eigenvectors<S: RealField>(m: DMatrix<S>, eps: S, max_niter: usize)
    ensures
        decomposition_of(m, true, eps, max_niter).0 == decomposition_of(m, false, eps, max_niter).0,
        decomposition_of(m, true, eps, max_niter).1 == decomposition_of(m, false, eps, max_niter).1,
{
    let n = m.rows() as int;
    let amax = scale_of(m);
    let a = symmetrized(m, amax);
    lemma_reduce_without_reflections(a, Some(identity_spec(n)), n, 0);
    let (q, d, o) = tridiagonal_spec(a, n, true);
    let (q2, d2, o2) = tridiagonal_spec(a, n, false);
    assert(d == d2 && o == o2 && q2 is None);
    let dim = d.len() as int;
    let sub = delimited(negligible_flags(d, o, eps), dim - 1);
    lemma_iterate_without_rotations(
        d,
        deflated(o, dim - 1, sub),
        q,
        dim,
        eps,
        phase_of(sub, 0, 0),
        0,
        budget_of(max_niter),
    );
}

/// A decomposition that converged within `max_niter` iterations is the same with a
/// larger budget, or with none.
pub proof fn lemma_larger_budget<S: RealField>(m: DMatrix<S>, eigenvectors: bool, eps: S, max_niter: usize, larger: usize)
    requires
        decomposition_of(m, eigenvectors, eps, max_niter).0,
        larger == 0 || (max_niter != 0 && larger >= max_niter),
    ensures
        decomposition_of(m, eigenvectors, eps, larger) == decomposition_of(m, eigenvectors, eps, max_niter),
{
    let n = m.rows() as int;
    let amax = scale_of(m);
    let (q, d, o) = tridiagonal_spec(symmetrized(m, amax), n, eigenvectors);
    let dim = d.len() as int;
    let sub = delimited(negligible_flags(d, o, eps), dim - 1);
    lemma_iterate_larger_budget(
        d,
        deflated(o, dim - 1, sub),
        q,
        dim,
        eps,
        phase_of(sub, 0, 0),
        0,
        budget_of(max_niter),
        budget_of(larger),
    );
}

/// The scale factor reads only the lower triangle.
proof fn lemma_scale_lower<S: RealField>(m1: DMatrix<S>, m2: DMatrix<S>, i: int, acc: S)
    requires
        m1.rows() == m2.rows(),
        m1.cols() == m2.cols(),
        forall|r: int, c: int| 0 <= c <= r < m1.rows() ==> #[trigger] m1.entries()[at(m1.cols() as int, r, c)]
            == m2.entries()[at(m1.cols() as int, r, c)],
        0 <= i,
    ensures
        scale_from(m1, i, acc) == scale_from(m2, i, acc),
    decreases m1.rows() - i,
{
    if i < m1.rows() {
        lemma_row_scale_lower(m1, m2, i, 0, acc);
        lemma_scale_lower(m1, m2, i + 1, row_scale(m1, i, 0, acc));
    }
}

proof fn lemma_row_scale_lower<S: RealField>(m1: DMatrix<S>, m2: DMatrix<S>, i: int, j: int, acc: S)
    requires
        0 <= i < m1.rows(),
        0 <= j,
        m1.rows() == m2.rows(),
        m1.cols() == m2.cols(),
        forall|r: int, c: int| 0 <= c <= r < m1.rows() ==> #[trigger] m1.entries()[at(m1.cols() as int, r, c)]
            == m2.entries()[at(m1.cols() as int, r, c)],
    ensures
        row_scale(m1, i, j, acc) == row_scale(m2, i, j, acc),
    decreases i + 1 - j,
{
    if j <= i {
        assert(m1.entries()[at(m1.cols() as int, i, j)] == m2.entries()[at(m1.cols() as int, i, j)]);
        lemma_row_scale_lower(m1, m2, i, j + 1, max_magnitude(acc, m1.entries()[at(m1.cols() as int, i, j)]));
    }
}

/// Only the lower triangle, diagonal included, is read: two square matrices that agree
/// there have the same decomposition.
pub proof fn lemma_lower_triangle_only<S: RealField>(
    m1: DMatrix<S>,
    m2: DMatrix<S>,
    eigenvectors: bool,
    eps: S,
    max_niter: usize,
)
    requires
        m1.rows() == m1.cols(),
        m1.rows() == m2.rows(),
        m1.cols() == m2.cols(),
        forall|r: int, c: int| 0 <= c <= r < m1.rows() ==> #[trigger] m1.entries()[at(m1.cols() as int, r, c)]
            == m2.entries()[at(m1.cols() as int, r, c)],
    ensures
        decomposition_of(m1, eigenvectors, eps, max_niter) == decomposition_of(m2, eigenvectors, eps, max_niter),
{
    let n = m1.rows() as int;
    lemma_scale_lower(m1, m2, 0, S::zero_spec());
    let amax = scale_of(m1);
    assert forall|p: int| 0 <= p < n * n implies #[trigger] symmetrized(m1, amax)[p] == symmetrized(m2, amax)[p] by {
        vstd::arithmetic::div_mod::lemma_fundamental_div_mod(p, n);
        vstd::arithmetic::div_mod::lemma_mod_bound(p, n);
        let i = p / n;
        let j = p % n;
        assert(0 <= i < n) by (nonlinear_arith)
            requires
                p == n * i + j,
                0 <= j < n,
                0 <= p < n * n,
        ;
        if j <= i {
            assert(m1.entries()[at(n, i, j)] == m2.entries()[at(n, i, j)]);
        } else {
            assert(m1.entries()[at(n, j, i)] == m2.entries()[at(n, j, i)]);
        }
    }
    assert(symmetrized(m1, amax) =~= symmetrized(m2, amax));
}

/// Decomposes the symmetric matrix whose lower triangle `m` holds: scales it by the
/// largest magnitude in that triangle, reduces it to tridiagonal form, iterates, and
/// scales the eigenvalues back. Returns whether the iteration converged, the
/// eigenvalues, and the eigenvectors when asked for.
fn do_decompose<S: RealField>(m: &DMatrix<S>, eigenvectors: bool, eps: S, max_niter: usize) -> (r: (
    bool,
    Vec<S>,
    Option<Vec<S>>,
))
    requires
        m.wf(),
        m.rows() == m.cols(),
        m.rows() >= 1,
    ensures
        r.1@.len() == m.rows(),
        r.2 is Some == eigenvectors,
        r.2 matches Some(v) ==> v@.len() == m.rows() * m.rows(),
        m.rows() == 1 ==> r.0 && r.1@ == seq![single_eigenvalue(m.entries()[0])] && (r.2 matches Some(v)
            ==> v@ == seq![S::one_spec()]),
        (r.0, r.1@, opt_view(r.2)) == decomposition_of(*m, eigenvectors, eps, max_niter),
{
    let n = m.nrows();
    let mut amax = S::zero();
    let mut i: usize = 0;
    while i < n
        invariant
            m.wf(),
            n == m.rows(),
            n == m.cols(),
            i <= n,
            scale_from(*m, i as int, amax) == scale_of(*m),
            n == 1 && i == 0 ==> amax == S::zero_spec(),
            n == 1 && i == 1 ==> amax == max_magnitude(S::zero_spec(), m.entries()[0]),
        decreases n - i,
    {
        let mut j: usize = 0;
        while j <= i
            invariant
                m.wf(),
                n == m.rows(),
                n == m.cols(),
                i < n,
                j <= i + 1,
                scale_from(*m, i + 1, row_scale(*m, i as int, j as int, amax)) == scale_of(*m),
                n == 1 && j == 0 ==> amax == S::zero_spec(),
                n == 1 && j == 1 ==> amax == max_magnitude(S::zero_spec(), m.entries()[0]),
            decreases i + 1 - j,
        {
            proof {
                if n == 1 {
                    assert(i * m.cols() + j == 0);
                }
            }
            let v = m.get(i, j).magnitude();
            if v.greater_than(amax) {
                amax = v;
            }
            j = j + 1;
        }
        i = i + 1;
    }
    let mut a: Vec<S> = Vec::new();
    let mut i: usize = 0;
    while i < n
        invariant
            m.wf(),
            n == m.rows(),
            n == m.cols(),
            i <= n,
            a@.len() == i * n,
            amax == scale_of(*m),
            a@ == symmetrized(*m, amax).subrange(0, i * n),
            n == 1 && i == 1 ==> a@ == seq![unscaled(m.entries()[0], amax)],
        decreases n - i,
    {
        let mut j: usize = 0;
        while j < n
            invariant
                m.wf(),
                n == m.rows(),
                n == m.cols(),
                i < n,
                j <= n,
                a@.len() == i * n + j,
                a@ == symmetrized(*m, amax).subrange(0, i * n + j),
                n == 1 && j == 1 ==> a@ == seq![unscaled(m.entries()[0], amax)],
            decreases n - j,
        {
            proof {
                if n == 1 {
                    assert(i == 0 && j == 0);
                    assert(i * m.cols() + j == 0);
                    assert(a@.len() == 0);
                }
            }
            proof {
                lemma_at_bound(n as int, i as int, j as int);
                vstd::arithmetic::div_mod::lemma_fundamental_div_mod_converse_div(i * n + j, n as int, i as int, j as int);
                vstd::arithmetic::div_mod::lemma_fundamental_div_mod_converse_mod(i * n + j, n as int, i as int, j as int);
            }
            let entry = if j <= i {
                m.get(i, j)
            } else {
                m.get(j, i)
            };
            a.push(if amax.is_zero() {
                entry
            } else {
                entry.over(amax)
            });
            j = j + 1;
            assert(a@ =~= symmetrized(*m, amax).subrange(0, i * n + j));
        }
        assert((i + 1) * n == i * n + n) by (nonlinear_arith);
        i = i + 1;
    }
    assert(a@ =~= symmetrized(*m, amax));
    let (mut q, mut diag, mut off_diag) = tridiagonalize(a, n, eigenvectors);
    let ghost tri = (opt_view(q), diag@, off_diag@);
    assert(tri == tridiagonal_spec(symmetrized(*m, amax), n as int, eigenvectors));
    let (converged, _) = decompose_tridiagonal(&mut diag, &mut off_diag, &mut q, eps, max_niter);
    let ghost iterated = diag@;
    let ghost run = decompose_spec(tri.1, tri.2, tri.0, eps, max_niter);
    assert(converged == run.0 && iterated == run.2 && opt_view(q) == run.4);
    let mut t: usize = 0;
    while t < diag.len()
        invariant
            t <= diag@.len(),
            diag@.len() == n,
            iterated.len() == n,
            forall|u: int| 0 <= u < t ==> #[trigger] diag@[u] == iterated[u].times_spec(amax),
            forall|u: int| t <= u < n ==> #[trigger] diag@[u] == iterated[u],
        decreases diag@.len() - t,
    {
        diag[t] = diag[t].times(amax);
        t = t + 1;
    }
    proof {
        if n == 1 {
            assert(diag@ == seq![single_eigenvalue(m.entries()[0])]);
        }
        assert(diag@ =~= Seq::new(n as nat, |u: int| iterated[u].times_spec(amax)));
    }
    (converged, diag, q)
}

impl<S: RealField> SymmetricEigen<S> {
    /// The eigenvectors form a square matrix with one column per eigenvalue.
    pub open spec fn wf(&self) -> bool {
        &&& self.eigenvectors.wf()
        &&& self.eigenvectors.rows() == self.eigenvalues@.len()
        &&& self.eigenvectors.cols() == self.eigenvalues@.len()
    }

    /// Computes the eigendecomposition of the symmetric matrix `m`. Only its lower
    /// triangle, diagonal included, is read. The iteration is bounded by `usize::MAX`
    /// steps; should they all pass without convergence, the values reached are kept.
    pub fn new(m: DMatrix<S>) -> (r: Self)
        requires
            m.wf(),
            m.rows() == m.cols(),
            m.rows() >= 1,
        ensures
            r.wf(),
            r.eigenvalues@.len() == m.rows(),
            m.rows() == 1 ==> r.eigenvalues@ == seq![single_eigenvalue(m.entries()[0])]
                && r.eigenvectors.entries() == seq![S::one_spec()],
            r.eigenvalues@ == decomposition_of(m, true, S::default_epsilon_spec(), 0).1,
            Some(r.eigenvectors.entries()) == decomposition_of(m, true, S::default_epsilon_spec(), 0).2,
    {
        let n = m.nrows();
        let (_, values, vectors) = do_decompose(&m, true, S::default_epsilon(), 0);
        let vectors = match vectors {
            Some(v) => v,
            None => {
                proof {
                    assert(false);
                }
                Vec::new()
            },
        };
        SymmetricEigen { eigenvectors: DMatrix { nrows: n, ncols: n, data: vectors }, eigenvalues: values }
    }

    /// Computes the eigendecomposition of the symmetric matrix `m` with tolerance `eps`;
    /// `None` when `max_niter` iterations (`usize::MAX` when 0) do not reach
    /// convergence. Only the lower triangle, diagonal included, is read.
    pub fn try_new(m: DMatrix<S>, eps: S, max_niter: usize) -> (r: Option<Self>)
        requires
            m.wf(),
            m.rows() == m.cols(),
            m.rows() >= 1,
        ensures
            r matches Some(e) ==> e.wf() && e.eigenvalues@.len() == m.rows(),
            r is None ==> m.rows() >= 2,
            m.rows() == 1 ==> r.unwrap().eigenvalues@ == seq![single_eigenvalue(m.entries()[0])]
                && r.unwrap().eigenvectors.entries() == seq![S::one_spec()],
            r is None <==> !decomposition_of(m, true, eps, max_niter).0,
            r matches Some(e) ==> e.eigenvalues@ == decomposition_of(m, true, eps, max_niter).1
                && Some(e.eigenvectors.entries()) == decomposition_of(m, true, eps, max_niter).2,
    {
        let n = m.nrows();
        let (converged, values, vectors) = do_decompose(&m, true, eps, max_niter);
        if !converged {
            return None;
        }
        match vectors {
            Some(v) => Some(SymmetricEigen { eigenvectors: DMatrix { nrows: n, ncols: n, data: v }, eigenvalues: values }),
            None => {
                proof {
                    assert(false);
                }
                None
            },
        }
    }

    /// Rebuilds the matrix `eigenvectors * diag(eigenvalues) * eigenvectors^T`; useful
    /// after editing some eigenvalues.
    pub fn recompose(&self) -> (r: DMatrix<S>)
        requires
            self.wf(),
        ensures
            r.wf(),
            r.rows() == self.eigenvalues@.len(),
            r.cols() == self.eigenvalues@.len(),
            forall|i: int, j: int|
                0 <= i < r.rows() && 0 <= j < r.cols() ==> #[trigger] r.entries()[at(r.cols() as int, i, j)]
                    == weighted_dot(
                    self.eigenvectors.entries(),
                    self.eigenvalues@,
                    r.cols() as int,
                    i,
                    j,
                    r.cols(),
                ),
    {
        let n = self.eigenvalues.len();
        let data = recompose(&self.eigenvectors.data, &self.eigenvalues);
        DMatrix { nrows: n, ncols: n, data }
    }
}

} // verus!
