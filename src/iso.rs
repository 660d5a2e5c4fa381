//! Isometries: a rotation followed by a translation.
use crate::symmetric::RealField;
use vstd::prelude::*;

verus! {

/// A vector or point of space.
pub type Vec3<S> = [S; 3];

/// A rotation of the plane followed by a translation.
#[derive(Clone, Copy, Debug)]
pub struct Iso2<S> {
    /// The rotation, as a 2-by-2 matrix given by rows.
    pub rotation: [[S; 2]; 2],
    /// The translation.
    pub translation: [S; 2],
}

/// A rotation of space followed by a translation.
#[derive(Clone, Copy, Debug)]
pub struct Iso3<S> {
    /// The rotation, as a 3-by-3 matrix given by rows.
    pub rotation: [[S; 3]; 3],
    /// The translation.
    pub translation: Vec3<S>,
}

/// `a - b`.
pub open spec fn difference_spec<S: RealField>(a: Seq<S>, b: Seq<S>) -> Seq<S> {
    seq![a[0].minus_spec(b[0]), a[1].minus_spec(b[1]), a[2].minus_spec(b[2])]
}

/// The cross product `a x b`.
pub open spec fn cross_spec<S: RealField>(a: Seq<S>, b: Seq<S>) -> Seq<S> {
    seq![
        a[1].times_spec(b[2]).minus_spec(a[2].times_spec(b[1])),
        a[2].times_spec(b[0]).minus_spec(a[0].times_spec(b[2])),
        a[0].times_spec(b[1]).minus_spec(a[1].times_spec(b[0])),
    ]
}

/// `a` divided by its Euclidean norm.
pub open spec fn normalize_spec<S: RealField>(a: Seq<S>) -> Seq<S> {
    let n = a[0].times_spec(a[0]).plus_spec(a[1].times_spec(a[1])).plus_spec(a[2].times_spec(a[2])).square_root_spec();
    seq![a[0].over_spec(n), a[1].over_spec(n), a[2].over_spec(n)]
}

/// The rotation has the columns `x`, `y` and `z`.
pub open spec fn has_axes<S: RealField>(rotation: [[S; 3]; 3], x: Seq<S>, y: Seq<S>, z: Seq<S>) -> bool {
    forall|row: int| 0 <= row < 3 ==> #[trigger] rotation@[row]@ == seq![x[row], y[row], z[row]]
}

fn difference<S: RealField>(a: &Vec3<S>, b: &Vec3<S>) -> (r: Vec3<S>)
    ensures
        r@ == difference_spec(a@, b@),
{
    let r = [a[0].minus(b[0]), a[1].minus(b[1]), a[2].minus(b[2])];
    assert(r@ =~= difference_spec(a@, b@));
    r
}

fn cross<S: RealField>(a: &Vec3<S>, b: &Vec3<S>) -> (r: Vec3<S>)
    ensures
        r@ == cross_spec(a@, b@),
{
    let r = [
        a[1].times(b[2]).minus(a[2].times(b[1])),
        a[2].times(b[0]).minus(a[0].times(b[2])),
        a[0].times(b[1]).minus(a[1].times(b[0])),
    ];
    assert(r@ =~= cross_spec(a@, b@));
    r
}

fn normalize<S: RealField>(a: &Vec3<S>) -> (r: Vec3<S>)
    ensures
        r@ == normalize_spec(a@),
{
    let n = a[0].times(a[0]).plus(a[1].times(a[1])).plus(a[2].times(a[2])).square_root();
    let r = [a[0].over(n), a[1].over(n), a[2].over(n)];
    assert(r@ =~= normalize_spec(a@));
    r
}

/// The rotation whose columns are the three axes.
fn from_axes<S: RealField>(x: &Vec3<S>, y: &Vec3<S>, z: &Vec3<S>) -> (r: [[S; 3]; 3])
    ensures
        has_axes(r, x@, y@, z@),
{
    let r = [[x[0], y[0], z[0]], [x[1], y[1], z[1]], [x[2], y[2], z[2]]];
    assert(r@[0]@ =~= seq![x@[0], y@[0], z@[0]]);
    assert(r@[1]@ =~= seq![x@[1], y@[1], z@[1]]);
    assert(r@[2]@ =~= seq![x@[2], y@[2], z@[2]]);
    r
}

impl<S: RealField> Iso3<S> {
    /// Translates to `eye` and turns the local `x` axis towards `at`; `up` must not be
    /// colinear with `at - eye`.
    pub fn look_at(eye: &Vec3<S>, at: &Vec3<S>, up: &Vec3<S>) -> (r: Iso3<S>)
        ensures
            r.translation == *eye,
            ({
                let x = normalize_spec(difference_spec(at@, eye@));
                let z = normalize_spec(cross_spec(up@, x));
                has_axes(r.rotation, x, cross_spec(z, x), z)
            }),
    {
        let xaxis = normalize(&difference(at, eye));
        let zaxis = normalize(&cross(up, &xaxis));
        let yaxis = cross(&zaxis, &xaxis);
        Iso3 { rotation: from_axes(&xaxis, &yaxis, &zaxis), translation: *eye }
    }

    /// Translates to `eye` and turns the local `z` axis towards `at`; `up` must not be
    /// colinear with `at - eye`.
    pub fn look_at_z(eye: &Vec3<S>, at: &Vec3<S>, up: &Vec3<S>) -> (r: Iso3<S>)
        ensures
            r.translation == *eye,
            ({
                let z = normalize_spec(difference_spec(at@, eye@));
                let x = normalize_spec(cross_spec(up@, z));
                has_axes(r.rotation, x, cross_spec(z, x), z)
            }),
    {
        let zaxis = normalize(&difference(at, eye));
        let xaxis = normalize(&cross(up, &zaxis));
        let yaxis = cross(&zaxis, &xaxis);
        Iso3 { rotation: from_axes(&xaxis, &yaxis, &zaxis), translation: *eye }
    }
}

} // verus!
