use crate::intersection::{arranged, lemma_arranged, lemma_nearest};
use crate::intersection::{medium_after, medium_before, nearest};
use crate::intersection::{Intersection, Intersections, State};
use vstd::prelude::*;

verus! {

/// What a secondary ray contributes.
#[derive(Debug, Clone, Copy, PartialEq, Eq, Structural)]
pub enum Bounce {
    /// No light: the contribution is black, and no ray is cast.
    Black,
    /// A ray is to be cast with this much fuel left.
    Cast { fuel: i32 },
}

/// How the reflected and the refracted colour of a crossing are combined.
#[derive(Debug, Clone, Copy, PartialEq, Eq, Structural)]
pub enum Mixture {
    /// Both are added.
    Sum,
    /// The reflected colour is weighted by the reflectance, the refracted one by the rest.
    Fresnel,
}

/// The crossing to be shaded among the crossings of a ray, with its media:
/// the nearest one in front of the origin once the crossings are ordered.
pub open spec fn shaded(s: Seq<Intersection>) -> Option<State> {
    match nearest(arranged(s)) {
        None => None,
        Some(hit) => Some(
            State {
                t: hit.t,
                shape: hit.shape,
                u: hit.u,
                v: hit.v,
                n1: medium_before(arranged(s), hit),
                n2: medium_after(arranged(s), hit),
            },
        ),
    }
}

/// Whether a surface point is in shadow, given the nearest crossing of the
/// ray from the point towards a light at `distance`.
pub open spec fn in_shadow(hit: Option<Intersection>, distance: i64) -> bool {
    match hit {
        None => false,
        Some(h) => h.shape.casts_shadow && h.t < distance,
    }
}

/// Orders the crossings of a ray and picks the one to be shaded.
/// `None` means that the ray meets nothing, and its colour is black.
pub fn color_at(intersections: &mut Intersections) -> (state: Option<State>)
    ensures
        final(intersections)@ == arranged(old(intersections)@),
        state == shaded(old(intersections)@),
{
    intersections.sort();
    match intersections.hit() {
        Some(hit) => Some(hit.prepare_state(intersections)),
        None => None,
    }
}

/// Orders the crossings of the ray from a surface point towards a light at
/// `distance` and tells whether the point lies in shadow: the nearest
/// crossing in front of the point is nearer than the light, on a shape that
/// casts shadows.
pub fn is_shadowed(intersections: &mut Intersections, distance: i64) -> (shadowed: bool)
    ensures
        final(intersections)@ == arranged(old(intersections)@),
        shadowed == in_shadow(nearest(arranged(old(intersections)@)), distance),
{
    intersections.sort();
    match intersections.hit() {
        Some(hit) => hit.shape.casts_shadow && hit.t < distance,
        None => false,
    }
}

/// What reflection contributes at a surface: nothing without fuel and
/// nothing where the surface does not reflect, else a ray with one unit of
/// fuel less.
pub open spec fn reflection(fuel: i32, reflective: bool) -> Bounce {
    if fuel <= 0 || !reflective {
        Bounce::Black
    } else {
        Bounce::Cast { fuel: (fuel - 1) as i32 }
    }
}

/// What refraction contributes at a surface: nothing without fuel, nothing
/// where the surface is opaque and nothing under total internal reflection,
/// else a ray with one unit of fuel less.
pub open spec fn refraction(fuel: i32, transparent: bool, total_reflection: bool) -> Bounce {
    if fuel <= 0 || !transparent || total_reflection {
        Bounce::Black
    } else {
        Bounce::Cast { fuel: (fuel - 1) as i32 }
    }
}

pub fn reflected_color(fuel: i32, reflective: bool) -> (bounce: Bounce)
    ensures
        bounce == reflection(fuel, reflective),
{
    if fuel <= 0 || !reflective {
        Bounce::Black
    } else {
        Bounce::Cast { fuel: fuel - 1 }
    }
}

pub fn refracted_color(fuel: i32, transparent: bool, total_reflection: bool) -> (bounce: Bounce)
    ensures
        bounce == refraction(fuel, transparent, total_reflection),
{
    if fuel <= 0 || !transparent {
        Bounce::Black
    } else if total_reflection {
        Bounce::Black
    } else {
        Bounce::Cast { fuel: fuel - 1 }
    }
}

/// How the two secondary colours of a crossing are combined: weighted by
/// the reflectance where the surface both reflects and transmits, else added.
pub fn shade_hit(reflective: bool, transparent: bool) -> (mixture: Mixture)
    ensures
        mixture == if reflective && transparent {
            Mixture::Fresnel
        } else {
            Mixture::Sum
        },
{
    if reflective && transparent {
        Mixture::Fresnel
    } else {
        Mixture::Sum
    }
}

/// Without fuel no ray is cast, whatever the surface is like.
pub proof fn lemma_no_fuel_is_black(reflective: bool, transparent: bool, total_reflection: bool)
    ensures
        reflection(0, reflective) == Bounce::Black,
        refraction(0, transparent, total_reflection) == Bounce::Black,
{
}

/// Fuel bounds the depth of recursion: a ray that is cast has exactly one
/// unit of fuel less than the ray it comes from, and never less than none.
pub proof fn lemma_fuel_decreases(
    fuel: i32,
    reflective: bool,
    transparent: bool,
    total_reflection: bool,
)
    ensures
        reflection(fuel, reflective) matches Bounce::Cast { fuel: rest } ==> 0 <= rest == fuel - 1,
        refraction(fuel, transparent, total_reflection) matches Bounce::Cast { fuel: rest } ==> 0
            <= rest == fuel - 1,
{
}

/// Where no shape on the ray towards a light casts shadows, the point is not in shadow.
pub proof fn lemma_no_shadow_without_caster(s: Seq<Intersection>, distance: i64)
    requires
        forall|i: int| 0 <= i < s.len() ==> !(#[trigger] s[i]).shape.casts_shadow,
    ensures
        !in_shadow(nearest(arranged(s)), distance),
{
    broadcast use vstd::seq_lib::group_to_multiset_ensures;
    lemma_arranged(s);
    lemma_nearest(arranged(s));
    if nearest(arranged(s)).is_some() {
        let h = nearest(arranged(s)).unwrap();
        assert(arranged(s).contains(h));
        assert(s.to_multiset().count(h) > 0);
        assert(s.contains(h));
    }
}

/// A point is in shadow exactly when the ordered crossings towards the
/// light hold one that is not behind the point, and the first such lies
/// before the light on a shape that casts shadows.
pub proof fn lemma_shadow(s: Seq<Intersection>, distance: i64)
    ensures
        in_shadow(nearest(arranged(s)), distance) <==> exists|k: int|
            0 <= k < arranged(s).len() && (#[trigger] arranged(s)[k]).t >= 0 && arranged(s)[k].t
                < distance && arranged(s)[k].shape.casts_shadow && forall|j: int|
                0 <= j < k ==> arranged(s)[j].t < 0,
{
    let a = arranged(s);
    lemma_nearest(a);
    if in_shadow(nearest(a), distance) {
        let k = choose|k: int|
            0 <= k < a.len() && #[trigger] a[k] == nearest(a).unwrap() && a[k].t >= 0
                && forall|j: int| 0 <= j < k ==> a[j].t < 0;
        assert(a[k].t < distance && a[k].shape.casts_shadow);
    }
    if exists|k: int|
        0 <= k < a.len() && (#[trigger] a[k]).t >= 0 && a[k].t < distance
            && a[k].shape.casts_shadow && forall|j: int| 0 <= j < k ==> a[j].t < 0 {
        let k = choose|k: int|
            0 <= k < a.len() && (#[trigger] a[k]).t >= 0 && a[k].t < distance
                && a[k].shape.casts_shadow && forall|j: int| 0 <= j < k ==> a[j].t < 0;
        let m = choose|m: int|
            0 <= m < a.len() && #[trigger] a[m] == nearest(a).unwrap() && a[m].t >= 0
                && forall|j: int| 0 <= j < m ==> a[j].t < 0;
        assert(m == k) by {
            if m < k {
                assert(a[m].t < 0);
            }
            if k < m {
                assert(a[k].t < 0);
            }
        }
    }
}

} // verus!
