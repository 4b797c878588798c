use crate::intersection::{arranged, crossing, Intersection, Intersections};
use vstd::prelude::*;

verus! {

/// The rule by which a group combines its children.
#[derive(Debug, Clone, Copy, PartialEq, Eq, Structural)]
pub enum GroupKind {
    Union,
    Intersection,
    Difference,
    Aggregation,
}

impl GroupKind {
    /// Whether a crossing lies on the boundary of the combined solid.
    ///
    /// `left_hit` says that the crossing belongs to the left child;
    /// `in_left` and `in_right` say whether the ray was inside the left and
    /// the right child just before it.
    pub open spec fn keeps(self, left_hit: bool, in_left: bool, in_right: bool) -> bool {
        match self {
            GroupKind::Union => (left_hit && !in_right) || (!left_hit && !in_left),
            GroupKind::Intersection => (left_hit && in_right) || (!left_hit && in_left),
            GroupKind::Difference => (left_hit && !in_right) || (!left_hit && in_left),
            GroupKind::Aggregation => true,
        }
    }

    pub fn allows_intersection(&self, left_hit: bool, in_left: bool, in_right: bool) -> (keep: bool)
        ensures
            keep == self.keeps(left_hit, in_left, in_right),
    {
        match self {
            GroupKind::Union => (left_hit && !in_right) || (!left_hit && !in_left),
            GroupKind::Intersection => (left_hit && in_right) || (!left_hit && in_left),
            GroupKind::Difference => (left_hit && !in_right) || (!left_hit && in_left),
            GroupKind::Aggregation => true,
        }
    }
}

/// Hands out shape identities in increasing order.
pub struct IdSource {
    next: usize,
}

impl IdSource {
    /// The identity that the next call of [`next_id`] returns.
    pub closed spec fn upcoming(&self) -> nat {
        self.next as nat
    }

    pub fn new() -> (source: IdSource)
        ensures
            source.upcoming() == 0,
    {
        IdSource { next: 0 }
    }

    /// Whether another identity can be handed out.
    pub fn has_next(&self) -> (more: bool)
        ensures
            more == (self.upcoming() < usize::MAX),
    {
        self.next < usize::MAX
    }
}

/// Takes the next identity from `source`.
pub fn next_id(source: &mut IdSource) -> (id: usize)
    requires
        old(source).upcoming() < usize::MAX,
    ensures
        id == old(source).upcoming(),
        final(source).upcoming() == old(source).upcoming() + 1,
{
    let i: usize = source.next;
    source.next = i + 1;
    i
}

/// A primitive of the scene, as far as the bookkeeping of rays needs it:
/// its identity, and whether it casts shadows.
#[derive(Debug, Clone, Copy)]
pub struct Shape {
    pub casts_shadow: bool,
    pub id: usize,
}

impl Shape {
    /// A new primitive, with an identity that `source` has not handed out before.
    pub fn new(source: &mut IdSource, casts_shadow: bool) -> (shape: Shape)
        requires
            old(source).upcoming() < usize::MAX,
        ensures
            shape.id == old(source).upcoming(),
            shape.casts_shadow == casts_shadow,
            final(source).upcoming() == old(source).upcoming() + 1,
    {
        Shape { casts_shadow, id: next_id(source) }
    }

    pub fn id(&self) -> (id: usize)
        ensures
            id == self.id,
    {
        self.id
    }
}

impl PartialEq for Shape {
    fn eq(&self, other: &Shape) -> (r: bool) {
        self.id == other.id
    }
}

impl Eq for Shape {}

impl vstd::std_specs::cmp::PartialEqSpecImpl for Shape {
    open spec fn obeys_eq_spec() -> bool {
        true
    }

    open spec fn eq_spec(&self, other: &Shape) -> bool {
        self.id == other.id
    }
}

/// The terms of the reflection model that light a surface point.
#[derive(Debug, Clone, Copy, PartialEq, Eq, Structural)]
pub enum Lighting {
    /// The ambient term alone.
    Ambient,
    /// The ambient and the diffuse term.
    Diffuse,
    /// The ambient, the diffuse and the specular term.
    Specular,
}

/// The terms that light a point: the ambient one always; the diffuse one
/// where the point is not in shadow and the light is not behind the
/// surface; the specular one where, besides, the light is reflected
/// towards the eye.
pub open spec fn lit(shadowed: bool, light_in_front: bool, reflected_to_eye: bool) -> Lighting {
    if shadowed || !light_in_front {
        Lighting::Ambient
    } else if reflected_to_eye {
        Lighting::Specular
    } else {
        Lighting::Diffuse
    }
}

impl Shape {
    /// Tells which terms of the reflection model light a point of the shape.
    pub fn lighting(shadowed: bool, light_in_front: bool, reflected_to_eye: bool) -> (terms:
        Lighting)
        ensures
            terms == lit(shadowed, light_in_front, reflected_to_eye),
    {
        if !shadowed && light_in_front {
            if reflected_to_eye {
                Lighting::Specular
            } else {
                Lighting::Diffuse
            }
        } else {
            Lighting::Ambient
        }
    }
}

/// A point in shadow is lit by the ambient term alone.
pub proof fn lemma_shadow_leaves_ambient(light_in_front: bool, reflected_to_eye: bool)
    ensures
        lit(true, light_in_front, reflected_to_eye) == Lighting::Ambient,
{
}

/// A node of the scene graph: a primitive, or a group of nodes.
#[derive(Debug)]
pub enum Element {
    Composite(Group),
    Primitive(Shape),
}

/// Child nodes under one combination rule.
#[derive(Debug)]
pub struct Group {
    pub kind: GroupKind,
    pub children: Vec<Element>,
}

impl Element {
    /// Whether the primitive with identity `id` lies in this subtree.
    pub open spec fn holds(&self, id: usize) -> bool
        decreases self,
    {
        match self {
            Element::Primitive(s) => s.id == id,
            Element::Composite(g) => exists|i: int|
                0 <= i < g.children@.len() && (#[trigger] g.children@[i]).holds(id),
        }
    }

    /// Every group below this node that is not a plain aggregation has
    /// exactly two children.
    pub open spec fn well_formed(&self) -> bool
        decreases self,
    {
        match self {
            Element::Primitive(_) => true,
            Element::Composite(g) => {
                &&& (g.kind != GroupKind::Aggregation ==> g.children@.len() == 2)
                &&& forall|i: int|
                    0 <= i < g.children@.len() ==> (#[trigger] g.children@[i]).well_formed()
            },
        }
    }

    /// A group of `children` under the rule `kind`.  Every rule but plain
    /// aggregation combines exactly two children.
    pub fn composite(kind: GroupKind, children: Vec<Element>) -> (element: Element)
        requires
            kind != GroupKind::Aggregation ==> children@.len() == 2,
            forall|i: int| 0 <= i < children@.len() ==> (#[trigger] children@[i]).well_formed(),
        ensures
            element == Element::Composite(Group { kind, children }),
            element.well_formed(),
    {
        Element::Composite(Group { kind, children })
    }

    pub fn includes(&self, shape: &Shape) -> (found: bool)
        ensures
            found == self.holds(shape.id),
        decreases self,
    {
        match self {
            Element::Composite(group) => group.includes(shape),
            Element::Primitive(s) => s.id == shape.id,
        }
    }
}

impl Group {
    /// Whether the primitive with identity `id` lies under one of the children.
    pub open spec fn holds(&self, id: usize) -> bool {
        exists|i: int| 0 <= i < self.children@.len() && (#[trigger] self.children@[i]).holds(id)
    }

    /// The crossings with the group's surface among `found`, the crossings
    /// of a ray with the children: all of them for a plain aggregation,
    /// else those that the rule keeps once they are ordered.
    pub open spec fn surface(&self, found: Seq<Intersection>) -> Seq<Intersection> {
        if self.kind == GroupKind::Aggregation {
            found
        } else {
            crossing(arranged(found), self, false, false)
        }
    }

    /// Adds to `intersections` the crossings of a ray with the group's
    /// surface, from the crossings `found` of that ray with the children.
    pub fn intersect(&self, found: &mut Intersections, intersections: &mut Intersections)
        ensures
            final(intersections)@ == old(intersections)@ + self.surface(old(found)@),
            final(found)@ == Seq::<Intersection>::empty(),
    {
        match self.kind {
            GroupKind::Aggregation => {},
            _ => {
                found.sort();
                found.filter_by_group(self);
            },
        }
        intersections.append(found);
    }

    pub fn includes(&self, shape: &Shape) -> (found: bool)
        ensures
            found == self.holds(shape.id),
        decreases self,
    {
        let mut i: usize = 0;
        while i < self.children.len()
            invariant
                i <= self.children@.len(),
                forall|j: int| 0 <= j < i ==> !(#[trigger] self.children@[j]).holds(shape.id),
            decreases self.children@.len() - i,
        {
            if self.children[i].includes(shape) {
                return true;
            }
            i += 1;
        }
        false
    }
}

} // verus!
