use vstd::prelude::*;

verus! {

/// The greatest coordinate there is: the one at infinity.
pub const HIGHEST: i64 = 0x7ff0_0000_0000_0000;

/// The least coordinate there is: the one at minus infinity.
pub const LOWEST: i64 = -0x7ff0_0000_0000_0001;

/// A point of space.  Each coordinate is an integer between `LOWEST` and
/// `HIGHEST` that orders as the number it stands for.
#[derive(Debug, Clone, Copy, PartialEq, Eq, Structural)]
pub struct Point {
    pub x: i64,
    pub y: i64,
    pub z: i64,
}

impl Point {
    /// Whether every coordinate lies between the least and the greatest there is.
    pub open spec fn in_range(&self) -> bool {
        &&& LOWEST <= self.x <= HIGHEST
        &&& LOWEST <= self.y <= HIGHEST
        &&& LOWEST <= self.z <= HIGHEST
    }
}

/// A box with its sides along the axes, from its least to its greatest corner.
#[derive(Debug, Clone, Copy, PartialEq, Eq, Structural)]
pub struct BoundingBox {
    pub min: Point,
    pub max: Point,
}

/// The lesser of two coordinates.
pub open spec fn lesser(a: i64, b: i64) -> i64 {
    if a <= b {
        a
    } else {
        b
    }
}

/// The greater of two coordinates.
pub open spec fn greater(a: i64, b: i64) -> i64 {
    if a >= b {
        a
    } else {
        b
    }
}

fn least(a: i64, b: i64) -> (r: i64)
    ensures
        r == lesser(a, b),
{
    if a <= b {
        a
    } else {
        b
    }
}

fn greatest(a: i64, b: i64) -> (r: i64)
    ensures
        r == greater(a, b),
{
    if a >= b {
        a
    } else {
        b
    }
}

impl BoundingBox {
    /// Whether `point` lies in the box, its sides included.
    pub open spec fn holds(&self, point: Point) -> bool {
        &&& self.min.x <= point.x <= self.max.x
        &&& self.min.y <= point.y <= self.max.y
        &&& self.min.z <= point.z <= self.max.z
    }

    /// Whether both corners of `other` lie in the box.
    pub open spec fn surrounds(&self, other: &BoundingBox) -> bool {
        self.holds(other.min) && self.holds(other.max)
    }

    /// Whether the least corner is nowhere greater than the greatest.
    pub open spec fn proper(&self) -> bool {
        self.min.x <= self.max.x && self.min.y <= self.max.y && self.min.z <= self.max.z
    }

    /// The box grown just enough to hold `point`.
    pub open spec fn with(&self, point: Point) -> BoundingBox {
        BoundingBox {
            min: Point {
                x: lesser(self.min.x, point.x),
                y: lesser(self.min.y, point.y),
                z: lesser(self.min.z, point.z),
            },
            max: Point {
                x: greater(self.max.x, point.x),
                y: greater(self.max.y, point.y),
                z: greater(self.max.z, point.z),
            },
        }
    }

    /// The box grown to hold the least and then the greatest corner of `other`.
    pub open spec fn joined(&self, other: &BoundingBox) -> BoundingBox {
        self.with(other.min).with(other.max)
    }

    /// The box that holds nothing.
    pub open spec fn nothing() -> BoundingBox {
        BoundingBox {
            min: Point { x: HIGHEST, y: HIGHEST, z: HIGHEST },
            max: Point { x: LOWEST, y: LOWEST, z: LOWEST },
        }
    }

    /// The boxes of `boxes` joined one after the other to the box that holds nothing.
    pub open spec fn hull(boxes: Seq<BoundingBox>) -> BoundingBox
        decreases boxes.len(),
    {
        if boxes.len() == 0 {
            Self::nothing()
        } else {
            Self::hull(boxes.drop_last()).joined(&boxes.last())
        }
    }

    pub fn empty() -> (bbox: BoundingBox)
        ensures
            bbox == Self::nothing(),
    {
        BoundingBox {
            min: Point { x: HIGHEST, y: HIGHEST, z: HIGHEST },
            max: Point { x: LOWEST, y: LOWEST, z: LOWEST },
        }
    }

    pub fn new(min: Point, max: Point) -> (bbox: BoundingBox)
        ensures
            bbox == (BoundingBox { min, max }),
    {
        BoundingBox { min, max }
    }

    pub fn insert(&self, point: Point) -> (bbox: BoundingBox)
        ensures
            bbox == self.with(point),
    {
        BoundingBox {
            min: Point {
                x: least(self.min.x, point.x),
                y: least(self.min.y, point.y),
                z: least(self.min.z, point.z),
            },
            max: Point {
                x: greatest(self.max.x, point.x),
                y: greatest(self.max.y, point.y),
                z: greatest(self.max.z, point.z),
            },
        }
    }

    pub fn union(&self, other: &BoundingBox) -> (bbox: BoundingBox)
        ensures
            bbox == self.joined(other),
    {
        self.insert(other.min).insert(other.max)
    }

    pub fn contains(&self, point: Point) -> (inside: bool)
        ensures
            inside == self.holds(point),
    {
        self.min.x <= point.x && point.x <= self.max.x && self.min.y <= point.y && point.y
            <= self.max.y && self.min.z <= point.z && point.z <= self.max.z
    }

    pub fn encloses(&self, other: &BoundingBox) -> (around: bool)
        ensures
            around == self.surrounds(other),
    {
        self.contains(other.min) && self.contains(other.max)
    }

    /// The box around all of `boxes`.
    pub fn enclosing(boxes: &Vec<BoundingBox>) -> (bbox: BoundingBox)
        ensures
            bbox == Self::hull(boxes@),
    {
        let mut bbox = BoundingBox::empty();
        let mut i: usize = 0;
        assert(boxes@.take(0) =~= Seq::<BoundingBox>::empty());
        while i < boxes.len()
            invariant
                i <= boxes@.len(),
                bbox == Self::hull(boxes@.take(i as int)),
            decreases boxes@.len() - i,
        {
            assert(boxes@.take(i + 1).drop_last() =~= boxes@.take(i as int));
            bbox = bbox.union(&boxes[i]);
            i += 1;
        }
        assert(boxes@.take(i as int) =~= boxes@);
        bbox
    }
}

/// The box that holds nothing holds no point whose coordinates are coordinates.
pub proof fn lemma_nothing_holds_nothing(point: Point)
    requires
        point.in_range(),
    ensures
        !BoundingBox::nothing().holds(point),
{
}

/// A box with a point put in holds that point and all it held before, and
/// is the least such box: whatever box holds the point and surrounds the
/// old box surrounds the new one.  Put into the box that holds nothing, a
/// point is all the box holds.
pub proof fn lemma_insert(bbox: BoundingBox, point: Point, held: Point, around: BoundingBox)
    ensures
        bbox.with(point).holds(point),
        bbox.holds(held) ==> bbox.with(point).holds(held),
        around.holds(point) && around.surrounds(&bbox) ==> around.surrounds(&bbox.with(point)),
        point.in_range() ==> BoundingBox::nothing().with(point) == (BoundingBox {
            min: point,
            max: point,
        }),
{
}

/// The union of two boxes surrounds the second, holds whatever one of them
/// holds, and surrounds the first where that is a proper box; the union of
/// the box that holds nothing with a proper box is that box.
pub proof fn lemma_union(a: BoundingBox, b: BoundingBox, held: Point)
    ensures
        a.joined(&b).surrounds(&b),
        a.holds(held) ==> a.joined(&b).holds(held),
        b.holds(held) ==> a.joined(&b).holds(held),
        a.proper() ==> a.joined(&b).surrounds(&a),
        b.min.in_range() && b.max.in_range() && b.proper() ==> BoundingBox::nothing().joined(&b)
            == b,
{
}

/// A box that surrounds a proper box holds every point of it, and
/// surrounding carries over from box to box.
pub proof fn lemma_encloses(a: BoundingBox, b: BoundingBox, c: BoundingBox, held: Point)
    ensures
        a.surrounds(&b) && b.holds(held) ==> a.holds(held),
        a.surrounds(&b) && b.surrounds(&c) ==> a.surrounds(&c),
        a.proper() ==> a.surrounds(&a),
{
}

/// The box around a group of boxes surrounds each of them, and holds every
/// point that one of them holds.
pub proof fn lemma_hull(boxes: Seq<BoundingBox>, i: int, held: Point)
    requires
        0 <= i < boxes.len(),
    ensures
        BoundingBox::hull(boxes).surrounds(&boxes[i]),
        boxes[i].holds(held) ==> BoundingBox::hull(boxes).holds(held),
    decreases boxes.len(),
{
    let front = boxes.drop_last();
    lemma_union(BoundingBox::hull(front), boxes.last(), held);
    if i < boxes.len() - 1 {
        lemma_hull(front, i, held);
        lemma_hull(front, i, boxes[i].min);
        lemma_hull(front, i, boxes[i].max);
        assert(front[i] == boxes[i]);
        lemma_union(BoundingBox::hull(front), boxes.last(), boxes[i].min);
        lemma_union(BoundingBox::hull(front), boxes.last(), boxes[i].max);
    }
}

} // verus!
