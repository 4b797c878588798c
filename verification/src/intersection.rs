use crate::shape::{Group, Shape};
use vstd::prelude::*;

verus! {

/// One crossing of a ray with a primitive.
///
/// The parameter `t` along the ray, and the surface coordinates `u` and `v`
/// where the primitive has them, are integers that order as the quantities
/// they stand for; `t == 0` is the origin of the ray.
#[derive(Debug, Clone, Copy)]
pub struct Intersection {
    pub t: i64,
    pub shape: Shape,
    pub u: Option<i64>,
    pub v: Option<i64>,
}

impl PartialEq for Intersection {
    fn eq(&self, other: &Intersection) -> (r: bool) {
        self.t == other.t && self.shape.id == other.shape.id
    }
}

impl Eq for Intersection {}

impl vstd::std_specs::cmp::PartialEqSpecImpl for Intersection {
    open spec fn obeys_eq_spec() -> bool {
        true
    }

    /// Crossings are the same when they lie at the same parameter on the same shape.
    open spec fn eq_spec(&self, other: &Intersection) -> bool {
        self.t == other.t && self.shape.id == other.shape.id
    }
}

/// Whether the parameters of `s` never decrease from one record to the next.
pub open spec fn ordered(s: Seq<Intersection>) -> bool {
    forall|i: int, j: int| 0 <= i <= j < s.len() ==> s[i].t <= s[j].t
}

/// `s` with `x` put behind the last record whose parameter is not greater than that of `x`.
pub open spec fn place(s: Seq<Intersection>, x: Intersection) -> Seq<Intersection>
    decreases s.len(),
{
    if s.len() == 0 {
        seq![x]
    } else if s.last().t <= x.t {
        s.push(x)
    } else {
        place(s.drop_last(), x).push(s.last())
    }
}

/// The records of `s` by increasing parameter; records with the same
/// parameter keep the order they have in `s`.
pub open spec fn arranged(s: Seq<Intersection>) -> Seq<Intersection>
    decreases s.len(),
{
    if s.len() == 0 {
        Seq::empty()
    } else {
        place(arranged(s.drop_last()), s.last())
    }
}

/// The first position from which on every record of `s` has a greater parameter than `t`.
pub open spec fn slot(s: Seq<Intersection>, t: i64) -> int
    decreases s.len(),
{
    if s.len() == 0 || s.last().t <= t {
        s.len() as int
    } else {
        slot(s.drop_last(), t)
    }
}

proof fn lemma_slot(s: Seq<Intersection>, t: i64)
    ensures
        0 <= slot(s, t) <= s.len(),
        forall|k: int| slot(s, t) <= k < s.len() ==> s[k].t > t,
        slot(s, t) > 0 ==> s[slot(s, t) - 1].t <= t,
    decreases s.len(),
{
    if s.len() == 0 || s.last().t <= t {
    } else {
        let front = s.drop_last();
        lemma_slot(front, t);
        assert forall|k: int| slot(s, t) <= k < s.len() implies s[k].t > t by {
            if k < front.len() {
                assert(front[k] == s[k]);
            }
        }
        if slot(s, t) > 0 {
            assert(front[slot(s, t) - 1] == s[slot(s, t) - 1]);
        }
    }
}

proof fn lemma_place_is_insert(s: Seq<Intersection>, x: Intersection)
    ensures
        place(s, x) == s.insert(slot(s, x.t), x),
    decreases s.len(),
{
    if s.len() == 0 {
        assert(seq![x] =~= s.insert(0, x));
    } else if s.last().t <= x.t {
        assert(s.push(x) =~= s.insert(s.len() as int, x));
    } else {
        lemma_place_is_insert(s.drop_last(), x);
        lemma_slot(s.drop_last(), x.t);
        let p = slot(s.drop_last(), x.t);
        assert(s.drop_last().insert(p, x).push(s.last()) =~= s.insert(p, x));
    }
}

/// Placing a record into ordered records leaves them ordered, and adds just that record.
pub proof fn lemma_place(s: Seq<Intersection>, x: Intersection)
    ensures
        place(s, x).len() == s.len() + 1,
        place(s, x).to_multiset() == s.to_multiset().insert(x),
        ordered(s) ==> ordered(place(s, x)),
{
    lemma_place_is_insert(s, x);
    lemma_slot(s, x.t);
    let p = slot(s, x.t);
    let r = s.insert(p, x);
    broadcast use vstd::seq_lib::group_to_multiset_ensures;
    assert(r.remove(p) =~= s);
    assert(r.to_multiset().remove(x) =~= s.to_multiset());
    assert(r.to_multiset().count(x) > 0) by {
        assert(r.contains(r[p]));
    }
    assert(r.to_multiset() =~= s.to_multiset().insert(x));
    if ordered(s) {
        assert forall|i: int, j: int| 0 <= i <= j < r.len() implies r[i].t <= r[j].t by {
            if p > 0 {
                assert(s[p - 1].t <= x.t);
            }
            if i < p && j < p {
                assert(r[i] == s[i] && r[j] == s[j]);
            } else if i < p && j == p {
                assert(r[i] == s[i]);
                assert(s[i].t <= s[p - 1].t);
            } else if i < p && j > p {
                assert(r[i] == s[i] && r[j] == s[j - 1]);
            } else if i == p && j > p {
                assert(r[j] == s[j - 1]);
            } else if i > p {
                assert(r[i] == s[i - 1] && r[j] == s[j - 1]);
            }
        }
    }
}

/// Arranging yields ordered records, and the same records as before.
pub proof fn lemma_arranged(s: Seq<Intersection>)
    ensures
        ordered(arranged(s)),
        arranged(s).len() == s.len(),
        arranged(s).to_multiset() == s.to_multiset(),
    decreases s.len(),
{
    broadcast use vstd::seq_lib::group_to_multiset_ensures;
    if s.len() == 0 {
        assert(s =~= Seq::empty());
    } else {
        lemma_arranged(s.drop_last());
        lemma_place(arranged(s.drop_last()), s.last());
        assert(s.drop_last().push(s.last()) =~= s);
    }
}

/// Arranging ordered records changes nothing.
pub proof fn lemma_arranged_fixes_ordered(s: Seq<Intersection>)
    requires
        ordered(s),
    ensures
        arranged(s) == s,
    decreases s.len(),
{
    if s.len() > 0 {
        let front = s.drop_last();
        lemma_arranged_fixes_ordered(front);
        if front.len() > 0 {
            assert(front.last() == s[s.len() - 2]);
        }
        assert(front.push(s.last()) =~= s);
    }
}

/// The records of `s` that a ray keeps when it crosses `group`, where
/// `in_left` and `in_right` say whether the ray starts inside the first
/// child and inside the rest of the group.
///
/// A record of a shape outside the group is kept and changes nothing.  A
/// record of a shape under the first child counts as a hit on the left,
/// any other as a hit on the right; it is kept where the group's rule
/// allows it, and the ray then changes sides in that child.
pub open spec fn crossing(
    s: Seq<Intersection>,
    group: &Group,
    in_left: bool,
    in_right: bool,
) -> Seq<Intersection>
    decreases s.len(),
{
    if s.len() == 0 {
        Seq::empty()
    } else if !group.holds(s[0].shape.id) {
        seq![s[0]] + crossing(s.drop_first(), group, in_left, in_right)
    } else {
        let left_hit = group.children@[0].holds(s[0].shape.id);
        let rest = crossing(
            s.drop_first(),
            group,
            if left_hit { !in_left } else { in_left },
            if left_hit { in_right } else { !in_right },
        );
        if group.kind.keeps(left_hit, in_left, in_right) {
            seq![s[0]] + rest
        } else {
            rest
        }
    }
}

/// Filtering keeps records of `s` only, in their order.
pub proof fn lemma_crossing_keeps_records(
    s: Seq<Intersection>,
    group: &Group,
    in_left: bool,
    in_right: bool,
)
    ensures
        crossing(s, group, in_left, in_right).len() <= s.len(),
        forall|i: int|
            0 <= i < crossing(s, group, in_left, in_right).len() ==> s.contains(
                #[trigger] crossing(s, group, in_left, in_right)[i],
            ),
        ordered(s) ==> ordered(crossing(s, group, in_left, in_right)),
    decreases s.len(),
{
    if s.len() > 0 {
        let tail = s.drop_first();
        let r = crossing(s, group, in_left, in_right);
        let left_hit = group.children@[0].holds(s[0].shape.id);
        let next_left = if !group.holds(s[0].shape.id) {
            in_left
        } else if left_hit {
            !in_left
        } else {
            in_left
        };
        let next_right = if !group.holds(s[0].shape.id) {
            in_right
        } else if left_hit {
            in_right
        } else {
            !in_right
        };
        let rest = crossing(tail, group, next_left, next_right);
        lemma_crossing_keeps_records(tail, group, next_left, next_right);
        assert(r == rest || r == seq![s[0]] + rest);
        assert forall|i: int| 0 <= i < tail.len() implies tail[i] == s[i + 1] by {}
        assert forall|i: int| 0 <= i < rest.len() implies s.contains(#[trigger] rest[i]) by {
            let k = choose|k: int| 0 <= k < tail.len() && tail[k] == rest[i];
            assert(s[k + 1] == rest[i]);
        }
        assert forall|i: int| 0 <= i < r.len() implies s.contains(#[trigger] r[i]) by {
            if r == rest {
            } else if i == 0 {
                assert(s[0] == r[0]);
            } else {
                assert(r[i] == rest[i - 1]);
            }
        }
        if ordered(s) {
            assert(ordered(tail));
            assert forall|i: int, j: int| 0 <= i <= j < r.len() implies r[i].t <= r[j].t by {
                if r == rest {
                } else if i == 0 {
                    if j > 0 {
                        assert(r[j] == rest[j - 1]);
                        let k = choose|k: int| 0 <= k < tail.len() && tail[k] == rest[j - 1];
                        assert(s[k + 1] == r[j]);
                    }
                } else {
                    assert(r[i] == rest[i - 1] && r[j] == rest[j - 1]);
                }
            }
        }
    }
}

/// A plain aggregation keeps every record.
pub proof fn lemma_crossing_aggregation(
    s: Seq<Intersection>,
    group: &Group,
    in_left: bool,
    in_right: bool,
)
    requires
        group.kind == crate::shape::GroupKind::Aggregation,
    ensures
        crossing(s, group, in_left, in_right) == s,
    decreases s.len(),
{
    if s.len() > 0 {
        let left_hit = group.children@[0].holds(s[0].shape.id);
        lemma_crossing_aggregation(s.drop_first(), group, in_left, in_right);
        lemma_crossing_aggregation(s.drop_first(), group, !in_left, in_right);
        lemma_crossing_aggregation(s.drop_first(), group, in_left, !in_right);
        assert(seq![s[0]] + s.drop_first() =~= s);
    }
}

/// The stack of entered shapes after a crossing with `shape`: without that
/// shape where the stack holds it, else with it on top.
pub open spec fn toggled(stack: Seq<Shape>, shape: Shape) -> Seq<Shape> {
    if exists|k: int| 0 <= k < stack.len() && (#[trigger] stack[k]).id == shape.id {
        stack.filter(|s: Shape| s.id != shape.id)
    } else {
        stack.push(shape)
    }
}

/// The shapes that a ray is inside of after the records `s`, the latest on top.
pub open spec fn entered(s: Seq<Intersection>) -> Seq<Shape>
    decreases s.len(),
{
    if s.len() == 0 {
        Seq::empty()
    } else {
        toggled(entered(s.drop_last()), s.last().shape)
    }
}

/// Whether no two shapes of `stack` have the same identity.
pub open spec fn distinct(stack: Seq<Shape>) -> bool {
    forall|i: int, j: int| 0 <= i < j < stack.len() ==> stack[i].id != stack[j].id
}

proof fn lemma_filter_distinct(stack: Seq<Shape>, keep: spec_fn(Shape) -> bool)
    requires
        distinct(stack),
    ensures
        distinct(stack.filter(keep)),
        forall|k: int|
            0 <= k < stack.filter(keep).len() ==> keep(#[trigger] stack.filter(keep)[k])
                && stack.contains(stack.filter(keep)[k]),
    decreases stack.len(),
{
    reveal(Seq::filter);
    if stack.len() > 0 {
        let front = stack.drop_last();
        lemma_filter_distinct(front, keep);
        let kept = front.filter(keep);
        assert forall|k: int| 0 <= k < kept.len() implies stack.contains(#[trigger] kept[k])
            && kept[k].id != stack.last().id by {
            let i = choose|i: int| 0 <= i < front.len() && front[i] == kept[k];
            assert(stack[i] == kept[k]);
        }
        if keep(stack.last()) {
            let all = kept.push(stack.last());
            assert(stack.filter(keep) == all);
            assert forall|k: int| 0 <= k < all.len() implies keep(#[trigger] all[k])
                && stack.contains(all[k]) by {
                if k < kept.len() {
                    assert(all[k] == kept[k]);
                } else {
                    assert(stack[stack.len() - 1] == all[k]);
                }
            }
            assert forall|i: int, j: int| 0 <= i < j < all.len() implies all[i].id
                != all[j].id by {
                assert(all[i] == kept[i]);
                if j < kept.len() {
                    assert(all[j] == kept[j]);
                }
            }
        } else {
            assert(stack.filter(keep) == kept);
        }
    }
}

/// A ray is inside no shape twice: the entered shapes differ in identity,
/// and a shape is among them exactly when the ray has crossed it an odd
/// number of times.
pub proof fn lemma_entered(s: Seq<Intersection>, id: usize)
    ensures
        distinct(entered(s)),
        (exists|k: int| 0 <= k < entered(s).len() && (#[trigger] entered(s)[k]).id == id)
            == (crossings(s, id) % 2 == 1),
    decreases s.len(),
{
    if s.len() > 0 {
        let front = s.drop_last();
        let shape = s.last().shape;
        let stack = entered(front);
        lemma_entered(front, id);
        lemma_entered(front, shape.id);
        let keep = |x: Shape| x.id != shape.id;
        lemma_filter_distinct(stack, keep);
        let next = toggled(stack, shape);
        assert(entered(s) == next);
        if exists|k: int| 0 <= k < stack.len() && (#[trigger] stack[k]).id == shape.id {
            assert(next == stack.filter(keep));
            if id != shape.id {
                if exists|k: int| 0 <= k < stack.len() && (#[trigger] stack[k]).id == id {
                    let k = choose|k: int| 0 <= k < stack.len() && (#[trigger] stack[k]).id == id;
                    stack.lemma_filter_contains(keep, k);
                    let m = choose|m: int| 0 <= m < next.len() && next[m] == stack[k];
                    assert(next[m].id == id);
                }
                if exists|m: int| 0 <= m < next.len() && (#[trigger] next[m]).id == id {
                    let m = choose|m: int| 0 <= m < next.len() && (#[trigger] next[m]).id == id;
                    assert(stack.contains(next[m]));
                    let k = choose|k: int| 0 <= k < stack.len() && stack[k] == next[m];
                    assert(stack[k].id == id);
                }
            }
        } else {
            assert(next == stack.push(shape));
            assert(next[next.len() - 1].id == shape.id);
            assert forall|i: int, j: int| 0 <= i < j < next.len() implies next[i].id
                != next[j].id by {
                assert(next[i] == stack[i]);
                if j < stack.len() {
                    assert(next[j] == stack[j]);
                }
            }
            if exists|k: int| 0 <= k < stack.len() && (#[trigger] stack[k]).id == id {
                let k = choose|k: int| 0 <= k < stack.len() && (#[trigger] stack[k]).id == id;
                assert(next[k].id == id);
            }
            if id != shape.id {
                if exists|m: int| 0 <= m < next.len() && (#[trigger] next[m]).id == id {
                    let m = choose|m: int| 0 <= m < next.len() && (#[trigger] next[m]).id == id;
                    assert(stack[m].id == id);
                }
            }
        }
    }
}

/// How many records of `s` are crossings with the shape of identity `id`.
pub open spec fn crossings(s: Seq<Intersection>, id: usize) -> nat
    decreases s.len(),
{
    if s.len() == 0 {
        0
    } else if s.last().shape.id == id {
        crossings(s.drop_last(), id) + 1
    } else {
        crossings(s.drop_last(), id)
    }
}

/// The shape on top of `stack`, if any.
pub open spec fn top(stack: Seq<Shape>) -> Option<Shape> {
    if stack.len() == 0 {
        None
    } else {
        Some(stack.last())
    }
}

/// The medium that a ray is in just before the last record of `s` that
/// equals `hit`; `None` is empty space, and the answer where no record equals `hit`.
pub open spec fn medium_before(s: Seq<Intersection>, hit: Intersection) -> Option<Shape>
    decreases s.len(),
{
    if s.len() == 0 {
        None
    } else if s.last().t == hit.t && s.last().shape.id == hit.shape.id {
        top(entered(s.drop_last()))
    } else {
        medium_before(s.drop_last(), hit)
    }
}

/// The medium that a ray is in just after the last record of `s` that equals `hit`.
pub open spec fn medium_after(s: Seq<Intersection>, hit: Intersection) -> Option<Shape>
    decreases s.len(),
{
    if s.len() == 0 {
        None
    } else if s.last().t == hit.t && s.last().shape.id == hit.shape.id {
        top(entered(s))
    } else {
        medium_after(s.drop_last(), hit)
    }
}

/// What the bookkeeping of one ray knows of a crossing that is to be shaded.
#[derive(Debug, Clone, Copy)]
pub struct State {
    pub t: i64,
    pub shape: Shape,
    pub u: Option<i64>,
    pub v: Option<i64>,
    /// The shape whose medium the ray leaves; `None` is empty space.
    pub n1: Option<Shape>,
    /// The shape whose medium the ray enters; `None` is empty space.
    pub n2: Option<Shape>,
}

fn toggle(stack: &mut Vec<Shape>, shape: Shape)
    ensures
        final(stack)@ == toggled(old(stack)@, shape),
{
    let mut found = false;
    let mut k: usize = 0;
    while k < stack.len()
        invariant
            k <= stack@.len(),
            stack@ == old(stack)@,
            found == exists|j: int| 0 <= j < k && (#[trigger] stack@[j]).id == shape.id,
        decreases stack@.len() - k,
    {
        if stack[k].id == shape.id {
            found = true;
        }
        k += 1;
    }
    if found {
        let ghost keep = |s: Shape| s.id != shape.id;
        let mut rest: Vec<Shape> = Vec::new();
        let mut j: usize = 0;
        assert(stack@.take(0).filter(keep) =~= Seq::<Shape>::empty()) by {
            reveal(Seq::filter);
        }
        while j < stack.len()
            invariant
                j <= stack@.len(),
                stack@ == old(stack)@,
                keep == (|s: Shape| s.id != shape.id),
                rest@ == stack@.take(j as int).filter(keep),
            decreases stack@.len() - j,
        {
            proof {
                reveal(Seq::filter);
                assert(stack@.take(j + 1).drop_last() =~= stack@.take(j as int));
                assert(stack@.take(j + 1).last() == stack@[j as int]);
            }
            if stack[j].id != shape.id {
                rest.push(stack[j]);
            }
            j += 1;
        }
        assert(stack@.take(j as int) =~= stack@);
        *stack = rest;
    } else {
        stack.push(shape);
    }
}

impl Intersection {
    /// Finds the media on both sides of this crossing among the crossings of its ray.
    pub fn prepare_state(self, intersections: &Intersections) -> (state: State)
        ensures
            state.t == self.t,
            state.shape == self.shape,
            state.u == self.u,
            state.v == self.v,
            state.n1 == medium_before(intersections@, self),
            state.n2 == medium_after(intersections@, self),
    {
        let mut shapes: Vec<Shape> = Vec::new();
        let mut n1: Option<Shape> = None;
        let mut n2: Option<Shape> = None;
        let mut i: usize = 0;
        while i < intersections.intersections.len()
            invariant
                i <= intersections.intersections@.len(),
                shapes@ == entered(intersections.intersections@.take(i as int)),
                n1 == medium_before(intersections.intersections@.take(i as int), self),
                n2 == medium_after(intersections.intersections@.take(i as int), self),
            decreases intersections.intersections@.len() - i,
        {
            let record = intersections.intersections[i];
            let is_hit = record.t == self.t && record.shape.id == self.shape.id;
            proof {
                let now = intersections.intersections@.take(i + 1);
                assert(now.drop_last() =~= intersections.intersections@.take(i as int));
                assert(now.last() == record);
            }
            if is_hit {
                n1 = last_of(&shapes);
            }
            toggle(&mut shapes, record.shape);
            if is_hit {
                n2 = last_of(&shapes);
            }
            i += 1;
        }
        assert(intersections.intersections@.take(i as int) =~= intersections.intersections@);
        State { t: self.t, shape: self.shape, u: self.u, v: self.v, n1, n2 }
    }
}

fn last_of(stack: &Vec<Shape>) -> (shape: Option<Shape>)
    ensures
        shape == top(stack@),
{
    if stack.len() == 0 {
        None
    } else {
        Some(stack[stack.len() - 1])
    }
}

/// The first record of `s` whose parameter is not negative.
pub open spec fn nearest(s: Seq<Intersection>) -> Option<Intersection>
    decreases s.len(),
{
    if s.len() == 0 {
        None
    } else if s[0].t >= 0 {
        Some(s[0])
    } else {
        nearest(s.drop_first())
    }
}

/// What `nearest` picks: nothing exactly when every parameter is negative,
/// else a record of `s` in front of which all parameters are negative; in
/// ordered records no record in front of the origin lies nearer to it.
pub proof fn lemma_nearest(s: Seq<Intersection>)
    ensures
        nearest(s).is_none() <==> forall|i: int| 0 <= i < s.len() ==> s[i].t < 0,
        nearest(s).is_some() ==> exists|k: int|
            0 <= k < s.len() && #[trigger] s[k] == nearest(s).unwrap() && s[k].t >= 0
                && forall|j: int| 0 <= j < k ==> s[j].t < 0,
        nearest(s).is_some() && ordered(s) ==> forall|i: int|
            0 <= i < s.len() && s[i].t >= 0 ==> nearest(s).unwrap().t <= s[i].t,
    decreases s.len(),
{
    if s.len() == 0 {
    } else if s[0].t >= 0 {
        assert(s[0] == nearest(s).unwrap());
    } else {
        let rest = s.drop_first();
        lemma_nearest(rest);
        assert forall|i: int| 0 <= i < rest.len() implies rest[i] == s[i + 1] by {}
        if nearest(rest).is_some() {
            let k = choose|k: int|
                0 <= k < rest.len() && #[trigger] rest[k] == nearest(rest).unwrap() && rest[k].t
                    >= 0 && forall|j: int| 0 <= j < k ==> rest[j].t < 0;
            assert(s[k + 1] == nearest(s).unwrap());
            assert forall|j: int| 0 <= j < k + 1 implies s[j].t < 0 by {
                if j > 0 {
                    assert(rest[j - 1] == s[j]);
                }
            }
            if ordered(s) {
                assert forall|i: int| 0 <= i < s.len() && s[i].t >= 0 implies nearest(
                    s,
                ).unwrap().t <= s[i].t by {
                    assert(rest[i - 1] == s[i]);
                }
            }
        } else {
            assert forall|i: int| 0 <= i < s.len() implies s[i].t < 0 by {
                if i > 0 {
                    assert(rest[i - 1] == s[i]);
                }
            }
        }
        if forall|i: int| 0 <= i < s.len() ==> s[i].t < 0 {
            assert forall|i: int| 0 <= i < rest.len() implies rest[i].t < 0 by {
                assert(rest[i] == s[i + 1]);
            }
        }
    }
}

/// The crossings found along one ray.
#[derive(Debug, Clone)]
pub struct Intersections {
    intersections: Vec<Intersection>,
}

impl View for Intersections {
    type V = Seq<Intersection>;

    closed spec fn view(&self) -> Seq<Intersection> {
        self.intersections@
    }
}

impl Intersections {
    pub fn new() -> (ledger: Intersections)
        ensures
            ledger@ == Seq::<Intersection>::empty(),
    {
        Intersections { intersections: Vec::new() }
    }

    pub fn insert(&mut self, intersection: Intersection)
        ensures
            final(self)@ == old(self)@.push(intersection),
    {
        self.intersections.push(intersection);
    }

    pub fn clear(&mut self)
        ensures
            final(self)@ == Seq::<Intersection>::empty(),
    {
        self.intersections.clear();
    }

    pub fn len(&self) -> (n: usize)
        ensures
            n == self@.len(),
    {
        self.intersections.len()
    }

    pub fn get(&self, i: usize) -> (record: Intersection)
        requires
            i < self@.len(),
        ensures
            record == self@[i as int],
    {
        self.intersections[i]
    }

    /// The records, in the order they stand in.
    pub fn to_vec(&self) -> (records: Vec<Intersection>)
        ensures
            records@ == self@,
    {
        let mut records: Vec<Intersection> = Vec::new();
        let mut i: usize = 0;
        while i < self.intersections.len()
            invariant
                i <= self.intersections@.len(),
                records@ == self.intersections@.take(i as int),
            decreases self.intersections@.len() - i,
        {
            records.push(self.intersections[i]);
            assert(self.intersections@.take(i as int).push(self.intersections@[i as int])
                =~= self.intersections@.take(i + 1));
            i += 1;
        }
        assert(self.intersections@.take(i as int) =~= self.intersections@);
        records
    }

    /// Moves the records of `other` behind those of `self`.
    pub fn append(&mut self, other: &mut Intersections)
        ensures
            final(self)@ == old(self)@ + old(other)@,
            final(other)@ == Seq::<Intersection>::empty(),
    {
        self.intersections.append(&mut other.intersections);
    }

    /// Orders the records by parameter; records with the same parameter stay in their order.
    pub fn sort(&mut self)
        ensures
            final(self)@ == arranged(old(self)@),
            ordered(final(self)@),
            final(self)@.to_multiset() == old(self)@.to_multiset(),
    {
        let mut out: Vec<Intersection> = Vec::new();
        let mut i: usize = 0;
        while i < self.intersections.len()
            invariant
                i <= self.intersections@.len(),
                out@ == arranged(self.intersections@.take(i as int)),
                out@.len() == i,
            decreases self.intersections@.len() - i,
        {
            let x = self.intersections[i];
            let mut p: usize = out.len();
            assert(out@.take(p as int) =~= out@);
            while p > 0 && out[p - 1].t > x.t
                invariant
                    p <= out@.len(),
                    slot(out@, x.t) == slot(out@.take(p as int), x.t),
                decreases p,
            {
                proof {
                    let cut = out@.take(p as int);
                    assert(cut.last() == out@[p - 1]);
                    assert(cut.drop_last() =~= out@.take(p - 1));
                }
                p -= 1;
            }
            proof {
                let cut = out@.take(p as int);
                if p > 0 {
                    assert(cut.last() == out@[p - 1]);
                }
                assert(slot(cut, x.t) == p);
                lemma_place_is_insert(out@, x);
                assert(self.intersections@.take(i + 1).drop_last() =~= self.intersections@.take(
                    i as int,
                ));
                lemma_place(out@, x);
            }
            out.insert(p, x);
            i += 1;
        }
        proof {
            assert(self.intersections@.take(i as int) =~= self.intersections@);
            lemma_arranged(self.intersections@);
        }
        self.intersections = out;
    }

    /// Keeps the crossings at which a ray passes the surface of `group`.
    pub fn filter_by_group(&mut self, group: &Group)
        ensures
            final(self)@ == crossing(old(self)@, group, false, false),
    {
        let mut in_left = false;
        let mut in_right = false;
        let mut result: Vec<Intersection> = Vec::new();
        let mut i: usize = 0;
        assert(self.intersections@.skip(0) =~= self.intersections@);
        while i < self.intersections.len()
            invariant
                i <= self.intersections@.len(),
                result@ + crossing(self.intersections@.skip(i as int), group, in_left, in_right)
                    == crossing(self.intersections@, group, false, false),
            decreases self.intersections@.len() - i,
        {
            let x = self.intersections[i];
            proof {
                let rest = self.intersections@.skip(i as int);
                assert(rest[0] == x);
                assert(rest.drop_first() =~= self.intersections@.skip(i + 1));
            }
            let ghost before = result@;
            let ghost tail = crossing(self.intersections@.skip(i + 1), group, in_left, in_right);
            if !group.includes(&x.shape) {
                result.push(x);
                assert(before.push(x) + tail =~= before + (seq![x] + tail));
            } else {
                let left_hit = group.children[0].includes(&x.shape);
                let ghost next_left = if left_hit { !in_left } else { in_left };
                let ghost next_right = if left_hit { in_right } else { !in_right };
                let ghost tail = crossing(
                    self.intersections@.skip(i + 1),
                    group,
                    next_left,
                    next_right,
                );
                if group.kind.allows_intersection(left_hit, in_left, in_right) {
                    result.push(x);
                    assert(before.push(x) + tail =~= before + (seq![x] + tail));
                }
                if left_hit {
                    in_left = !in_left;
                } else {
                    in_right = !in_right;
                }
            }
            i += 1;
        }
        assert(result@ + Seq::<Intersection>::empty() =~= result@);
        self.intersections = result;
    }

    /// The first crossing that does not lie behind the origin of the ray.
    pub fn hit(&self) -> (found: Option<Intersection>)
        ensures
            found == nearest(self@),
    {
        let mut i: usize = 0;
        assert(self.intersections@.skip(0) =~= self.intersections@);
        while i < self.intersections.len()
            invariant
                i <= self.intersections@.len(),
                nearest(self.intersections@) == nearest(self.intersections@.skip(i as int)),
            decreases self.intersections@.len() - i,
        {
            let x = self.intersections[i];
            proof {
                let rest = self.intersections@.skip(i as int);
                assert(rest[0] == x);
                assert(rest.drop_first() =~= self.intersections@.skip(i + 1));
            }
            if x.t >= 0 {
                return Some(x);
            }
            i += 1;
        }
        assert(self.intersections@.skip(i as int).len() == 0);
        None
    }
}

} // verus!
