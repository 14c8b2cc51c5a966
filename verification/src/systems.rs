//! The per-frame systems: collision detection, cleanup and rendering.
//!
//! Each system reads the world once, decides on plain values and, where it
//! changes the world, says in its contract what the world holds after it.

use vstd::prelude::*;
use hecs::World;
use crate::components::physics::AccelerationComponent;
use crate::components::physics::CollisionType;
use crate::components::physics::MassComponent;
use crate::components::physics::PositionComponent;
use crate::components::physics::SizeComponent;
use crate::components::physics::VelocityComponent;
use crate::components::render::Color;
use crate::scalar::half_unit;
use crate::scalar::lemma_placement;
use crate::scalar::lemma_units;
use crate::scalar::near_unit;
use crate::scalar::Scalar;
use crate::world::is_listing;
use crate::world::world_contents;
use crate::world::world_despawn;
use crate::world::world_rows;
use crate::world::world_set_motion;
use crate::world::Components;

verus! {

/// Half of an extent, in units of 2^-150, the units of `Scalar::scaled`.
pub open spec fn reach(extent: u32) -> int {
    extent * half_unit()
}

/// The left edge of the box of `size` around `position`, in units of
/// 2^-150: the x of the centre less half the width, exactly.
pub open spec fn box_left(position: PositionComponent, size: SizeComponent) -> int {
    position.value.x.scaled() - reach(size.width)
}

pub open spec fn box_right(position: PositionComponent, size: SizeComponent) -> int {
    position.value.x.scaled() + reach(size.width)
}

pub open spec fn box_top(position: PositionComponent, size: SizeComponent) -> int {
    position.value.y.scaled() - reach(size.height)
}

pub open spec fn box_bottom(position: PositionComponent, size: SizeComponent) -> int {
    position.value.y.scaled() + reach(size.height)
}

/// The two boxes share a point of the x axis.
pub open spec fn spans_overlap(
    position1: PositionComponent,
    size1: SizeComponent,
    position2: PositionComponent,
    size2: SizeComponent,
) -> bool {
    box_left(position1, size1) <= box_right(position2, size2) && box_left(position2, size2)
        <= box_right(position1, size1)
}

/// The two boxes share a point: neither lies wholly to the left of the
/// other, to its right, above it or below it.
pub open spec fn boxes_overlap(
    position1: PositionComponent,
    size1: SizeComponent,
    position2: PositionComponent,
    size2: SizeComponent,
) -> bool {
    !(box_left(position1, size1) > box_right(position2, size2) || box_right(position1, size1)
        < box_left(position2, size2) || box_top(position1, size1) > box_bottom(position2, size2)
        || box_bottom(position1, size1) < box_top(position2, size2))
}

/// Two to the 63rd power: the reach of an extent of one, in units of the
/// readings of near scalars.
pub const COARSE_REACH: i128 = 0x8000_0000_0000_0000;

/// Where the far scalars stand on the coarse axis of the sweep: beyond
/// every near scalar and every reach.
pub const FAR_AWAY: i128 = 0x400_0000_0000_0000_0000_0000_0000_0000;

/// Whether the range of extent `first_extent` around `first` and that of
/// extent `second_extent` around `second` share a point.
pub fn ranges_meet(first: Scalar, first_extent: u32, second: Scalar, second_extent: u32) -> (meet:
    bool)
    ensures
        meet == (first.scaled() - reach(first_extent) <= second.scaled() + reach(second_extent)
            && second.scaled() - reach(second_extent) <= first.scaled() + reach(first_extent)),
{
    let a = first.read();
    let b = second.read();
    proof {
        lemma_units();
        lemma_placement(first);
        lemma_placement(second);
    }
    if a.far && b.far {
        a.whole == b.whole
    } else if a.far || b.far {
        false
    } else {
        let room: i128 = (first_extent as i128 + second_extent as i128) * COARSE_REACH;
        let apart: i128 = a.whole - b.whole;
        (apart < room || (apart == room && a.rest <= b.rest)) && (-apart < room || (-apart == room
            && b.rest <= a.rest))
    }
}

/// The exact test of two boxes, each given by the position of its centre
/// and its size.
pub fn check_collision(
    entity1: (&PositionComponent, &SizeComponent),
    entity2: (&PositionComponent, &SizeComponent),
) -> (hit: bool)
    ensures
        hit == boxes_overlap(*entity1.0, *entity1.1, *entity2.0, *entity2.1),
{
    let pos1 = entity1.0;
    let pos2 = entity2.0;
    let size1 = entity1.1;
    let size2 = entity2.1;

    ranges_meet(pos1.value.x, size1.width, pos2.value.x, size2.width) && ranges_meet(
        pos1.value.y,
        size1.height,
        pos2.value.y,
        size2.height,
    )
}

/// Boxes whose x ranges are apart do not collide, whatever their y ranges
/// are.
pub proof fn lemma_apart_on_x_never_collides(
    position1: PositionComponent,
    size1: SizeComponent,
    position2: PositionComponent,
    size2: SizeComponent,
)
    requires
        box_right(position1, size1) < box_left(position2, size2) || box_right(position2, size2)
            < box_left(position1, size1),
    ensures
        !boxes_overlap(position1, size1, position2, size2),
{
}

/// A box collides with a box of the same size at the same centre.
pub proof fn lemma_same_box_collides(position: PositionComponent, size: SizeComponent)
    ensures
        boxes_overlap(position, size, position, size),
{
}

/// Whether two boxes collide does not depend on their order.
pub proof fn lemma_overlap_symmetric(
    position1: PositionComponent,
    size1: SizeComponent,
    position2: PositionComponent,
    size2: SizeComponent,
)
    ensures
        boxes_overlap(position1, size1, position2, size2) == boxes_overlap(
            position2,
            size2,
            position1,
            size1,
        ),
        spans_overlap(position1, size1, position2, size2) == spans_overlap(
            position2,
            size2,
            position1,
            size1,
        ),
        boxes_overlap(position1, size1, position2, size2) ==> spans_overlap(
            position1,
            size1,
            position2,
            size2,
        ),
{
}

/// An entity as the collision system sees it: its handle and its box.
#[derive(Debug, Clone, Copy)]
pub struct Collider {
    pub id: u64,
    pub position: PositionComponent,
    pub size: SizeComponent,
}

/// The place of a scalar on the coarse axis of the sweep: of a near
/// scalar its multiple of 2^86, rounded down; a far scalar stands far
/// away on its side of zero.
pub open spec fn coarse_centre(x: Scalar) -> int {
    if x.far() {
        if x.sign() {
            -FAR_AWAY
        } else {
            FAR_AWAY as int
        }
    } else {
        x.scaled() / near_unit()
    }
}

impl Collider {
    /// The x ranges of the two boxes meet.
    pub open spec fn meets_on_x(self, other: Collider) -> bool {
        spans_overlap(self.position, self.size, other.position, other.size)
    }

    /// The two boxes meet.
    pub open spec fn meets(self, other: Collider) -> bool {
        boxes_overlap(self.position, self.size, other.position, other.size)
    }

    /// The start of the x range on the coarse axis of the sweep.
    pub open spec fn coarse_left(self) -> int {
        coarse_centre(self.position.value.x) - self.size.width * COARSE_REACH
    }

    /// The end of the x range on the coarse axis of the sweep.
    pub open spec fn coarse_right(self) -> int {
        coarse_centre(self.position.value.x) + self.size.width * COARSE_REACH
    }

    /// The x ranges of the two boxes meet on the coarse axis of the sweep.
    pub open spec fn may_meet_on_x(self, other: Collider) -> bool {
        self.coarse_left() <= other.coarse_right() && other.coarse_left() <= self.coarse_right()
    }
}

/// The sweep loses no pair: boxes whose x ranges meet also meet on the
/// coarse axis.
pub proof fn lemma_coarse_axis_keeps_every_meeting(first: Collider, second: Collider)
    requires
        first.meets_on_x(second),
    ensures
        first.may_meet_on_x(second),
{
    lemma_units();
    lemma_placement(first.position.value.x);
    lemma_placement(second.position.value.x);
}

/// The x range of the collider at `index` of a list, on the coarse axis.
#[derive(Debug, Clone, Copy)]
pub struct Span {
    pub start: i128,
    pub end: i128,
    pub index: usize,
}

/// Places the x range of a collider on the coarse axis.
fn coarse_span(collider: &Collider, index: usize) -> (span: Span)
    ensures
        span.start == collider.coarse_left(),
        span.end == collider.coarse_right(),
        span.index == index,
{
    let reading = collider.position.value.x.read();
    proof {
        lemma_units();
        lemma_placement(collider.position.value.x);
    }
    let centre: i128 = if !reading.far {
        reading.whole
    } else if reading.whole < 0 {
        -FAR_AWAY
    } else {
        FAR_AWAY
    };
    let room: i128 = (collider.size.width as i128) * COARSE_REACH;
    Span { start: centre - room, end: centre + room, index }
}

/// `pair` joins `p` and `q`, in either order.
pub open spec fn joins(pair: (usize, usize), p: int, q: int) -> bool {
    (pair.0 == p && pair.1 == q) || (pair.0 == q && pair.1 == p)
}

/// `pairs` holds the pairs of colliders whose x ranges meet on the coarse
/// axis: nothing else, all of them, and each once, in one of its two
/// orders.
pub open spec fn is_pairing(colliders: Seq<Collider>, pairs: Seq<(usize, usize)>) -> bool {
    &&& forall|k: int|
        0 <= k < pairs.len() ==> {
            &&& (#[trigger] pairs[k]).0 < colliders.len()
            &&& pairs[k].1 < colliders.len()
            &&& pairs[k].0 != pairs[k].1
            &&& colliders[pairs[k].0 as int].may_meet_on_x(colliders[pairs[k].1 as int])
        }
    &&& forall|p: int, q: int|
        0 <= p < q < colliders.len() && #[trigger] colliders[p].may_meet_on_x(colliders[q])
            ==> exists|k: int| 0 <= k < pairs.len() && joins(#[trigger] pairs[k], p, q)
    &&& forall|k: int, l: int|
        0 <= k < l < pairs.len() ==> !joins(#[trigger] pairs[k], (#[trigger] pairs[l]).0 as int, pairs[l].1 as int)
}

/// `slice::sort_by_key`, with the start of a span as the key: the spans
/// are rearranged so that their starts ascend.
#[verifier::external_body]
fn sort_spans(spans: &mut Vec<Span>)
    ensures
        final(spans)@.to_multiset() == old(spans)@.to_multiset(),
        forall|i: int, j: int|
            0 <= i <= j < final(spans)@.len() ==> (#[trigger] final(spans)@[i]).start <= (
            #[trigger] final(spans)@[j]).start,
{
    spans.sort_by_key(|span| span.start);
}

/// Some span of `spans` has the index `index`.
pub open spec fn has_index(spans: Seq<Span>, index: int) -> bool {
    exists|a: int| 0 <= a < spans.len() && (#[trigger] spans[a]).index == index
}

/// What a rearrangement keeps of a list of spans in which span number `k`
/// has the index `k`.
proof fn lemma_rearranged_spans(unsorted: Seq<Span>, sorted: Seq<Span>)
    requires
        unsorted.to_multiset() == sorted.to_multiset(),
        forall|k: int| 0 <= k < unsorted.len() ==> (#[trigger] unsorted[k]).index == k,
    ensures
        sorted.len() == unsorted.len(),
        forall|a: int|
            0 <= a < sorted.len() ==> 0 <= (#[trigger] sorted[a]).index < unsorted.len()
                && sorted[a] == unsorted[sorted[a].index as int],
        forall|a: int, b: int|
            0 <= a < b < sorted.len() ==> (#[trigger] sorted[a]).index != (#[trigger] sorted[b]).index,
        forall|k: int| 0 <= k < unsorted.len() ==> #[trigger] has_index(sorted, k),
{
    broadcast use vstd::seq_lib::group_to_multiset_ensures;

    unsorted.to_multiset_ensures();
    sorted.to_multiset_ensures();
    assert(sorted.len() == unsorted.len());
    assert forall|a: int| 0 <= a < sorted.len() implies 0 <= (#[trigger] sorted[a]).index
        < unsorted.len() && sorted[a] == unsorted[sorted[a].index as int] by {
        assert(sorted.contains(sorted[a]));
        assert(sorted.to_multiset().count(sorted[a]) > 0);
        assert(unsorted.contains(sorted[a]));
        let k = choose|k: int| 0 <= k < unsorted.len() && unsorted[k] == sorted[a];
        assert(unsorted[k].index == k);
    }
    assert(unsorted.no_duplicates()) by {
        assert forall|i: int, j: int|
            0 <= i < unsorted.len() && 0 <= j < unsorted.len() && i != j implies unsorted[i]
            != unsorted[j] by {
            assert(unsorted[i].index == i);
            assert(unsorted[j].index == j);
        }
    }
    unsorted.lemma_multiset_has_no_duplicates();
    sorted.lemma_multiset_has_no_duplicates_conv();
    assert forall|a: int, b: int| 0 <= a < b < sorted.len() implies (#[trigger] sorted[a]).index
        != (#[trigger] sorted[b]).index by {
        if sorted[a].index == sorted[b].index {
            assert(sorted[a] == unsorted[sorted[a].index as int]);
            assert(sorted[b] == unsorted[sorted[b].index as int]);
            assert(sorted[a] == sorted[b]);
        }
    }
    assert forall|k: int| 0 <= k < unsorted.len() implies #[trigger] has_index(sorted, k) by {
        assert(unsorted.contains(unsorted[k]));
        assert(unsorted.to_multiset().count(unsorted[k]) > 0);
        assert(sorted.contains(unsorted[k]));
        let a = choose|a: int| 0 <= a < sorted.len() && sorted[a] == unsorted[k];
        assert(sorted[a].index == k);
    }
}

/// The pair of places `(a, b)` comes before the place that a sweep has
/// reached when it compares span `i` with span `j`.
pub open spec fn comes_before(a: int, b: int, i: int, j: int) -> bool {
    a < i || (a == i && b < j)
}

/// The pair of places `(a, b)` is among `hits`.
pub open spec fn is_hit(hits: Seq<(int, int)>, a: int, b: int) -> bool {
    exists|k: int| 0 <= k < hits.len() && #[trigger] hits[k] == (a, b)
}

/// The state of a sweep over spans with ascending starts that has
/// compared every pair of places before `(i, j)`: `hits` holds the pairs of
/// places whose spans meet, each once, and `pairs` the indices found at
/// those places.
pub open spec fn swept_to(
    spans: Seq<Span>,
    pairs: Seq<(usize, usize)>,
    hits: Seq<(int, int)>,
    i: int,
    j: int,
) -> bool {
    &&& hits.len() == pairs.len()
    &&& forall|k: int|
        0 <= k < hits.len() ==> {
            &&& 0 <= (#[trigger] hits[k]).0 < hits[k].1 < spans.len()
            &&& comes_before(hits[k].0, hits[k].1, i, j)
            &&& spans[hits[k].1].start <= spans[hits[k].0].end
            &&& pairs[k] == (spans[hits[k].0].index, spans[hits[k].1].index)
        }
    &&& forall|k: int, l: int|
        0 <= k < l < hits.len() ==> (#[trigger] hits[k]) != (#[trigger] hits[l])
    &&& forall|a: int, b: int|
        0 <= a < b < spans.len() && comes_before(a, b, i, j) && spans[b].start <= spans[a].end
            ==> #[trigger] is_hit(hits, a, b)
}

/// Walks spans whose starts ascend and reports, for each span, the later
/// spans that start before it ends. The walk leaves a span at the first
/// later one that starts after its end: none behind that one can meet it.
fn sweep(spans: &Vec<Span>) -> (found: (Vec<(usize, usize)>, Ghost<Seq<(int, int)>>))
    requires
        forall|i: int, j: int|
            0 <= i <= j < spans@.len() ==> (#[trigger] spans@[i]).start <= (#[trigger] spans@[j]).start,
    ensures
        swept_to(spans@, found.0@, found.1@, spans@.len() as int, 0),
{
    let n = spans.len();
    let mut pairs: Vec<(usize, usize)> = Vec::new();
    let ghost mut hits: Seq<(int, int)> = Seq::empty();
    let mut i: usize = 0;
    while i < n
        invariant
            n == spans@.len(),
            i <= n,
            forall|i: int, j: int|
                0 <= i <= j < spans@.len() ==> (#[trigger] spans@[i]).start <= (
                #[trigger] spans@[j]).start,
            swept_to(spans@, pairs@, hits, i as int, 0),
        decreases n - i,
    {
        let mut j: usize = i + 1;
        while j < n && spans[j].start <= spans[i].end
            invariant
                n == spans@.len(),
                i < n,
                i < j <= n,
                swept_to(spans@, pairs@, hits, i as int, j as int),
            decreases n - j,
        {
            let ghost before = hits;
            pairs.push((spans[i].index, spans[j].index));
            proof {
                hits = hits.push((i as int, j as int));
                assert forall|a: int, b: int|
                    0 <= a < b < spans@.len() && comes_before(a, b, i as int, j as int + 1)
                        && spans@[b].start <= spans@[a].end implies #[trigger] is_hit(
                    hits,
                    a,
                    b,
                ) by {
                    if a == i && b == j {
                        assert(hits[before.len() as int] == (a, b));
                    } else {
                        assert(is_hit(before, a, b));
                        let k = choose|k: int| 0 <= k < before.len() && before[k] == (a, b);
                        assert(hits[k] == (a, b));
                    }
                }
            }
            j = j + 1;
        }
        proof {
            assert forall|a: int, b: int|
                0 <= a < b < spans@.len() && comes_before(a, b, i as int + 1, 0) && spans@[b].start
                    <= spans@[a].end implies #[trigger] is_hit(hits, a, b) by {
                if a == i && b >= j {
                    assert(spans@[j as int].start <= spans@[b].start);
                }
            }
        }
        i = i + 1;
    }
    (pairs, Ghost(hits))
}

/// The broad phase: proposes pairs of colliders by a sweep along the x
/// axis. A pair is given by the places of its two colliders in
/// `colliders`. The sweep runs on a coarse axis, on which every two boxes
/// whose x ranges meet also meet: it proposes each of them, once.
pub fn broad_phase(colliders: &Vec<Collider>) -> (pairs: Vec<(usize, usize)>)
    ensures
        is_pairing(colliders@, pairs@),
{
    let mut spans: Vec<Span> = Vec::new();
    let mut k: usize = 0;
    while k < colliders.len()
        invariant
            k <= colliders@.len(),
            spans@.len() == k,
            forall|i: int|
                0 <= i < k ==> {
                    &&& (#[trigger] spans@[i]).start == colliders@[i].coarse_left()
                    &&& spans@[i].end == colliders@[i].coarse_right()
                    &&& spans@[i].index == i
                },
        decreases colliders@.len() - k,
    {
        let span = coarse_span(&colliders[k], k);
        spans.push(span);
        k = k + 1;
    }
    let ghost unsorted = spans@;
    sort_spans(&mut spans);
    let found = sweep(&spans);
    let pairs = found.0;
    proof {
        let sorted = spans@;
        let hits = found.1@;
        lemma_rearranged_spans(unsorted, sorted);
        assert forall|a: int| 0 <= a < sorted.len() implies {
            &&& (#[trigger] sorted[a]).start == colliders@[sorted[a].index as int].coarse_left()
            &&& sorted[a].end == colliders@[sorted[a].index as int].coarse_right()
            &&& sorted[a].start <= sorted[a].end
        } by {
            assert(sorted[a] == unsorted[sorted[a].index as int]);
        }
        assert forall|k: int| 0 <= k < pairs@.len() implies {
            &&& (#[trigger] pairs@[k]).0 < colliders@.len()
            &&& pairs@[k].1 < colliders@.len()
            &&& pairs@[k].0 != pairs@[k].1
            &&& colliders@[pairs@[k].0 as int].may_meet_on_x(colliders@[pairs@[k].1 as int])
        } by {
            let a = hits[k].0;
            let b = hits[k].1;
            assert(sorted[a].start <= sorted[b].start);
            assert(sorted[b].start <= sorted[b].end);
        }
        assert forall|p: int, q: int|
            0 <= p < q < colliders@.len() && #[trigger] colliders@[p].may_meet_on_x(
                colliders@[q],
            ) implies exists|k: int| 0 <= k < pairs@.len() && joins(#[trigger] pairs@[k], p, q) by {
            assert(has_index(sorted, p));
            assert(has_index(sorted, q));
            let a = choose|a: int| 0 <= a < sorted.len() && (#[trigger] sorted[a]).index == p;
            let b = choose|b: int| 0 <= b < sorted.len() && (#[trigger] sorted[b]).index == q;
            if a < b {
                assert(is_hit(hits, a, b));
                let k = choose|k: int| 0 <= k < hits.len() && #[trigger] hits[k] == (a, b);
                assert(joins(pairs@[k], p, q));
            } else {
                assert(is_hit(hits, b, a));
                let k = choose|k: int| 0 <= k < hits.len() && #[trigger] hits[k] == (b, a);
                assert(joins(pairs@[k], p, q));
            }
        }
        assert forall|k: int, l: int| 0 <= k < l < pairs@.len() implies !joins(
            #[trigger] pairs@[k],
            (#[trigger] pairs@[l]).0 as int,
            pairs@[l].1 as int,
        ) by {
            assert(hits[k] != hits[l]);
        }
    }
    pairs
}

/// How many heights of the visible area an entity may drift from the x
/// axis before it is removed.
pub const BOUNDS_FACTOR: u64 = 10;

/// The position lies ten heights or more above or below the x axis. A
/// position whose y is a NaN is nowhere, and so not out of bounds.
pub open spec fn out_of_bounds(position: PositionComponent, height: u32) -> bool {
    position.value.y.spec_magnitude_at_least((BOUNDS_FACTOR * height) as nat)
}

#[verifier::when_used_as_spec(out_of_bounds)]
pub fn is_out_of_bounds(position: PositionComponent, height: u32) -> (out: bool)
    ensures
        out == out_of_bounds(position, height),
{
    position.value.y.magnitude_at_least(BOUNDS_FACTOR * (height as u64))
}

/// The entities of `contents` that cleanup removes: those with a position
/// that is out of bounds.
pub open spec fn doomed(contents: Map<u64, Components>, height: u32) -> Set<u64> {
    Set::new(
        |id: u64|
            contents.contains_key(id) && contents[id].position.is_some() && out_of_bounds(
                contents[id].position.unwrap(),
                height,
            ),
    )
}

/// What a system looks for in an entity.
#[derive(Debug, Clone, Copy)]
pub enum Role {
    /// A position, a velocity, an acceleration and a mass.
    Mover,
    /// A position, a size, a mass and a collision kind.
    Collider,
    /// A colour and a position.
    Drawn,
    /// A position out of the bounds of a visible area of this height.
    Stray { height: u32 },
}

impl Role {
    /// An entity with the attributes `held` is one of those looked for.
    pub open spec fn fits(self, held: Components) -> bool {
        match self {
            Role::Mover => held.moves(),
            Role::Collider => held.collides(),
            Role::Drawn => held.renders(),
            Role::Stray { height } => held.position.is_some() && out_of_bounds(
                held.position.unwrap(),
                height,
            ),
        }
    }

    #[verifier::when_used_as_spec(fits)]
    pub fn check(self, held: Components) -> (fit: bool)
        ensures
            fit == self.fits(held),
    {
        match self {
            Role::Mover => held.position.is_some() && held.velocity.is_some()
                && held.acceleration.is_some() && held.mass.is_some(),
            Role::Collider => held.position.is_some() && held.size.is_some()
                && held.mass.is_some() && held.collision.is_some(),
            Role::Drawn => held.render.is_some() && held.position.is_some(),
            Role::Stray { height } => match held.position {
                Some(position) => is_out_of_bounds(position, height),
                None => false,
            },
        }
    }
}

/// Some row of `rows` is that of the entity `id`.
pub open spec fn has_row(rows: Seq<(u64, Components)>, id: u64) -> bool {
    exists|i: int| 0 <= i < rows.len() && (#[trigger] rows[i]).0 == id
}

/// `rows` holds one row for each entity of `contents` that fits `role`,
/// with its attributes, and nothing else.
pub open spec fn is_selection(
    contents: Map<u64, Components>,
    rows: Seq<(u64, Components)>,
    role: Role,
) -> bool {
    &&& forall|i: int|
        0 <= i < rows.len() ==> contents.contains_pair((#[trigger] rows[i]).0, rows[i].1)
            && role.fits(rows[i].1)
    &&& forall|i: int, j: int|
        0 <= i < j < rows.len() ==> (#[trigger] rows[i]).0 != (#[trigger] rows[j]).0
    &&& forall|id: u64|
        contents.contains_key(id) && role.fits(contents[id]) ==> #[trigger] has_row(rows, id)
}

/// The handles of the rows, in their order.
pub open spec fn row_ids(rows: Seq<(u64, Components)>) -> Seq<u64> {
    Seq::new(rows.len(), |i: int| rows[i].0)
}

/// The entities of `contents` that fit `role`.
pub open spec fn fitting(contents: Map<u64, Components>, role: Role) -> Set<u64> {
    Set::new(|id: u64| contents.contains_key(id) && role.fits(contents[id]))
}

/// The handles of a selection are those of the entities that fit, each
/// once.
pub proof fn lemma_selected_ids(
    contents: Map<u64, Components>,
    rows: Seq<(u64, Components)>,
    role: Role,
)
    requires
        is_selection(contents, rows, role),
    ensures
        row_ids(rows).no_duplicates(),
        row_ids(rows).to_set() == fitting(contents, role),
{
    let ids = row_ids(rows);
    assert forall|id: u64| ids.to_set().contains(id) == fitting(contents, role).contains(id) by {
        if ids.contains(id) {
            let i = choose|i: int| 0 <= i < ids.len() && ids[i] == id;
            assert(contents.contains_pair(rows[i].0, rows[i].1));
        }
        if fitting(contents, role).contains(id) {
            assert(has_row(rows, id));
            let i = choose|i: int| 0 <= i < rows.len() && (#[trigger] rows[i]).0 == id;
            assert(ids[i] == id);
        }
    }
    assert(ids.to_set() =~= fitting(contents, role));
}

/// Lists the entities of the world that fit `role`, each with its
/// attributes, in no stated order. The world stays as it is.
pub fn select(world: &mut World, role: Role) -> (rows: Vec<(u64, Components)>)
    ensures
        world_contents(*final(world)) == world_contents(*old(world)),
        is_selection(world_contents(*old(world)), rows@, role),
{
    let all = world_rows(world);
    let ghost contents = world_contents(*world);
    let mut rows: Vec<(u64, Components)> = Vec::new();
    let mut r: usize = 0;
    while r < all.len()
        invariant
            r <= all@.len(),
            is_listing(all@, contents),
            forall|i: int|
                0 <= i < rows@.len() ==> {
                    &&& contents.contains_pair((#[trigger] rows@[i]).0, rows@[i].1)
                    &&& role.fits(rows@[i].1)
                    &&& exists|t: int| 0 <= t < r && (#[trigger] all@[t]).0 == rows@[i].0
                },
            forall|i: int, j: int|
                0 <= i < j < rows@.len() ==> (#[trigger] rows@[i]).0 != (#[trigger] rows@[j]).0,
            forall|t: int|
                0 <= t < r && role.fits((#[trigger] all@[t]).1) ==> has_row(rows@, all@[t].0),
        decreases all@.len() - r,
    {
        let ghost before = rows@;
        if role.check(all[r].1) {
            rows.push(all[r]);
            proof {
                assert(contents.contains_pair(all@[r as int].0, all@[r as int].1));
                assert(rows@[before.len() as int] == all@[r as int]);
                assert forall|i: int| 0 <= i < before.len() implies (#[trigger] rows@[i]).0
                    != all@[r as int].0 by {
                    let t = choose|t: int| 0 <= t < r && (#[trigger] all@[t]).0 == before[i].0;
                    assert(all@[t].0 != all@[r as int].0);
                }
                assert forall|t: int|
                    0 <= t < r + 1 && role.fits((#[trigger] all@[t]).1) implies has_row(
                    rows@,
                    all@[t].0,
                ) by {
                    if t < r {
                        assert(has_row(before, all@[t].0));
                        let i = choose|i: int|
                            0 <= i < before.len() && (#[trigger] before[i]).0 == all@[t].0;
                        assert(rows@[i].0 == all@[t].0);
                    } else {
                        assert(rows@[before.len() as int].0 == all@[t].0);
                    }
                }
            }
        }
        r = r + 1;
    }
    proof {
        assert forall|id: u64|
            contents.contains_key(id) && role.fits(contents[id]) implies #[trigger] has_row(
            rows@,
            id,
        ) by {
            assert(contents[id] != Components::none());
            let t = choose|t: int| 0 <= t < all@.len() && (#[trigger] all@[t]).0 == id;
            assert(contents.contains_pair(all@[t].0, all@[t].1));
        }
    }
    rows
}

/// The collider that stands for the entity `id` with the attributes
/// `held`.
pub open spec fn collider_of(id: u64, held: Components) -> Collider {
    Collider { id, position: held.position.unwrap(), size: held.size.unwrap() }
}

/// Some collider of `colliders` stands for the entity `id`.
pub open spec fn has_collider(colliders: Seq<Collider>, id: u64) -> bool {
    exists|i: int| 0 <= i < colliders.len() && (#[trigger] colliders[i]).id == id
}

/// `colliders` holds one collider for each entity of `contents` that takes
/// part in collisions, and nothing else.
pub open spec fn is_collider_list(contents: Map<u64, Components>, colliders: Seq<Collider>) -> bool {
    &&& forall|i: int|
        0 <= i < colliders.len() ==> {
            &&& contents.contains_key((#[trigger] colliders[i]).id)
            &&& contents[colliders[i].id].collides()
            &&& colliders[i] == collider_of(colliders[i].id, contents[colliders[i].id])
        }
    &&& forall|i: int, j: int|
        0 <= i < j < colliders.len() ==> (#[trigger] colliders[i]).id != (#[trigger] colliders[j]).id
    &&& forall|id: u64|
        contents.contains_key(id) && contents[id].collides() ==> #[trigger] has_collider(
            colliders,
            id,
        )
}

/// Lists the entities of the world that take part in collisions: those
/// with a position, a size, a mass and a collision kind.
pub fn colliders(world: &mut World) -> (list: Vec<Collider>)
    ensures
        world_contents(*final(world)) == world_contents(*old(world)),
        is_collider_list(world_contents(*old(world)), list@),
{
    let rows = select(world, Role::Collider);
    let ghost contents = world_contents(*world);
    let mut list: Vec<Collider> = Vec::new();
    let mut k: usize = 0;
    while k < rows.len()
        invariant
            k <= rows@.len(),
            list@.len() == k,
            is_selection(contents, rows@, Role::Collider),
            forall|i: int|
                0 <= i < k ==> #[trigger] list@[i] == collider_of(rows@[i].0, rows@[i].1),
        decreases rows@.len() - k,
    {
        let held = rows[k].1;
        assert(Role::Collider.fits(rows@[k as int].1));
        list.push(
            Collider { id: rows[k].0, position: held.position.unwrap(), size: held.size.unwrap() },
        );
        k = k + 1;
    }
    proof {
        assert forall|i: int| 0 <= i < list@.len() implies {
            &&& contents.contains_key((#[trigger] list@[i]).id)
            &&& contents[list@[i].id].collides()
            &&& list@[i] == collider_of(list@[i].id, contents[list@[i].id])
        } by {
            assert(contents.contains_pair(rows@[i].0, rows@[i].1));
        }
        assert forall|i: int, j: int| 0 <= i < j < list@.len() implies (#[trigger] list@[i]).id
            != (#[trigger] list@[j]).id by {
            assert(rows@[i].0 != rows@[j].0);
        }
        assert forall|id: u64|
            contents.contains_key(id) && contents[id].collides() implies #[trigger] has_collider(
            list@,
            id,
        ) by {
            assert(has_row(rows@, id));
            let i = choose|i: int| 0 <= i < rows@.len() && (#[trigger] rows@[i]).0 == id;
            assert(list@[i].id == id);
        }
    }
    list
}

/// Two entities whose boxes meet.
#[derive(Debug, Clone, Copy, PartialEq, Eq, Structural)]
pub struct Contact {
    pub first: u64,
    pub second: u64,
}

/// The entities `a` and `b` of `contents` are two, both take part in
/// collisions, and their boxes meet.
pub open spec fn in_contact(contents: Map<u64, Components>, a: u64, b: u64) -> bool {
    &&& a != b
    &&& contents.contains_key(a)
    &&& contents[a].collides()
    &&& contents.contains_key(b)
    &&& contents[b].collides()
    &&& collider_of(a, contents[a]).meets(collider_of(b, contents[b]))
}

/// `contact` is between `a` and `b`, in either order.
pub open spec fn links(contact: Contact, a: u64, b: u64) -> bool {
    (contact.first == a && contact.second == b) || (contact.first == b && contact.second == a)
}

/// `contacts` holds the pairs of entities of `contents` that are in
/// contact: nothing else, all of them, and each once, in one of its two
/// orders.
pub open spec fn is_contact_list(contents: Map<u64, Components>, contacts: Seq<Contact>) -> bool {
    &&& forall|k: int|
        0 <= k < contacts.len() ==> in_contact(
            contents,
            (#[trigger] contacts[k]).first,
            contacts[k].second,
        )
    &&& forall|a: u64, b: u64| #[trigger]
        in_contact(contents, a, b) ==> exists|k: int|
            0 <= k < contacts.len() && links(#[trigger] contacts[k], a, b)
    &&& forall|k: int, l: int|
        0 <= k < l < contacts.len() ==> !links(
            #[trigger] contacts[k],
            (#[trigger] contacts[l]).first,
            contacts[l].second,
        )
}

/// The pair at place `m` of `pairs` is among `picks`.
pub open spec fn is_pick(picks: Seq<int>, m: int) -> bool {
    exists|k: int| 0 <= k < picks.len() && #[trigger] picks[k] == m
}

/// The state of the narrow phase that has tested the first `upto` pairs:
/// `picks` holds the places of the pairs whose boxes meet, in ascending
/// order, and `contacts` the entities of those pairs.
pub open spec fn narrowed_to(
    colliders: Seq<Collider>,
    pairs: Seq<(usize, usize)>,
    contacts: Seq<Contact>,
    picks: Seq<int>,
    upto: int,
) -> bool {
    &&& picks.len() == contacts.len()
    &&& forall|k: int|
        0 <= k < picks.len() ==> {
            &&& 0 <= (#[trigger] picks[k]) < upto
            &&& colliders[pairs[picks[k]].0 as int].meets(colliders[pairs[picks[k]].1 as int])
            &&& contacts[k] == Contact {
                first: colliders[pairs[picks[k]].0 as int].id,
                second: colliders[pairs[picks[k]].1 as int].id,
            }
        }
    &&& forall|k: int, l: int|
        0 <= k < l < picks.len() ==> (#[trigger] picks[k]) < (#[trigger] picks[l])
    &&& forall|m: int|
        0 <= m < upto && colliders[pairs[m].0 as int].meets(colliders[pairs[m].1 as int])
            ==> #[trigger] is_pick(picks, m)
}

/// The narrow phase: keeps of the candidate pairs those whose boxes meet.
fn narrow_phase(colliders: &Vec<Collider>, pairs: &Vec<(usize, usize)>) -> (found: (
    Vec<Contact>,
    Ghost<Seq<int>>,
))
    requires
        forall|k: int|
            0 <= k < pairs@.len() ==> (#[trigger] pairs@[k]).0 < colliders@.len() && pairs@[k].1
                < colliders@.len(),
    ensures
        narrowed_to(colliders@, pairs@, found.0@, found.1@, pairs@.len() as int),
{
    let mut contacts: Vec<Contact> = Vec::new();
    let ghost mut picks: Seq<int> = Seq::empty();
    let mut m: usize = 0;
    while m < pairs.len()
        invariant
            m <= pairs@.len(),
            forall|k: int|
                0 <= k < pairs@.len() ==> (#[trigger] pairs@[k]).0 < colliders@.len()
                    && pairs@[k].1 < colliders@.len(),
            narrowed_to(colliders@, pairs@, contacts@, picks, m as int),
        decreases pairs@.len() - m,
    {
        let p: usize = pairs[m].0;
        let q: usize = pairs[m].1;
        let ghost before = picks;
        let hit = check_collision(
            (&colliders[p].position, &colliders[p].size),
            (&colliders[q].position, &colliders[q].size),
        );
        if hit {
            contacts.push(Contact { first: colliders[p].id, second: colliders[q].id });
            proof {
                picks = picks.push(m as int);
            }
        }
        proof {
            assert forall|t: int|
                0 <= t < m + 1 && colliders@[pairs@[t].0 as int].meets(
                    colliders@[pairs@[t].1 as int],
                ) implies #[trigger] is_pick(picks, t) by {
                if t < m {
                    assert(is_pick(before, t));
                    let k = choose|k: int| 0 <= k < before.len() && #[trigger] before[k] == t;
                    assert(picks[k] == t);
                } else {
                    assert(picks[before.len() as int] == t);
                }
            }
        }
        m = m + 1;
    }
    (contacts, Ghost(picks))
}

/// The collision system: finds the pairs of entities whose boxes meet.
/// A sweep along the x axis proposes pairs, among them every pair whose x
/// ranges meet, and the exact test of the two boxes decides on each. The world stays as it is:
/// what a contact does to the velocities of its two entities is left to the
/// caller. The bounds of the visible area play no part.
pub fn collision_system(world: &mut World, width: u32, height: u32) -> (contacts: Vec<Contact>)
    ensures
        world_contents(*final(world)) == world_contents(*old(world)),
        is_contact_list(world_contents(*old(world)), contacts@),
{
    let list = colliders(world);
    let pairs = broad_phase(&list);
    let found = narrow_phase(&list, &pairs);
    let contacts = found.0;
    proof {
        let contents = world_contents(*world);
        let picks = found.1@;
        assert forall|k: int| 0 <= k < contacts@.len() implies in_contact(
            contents,
            (#[trigger] contacts@[k]).first,
            contacts@[k].second,
        ) by {
            let m = picks[k];
            let p = pairs@[m].0 as int;
            let q = pairs@[m].1 as int;
            assert(list@[p].id != list@[q].id);
        }
        assert forall|a: u64, b: u64| #[trigger] in_contact(contents, a, b) implies exists|k: int|
            0 <= k < contacts@.len() && links(#[trigger] contacts@[k], a, b) by {
            assert(has_collider(list@, a));
            assert(has_collider(list@, b));
            let i = choose|i: int| 0 <= i < list@.len() && (#[trigger] list@[i]).id == a;
            let j = choose|j: int| 0 <= j < list@.len() && (#[trigger] list@[j]).id == b;
            assert(list@[i].meets(list@[j]));
            assert(list@[j].meets(list@[i]));
            let (lo, hi) = if i < j {
                (i, j)
            } else {
                (j, i)
            };
            lemma_coarse_axis_keeps_every_meeting(list@[lo], list@[hi]);
            assert(list@[lo].may_meet_on_x(list@[hi]));
            let m = choose|m: int| 0 <= m < pairs@.len() && joins(#[trigger] pairs@[m], lo, hi);
            assert(is_pick(picks, m));
            let k = choose|k: int| 0 <= k < picks.len() && #[trigger] picks[k] == m;
            assert(links(contacts@[k], a, b));
        }
        assert forall|k: int, l: int| 0 <= k < l < contacts@.len() implies !links(
            #[trigger] contacts@[k],
            (#[trigger] contacts@[l]).first,
            contacts@[l].second,
        ) by {
            let m = picks[k];
            let n = picks[l];
            assert(m < n);
            assert(!joins(pairs@[m], pairs@[n].0 as int, pairs@[n].1 as int));
        }
    }
    contacts
}

/// The cleanup system: removes every entity whose position has drifted
/// ten heights of the visible area, or more, above or below the x axis,
/// with all its attributes, and returns the handles of the entities it
/// removed. The width of the area plays no part.
pub fn cleanup_system(world: &mut World, width: u32, height: u32) -> (removed: Vec<u64>)
    ensures
        world_contents(*final(world)) == world_contents(*old(world)).remove_keys(
            doomed(world_contents(*old(world)), height),
        ),
        removed@.no_duplicates(),
        removed@.to_set() == doomed(world_contents(*old(world)), height),
        world_contents(*old(world)).dom().finite() ==> world_contents(*final(world)).dom().finite()
            && world_contents(*final(world)).dom().len() + removed@.len() == world_contents(
            *old(world),
        ).dom().len(),
{
    let ghost contents = world_contents(*world);
    let rows = select(world, Role::Stray { height });
    let mut to_remove: Vec<u64> = Vec::new();
    let mut r: usize = 0;
    while r < rows.len()
        invariant
            r <= rows@.len(),
            to_remove@ == row_ids(rows@).take(r as int),
        decreases rows@.len() - r,
    {
        to_remove.push(rows[r].0);
        proof {
            assert(to_remove@ =~= row_ids(rows@).take(r as int + 1));
        }
        r = r + 1;
    }
    proof {
        assert(row_ids(rows@).take(rows@.len() as int) =~= row_ids(rows@));
        lemma_selected_ids(contents, rows@, Role::Stray { height });
        assert(fitting(contents, Role::Stray { height }) =~= doomed(contents, height));
    }
    let mut k: usize = 0;
    while k < to_remove.len()
        invariant
            k <= to_remove@.len(),
            to_remove@.no_duplicates(),
            to_remove@.to_set() == doomed(contents, height),
            world_contents(*world) == contents.remove_keys(to_remove@.take(k as int).to_set()),
            contents.dom().finite() ==> world_contents(*world).dom().finite() && world_contents(
                *world,
            ).dom().len() + k == contents.dom().len(),
        decreases to_remove@.len() - k,
    {
        let ghost gone = to_remove@.take(k as int).to_set();
        let ghost held = world_contents(*world);
        world_despawn(world, to_remove[k]);
        proof {
            assert(held.contains_key(to_remove@[k as int])) by {
                assert(to_remove@.contains(to_remove@[k as int]));
                assert(doomed(contents, height).contains(to_remove@[k as int]));
                if gone.contains(to_remove@[k as int]) {
                    let i = choose|i: int|
                        0 <= i < k && to_remove@.take(k as int)[i] == to_remove@[k as int];
                    assert(to_remove@[i] == to_remove@[k as int]);
                }
            }
            assert(held.remove(to_remove@[k as int]).dom() =~= held.dom().remove(
                to_remove@[k as int],
            ));
            let next = to_remove@.take(k as int + 1);
            assert(next =~= to_remove@.take(k as int).push(to_remove@[k as int]));
            assert(next.to_set() =~= gone.insert(to_remove@[k as int])) by {
                assert forall|x: u64| next.to_set().contains(x) == gone.insert(
                    to_remove@[k as int],
                ).contains(x) by {
                    if next.contains(x) {
                        let i = choose|i: int| 0 <= i < next.len() && next[i] == x;
                        if i < k {
                            assert(to_remove@.take(k as int)[i] == x);
                        }
                    }
                    if gone.contains(x) {
                        let i = choose|i: int|
                            0 <= i < k && to_remove@.take(k as int)[i] == x;
                        assert(next[i] == x);
                    }
                    if x == to_remove@[k as int] {
                        assert(next[k as int] == x);
                    }
                }
            }
            assert(contents.remove_keys(gone).remove(to_remove@[k as int])
                =~= contents.remove_keys(next.to_set()));
        }
        k = k + 1;
    }
    proof {
        assert(to_remove@.take(to_remove@.len() as int) =~= to_remove@);
    }
    to_remove
}

/// The width of the rectangle that stands for an entity on the screen.
pub const DRAW_WIDTH: u32 = 50;

/// The height of the rectangle that stands for an entity on the screen.
pub const DRAW_HEIGHT: u32 = 50;

/// One rectangle to draw: set the draw colour to `color`, then draw the
/// outline of a rectangle of `width` by `height` around the centre.
/// Every entity is drawn at the same size, whatever its own size is.
#[derive(Debug, Clone, Copy, PartialEq, Eq, Structural)]
pub struct DrawCommand {
    pub color: Color,
    pub center_x: i32,
    pub center_y: i32,
    pub width: u32,
    pub height: u32,
}

/// The rectangle that stands for an entity with the attributes `held`.
pub open spec fn draw_command_of(held: Components) -> DrawCommand {
    DrawCommand {
        color: held.render.unwrap().color,
        center_x: held.position.unwrap().value.x.spec_truncate() as i32,
        center_y: held.position.unwrap().value.y.spec_truncate() as i32,
        width: DRAW_WIDTH,
        height: DRAW_HEIGHT,
    }
}

/// `commands` holds one rectangle for each entity of `contents` that is
/// drawn, and nothing else: command number `k` is that of entity `ids[k]`.
pub open spec fn is_draw_list(
    contents: Map<u64, Components>,
    ids: Seq<u64>,
    commands: Seq<DrawCommand>,
) -> bool {
    &&& ids.len() == commands.len()
    &&& ids.no_duplicates()
    &&& forall|k: int|
        0 <= k < ids.len() ==> {
            &&& contents.contains_key(#[trigger] ids[k])
            &&& contents[ids[k]].renders()
            &&& commands[k] == draw_command_of(contents[ids[k]])
        }
    &&& forall|id: u64|
        #[trigger] contents.contains_key(id) && contents[id].renders() ==> ids.contains(id)
}

/// The render system: lists what to draw, one rectangle for each entity
/// with a colour and a position. The world stays as it is.
pub fn render_system(world: &mut World) -> (commands: Vec<DrawCommand>)
    ensures
        world_contents(*final(world)) == world_contents(*old(world)),
        exists|ids: Seq<u64>| is_draw_list(world_contents(*old(world)), ids, commands@),
{
    let ghost contents = world_contents(*world);
    let rows = select(world, Role::Drawn);
    let mut commands: Vec<DrawCommand> = Vec::new();
    let mut k: usize = 0;
    while k < rows.len()
        invariant
            k <= rows@.len(),
            commands@.len() == k,
            is_selection(contents, rows@, Role::Drawn),
            forall|i: int| 0 <= i < k ==> #[trigger] commands@[i] == draw_command_of(rows@[i].1),
        decreases rows@.len() - k,
    {
        let held = rows[k].1;
        assert(Role::Drawn.fits(rows@[k as int].1));
        let position = held.position.unwrap();
        commands.push(
            DrawCommand {
                color: held.render.unwrap().color,
                center_x: position.value.x.truncate(),
                center_y: position.value.y.truncate(),
                width: DRAW_WIDTH,
                height: DRAW_HEIGHT,
            },
        );
        k = k + 1;
    }
    proof {
        let ids = row_ids(rows@);
        lemma_selected_ids(contents, rows@, Role::Drawn);
        assert forall|k: int| 0 <= k < ids.len() implies {
            &&& contents.contains_key(#[trigger] ids[k])
            &&& contents[ids[k]].renders()
            &&& commands@[k] == draw_command_of(contents[ids[k]])
        } by {
            assert(contents.contains_pair(rows@[k].0, rows@[k].1));
        }
        assert forall|id: u64| #[trigger]
            contents.contains_key(id) && contents[id].renders() implies ids.contains(id) by {
            assert(fitting(contents, Role::Drawn).contains(id));
            assert(ids.to_set().contains(id));
        }
        assert(is_draw_list(contents, ids, commands@));
    }
    commands
}

/// An entity as the motion step sees it.
#[derive(Debug, Clone, Copy)]
pub struct Mover {
    pub id: u64,
    pub position: PositionComponent,
    pub velocity: VelocityComponent,
    pub acceleration: AccelerationComponent,
    pub mass: MassComponent,
}

/// The mover that stands for the entity `id` with the attributes `held`.
pub open spec fn mover_of(id: u64, held: Components) -> Mover {
    Mover {
        id,
        position: held.position.unwrap(),
        velocity: held.velocity.unwrap(),
        acceleration: held.acceleration.unwrap(),
        mass: held.mass.unwrap(),
    }
}

/// Some mover of `movers` stands for the entity `id`.
pub open spec fn has_mover(movers: Seq<Mover>, id: u64) -> bool {
    exists|i: int| 0 <= i < movers.len() && (#[trigger] movers[i]).id == id
}

/// `movers` holds one mover for each entity of `contents` that moves, and
/// nothing else.
pub open spec fn is_mover_list(contents: Map<u64, Components>, movers: Seq<Mover>) -> bool {
    &&& forall|i: int|
        0 <= i < movers.len() ==> {
            &&& contents.contains_key((#[trigger] movers[i]).id)
            &&& contents[movers[i].id].moves()
            &&& movers[i] == mover_of(movers[i].id, contents[movers[i].id])
        }
    &&& forall|i: int, j: int|
        0 <= i < j < movers.len() ==> (#[trigger] movers[i]).id != (#[trigger] movers[j]).id
    &&& forall|id: u64|
        contents.contains_key(id) && contents[id].moves() ==> #[trigger] has_mover(movers, id)
}

/// Lists the entities that the motion step advances: those with a
/// position, a velocity, an acceleration and a mass. The world stays as
/// it is.
pub fn movers(world: &mut World) -> (list: Vec<Mover>)
    ensures
        world_contents(*final(world)) == world_contents(*old(world)),
        is_mover_list(world_contents(*old(world)), list@),
{
    let rows = select(world, Role::Mover);
    let ghost contents = world_contents(*world);
    let mut list: Vec<Mover> = Vec::new();
    let mut k: usize = 0;
    while k < rows.len()
        invariant
            k <= rows@.len(),
            list@.len() == k,
            is_selection(contents, rows@, Role::Mover),
            forall|i: int| 0 <= i < k ==> #[trigger] list@[i] == mover_of(rows@[i].0, rows@[i].1),
        decreases rows@.len() - k,
    {
        let held = rows[k].1;
        assert(Role::Mover.fits(rows@[k as int].1));
        list.push(
            Mover {
                id: rows[k].0,
                position: held.position.unwrap(),
                velocity: held.velocity.unwrap(),
                acceleration: held.acceleration.unwrap(),
                mass: held.mass.unwrap(),
            },
        );
        k = k + 1;
    }
    proof {
        assert forall|i: int| 0 <= i < list@.len() implies {
            &&& contents.contains_key((#[trigger] list@[i]).id)
            &&& contents[list@[i].id].moves()
            &&& list@[i] == mover_of(list@[i].id, contents[list@[i].id])
        } by {
            assert(contents.contains_pair(rows@[i].0, rows@[i].1));
        }
        assert forall|i: int, j: int| 0 <= i < j < list@.len() implies (#[trigger] list@[i]).id
            != (#[trigger] list@[j]).id by {
            assert(rows@[i].0 != rows@[j].0);
        }
        assert forall|id: u64|
            contents.contains_key(id) && contents[id].moves() implies #[trigger] has_mover(
            list@,
            id,
        ) by {
            assert(has_row(rows@, id));
            let i = choose|i: int| 0 <= i < rows@.len() && (#[trigger] rows@[i]).0 == id;
            assert(list@[i].id == id);
        }
    }
    list
}

/// Gives the entity `id` another position and velocity, where it has
/// both, and says whether it did. Nothing else changes.
pub fn set_motion(
    world: &mut World,
    id: u64,
    position: PositionComponent,
    velocity: VelocityComponent,
) -> (found: bool)
    ensures
        found == (world_contents(*old(world)).contains_key(id) && world_contents(
            *old(world),
        )[id].position.is_some() && world_contents(*old(world))[id].velocity.is_some()),
        found ==> world_contents(*final(world)) == world_contents(*old(world)).insert(
            id,
            world_contents(*old(world))[id].with_motion(position, velocity),
        ),
        !found ==> world_contents(*final(world)) == world_contents(*old(world)),
{
    world_set_motion(world, id, position, velocity)
}

/// Cleanup leaves no entity behind that it would remove: a second pass
/// right after the first removes nothing.
pub proof fn lemma_cleanup_leaves_nothing_to_remove(contents: Map<u64, Components>, height: u32)
    ensures
        doomed(contents.remove_keys(doomed(contents, height)), height) == Set::<u64>::empty(),
        contents.remove_keys(doomed(contents, height)).remove_keys(
            doomed(contents.remove_keys(doomed(contents, height)), height),
        ) == contents.remove_keys(doomed(contents, height)),
{
    let kept = contents.remove_keys(doomed(contents, height));
    assert(doomed(kept, height) =~= Set::<u64>::empty());
    assert(kept.remove_keys(doomed(kept, height)) =~= kept);
}

/// Cleanup keeps every entity that is not out of bounds, with its
/// attributes.
pub proof fn lemma_cleanup_keeps_the_rest(contents: Map<u64, Components>, height: u32, id: u64)
    requires
        contents.contains_key(id),
        !doomed(contents, height).contains(id),
    ensures
        contents.remove_keys(doomed(contents, height)).contains_key(id),
        contents.remove_keys(doomed(contents, height))[id] == contents[id],
{
}

/// Two entities in contact have x ranges that meet, also on the coarse
/// axis: the sweep along the x axis never costs a contact.
pub proof fn lemma_contact_meets_on_x(contents: Map<u64, Components>, a: u64, b: u64)
    requires
        in_contact(contents, a, b),
    ensures
        in_contact(contents, b, a),
        collider_of(a, contents[a]).meets_on_x(collider_of(b, contents[b])),
        collider_of(a, contents[a]).may_meet_on_x(collider_of(b, contents[b])),
{
    lemma_coarse_axis_keeps_every_meeting(
        collider_of(a, contents[a]),
        collider_of(b, contents[b]),
    );
}

/// The kind of collision between two entities: that of the less elastic
/// of the two.
pub open spec fn spec_pair_kind(first: CollisionType, second: CollisionType) -> CollisionType {
    if first == CollisionType::PerfectlyInelastic || second == CollisionType::PerfectlyInelastic {
        CollisionType::PerfectlyInelastic
    } else if first == CollisionType::Inelastic || second == CollisionType::Inelastic {
        CollisionType::Inelastic
    } else {
        CollisionType::Elastic
    }
}

#[verifier::when_used_as_spec(spec_pair_kind)]
pub fn pair_kind(first: CollisionType, second: CollisionType) -> (kind: CollisionType)
    ensures
        kind == spec_pair_kind(first, second),
{
    match (first, second) {
        (CollisionType::PerfectlyInelastic, _) | (_, CollisionType::PerfectlyInelastic) => {
            CollisionType::PerfectlyInelastic
        },
        (CollisionType::Inelastic, _) | (_, CollisionType::Inelastic) => CollisionType::Inelastic,
        _ => CollisionType::Elastic,
    }
}

/// The kind of a pair does not depend on the order of the two, and a pair
/// of one kind has that kind.
pub proof fn lemma_pair_kind(first: CollisionType, second: CollisionType)
    ensures
        spec_pair_kind(first, second) == spec_pair_kind(second, first),
        spec_pair_kind(first, first) == first,
        spec_pair_kind(first, second) == first || spec_pair_kind(first, second) == second,
{
}

/// Writing back the position and the velocity that an entity has leaves
/// the world as it is: a step that changes nothing of an entity changes
/// nothing of the world.
pub proof fn lemma_same_motion_changes_nothing(contents: Map<u64, Components>, id: u64)
    requires
        contents.contains_key(id),
        contents[id].position.is_some(),
        contents[id].velocity.is_some(),
    ensures
        contents.insert(
            id,
            contents[id].with_motion(
                contents[id].position.unwrap(),
                contents[id].velocity.unwrap(),
            ),
        ) == contents,
{
    let held = contents[id];
    assert(held.with_motion(held.position.unwrap(), held.velocity.unwrap()) == held);
    assert(contents.insert(id, held) =~= contents);
}

/// Writing a position and a velocity back touches no other entity, and
/// of the entity itself nothing but the two.
pub proof fn lemma_motion_touches_one_entity(
    contents: Map<u64, Components>,
    id: u64,
    position: PositionComponent,
    velocity: VelocityComponent,
    other: u64,
)
    requires
        contents.contains_key(id),
        contents.contains_key(other),
    ensures
        contents.insert(id, contents[id].with_motion(position, velocity)).dom() == contents.dom(),
        other != id ==> contents.insert(id, contents[id].with_motion(position, velocity))[other]
            == contents[other],
        contents[id].with_motion(position, velocity).acceleration == contents[id].acceleration,
        contents[id].with_motion(position, velocity).mass == contents[id].mass,
        contents[id].with_motion(position, velocity).size == contents[id].size,
        contents[id].with_motion(position, velocity).collision == contents[id].collision,
        contents[id].with_motion(position, velocity).render == contents[id].render,
{
    assert(contents.insert(id, contents[id].with_motion(position, velocity)).dom()
        =~= contents.dom());
}

/// Two entities in contact can exchange momentum: each has a velocity
/// and a mass that is a finite number above zero.
pub open spec fn spec_can_exchange(first: Components, second: Components) -> bool {
    &&& first.velocity.is_some()
    &&& second.velocity.is_some()
    &&& first.mass.is_some()
    &&& first.mass.unwrap().well_formed()
    &&& second.mass.is_some()
    &&& second.mass.unwrap().well_formed()
}

#[verifier::when_used_as_spec(spec_can_exchange)]
pub fn can_exchange(first: Components, second: Components) -> (able: bool)
    ensures
        able == spec_can_exchange(first, second),
{
    let heavy = match (first.mass, second.mass) {
        (Some(a), Some(b)) => a.is_well_formed() && b.is_well_formed(),
        _ => false,
    };
    heavy && first.velocity.is_some() && second.velocity.is_some()
}

} // verus!
