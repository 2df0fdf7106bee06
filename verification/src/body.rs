use vstd::prelude::*;

use crate::field::{Field, MAX_COORD};
use crate::geom::{boxes_overlap, flipped, opposite, overlap_at, Direction, Vec2};

verus! {

/// The ghost image of one segment: its position in world units, the direction
/// it will move next, and whether it skips its next move.
pub ghost struct Seg {
    pub x: int,
    pub y: int,
    pub dir: Direction,
    pub wait: bool,
}

/// The snake's body: a strictly linear chain of segments, head first; each
/// segment owns the rest of the chain behind it.
pub enum Body {
    Node(Vec2, Direction, Box<Body>, bool),
    Empty,
}

/// The snake entity; it exclusively owns its body chain.
pub struct Snake {
    pub body: Body,
}

impl Body {
    /// The chain as a sequence of segment models, head first.
    pub open spec fn model(self) -> Seq<Seg>
        decreases self,
    {
        match self {
            Body::Node(p, d, next, w) => seq![
                Seg { x: p.x as int, y: p.y as int, dir: d, wait: w },
            ] + next.model(),
            Body::Empty => Seq::empty(),
        }
    }
}

impl View for Body {
    type V = Seq<Seg>;

    open spec fn view(&self) -> Seq<Seg> {
        self.model()
    }
}

impl Body {
    /// A chain of one segment at `(x, y)`, facing Left and not waiting.
    pub fn new(x: i64, y: i64) -> (r: Self)
        ensures
            r@ == seq![(Seg { x: x as int, y: y as int, dir: Direction::Left, wait: false })],
    {
        let r = Body::Node(Vec2::new(x, y), Direction::Left, Box::new(Body::Empty), false);
        proof {
            reveal_with_fuel(Body::model, 2);
            assert(r@ =~= seq![(Seg { x: x as int, y: y as int, dir: Direction::Left, wait: false })]);
        }
        r
    }

    /// The head segment's position, or the origin for an empty chain.
    pub fn position(&self) -> (p: Vec2)
        ensures
            self@.len() > 0 ==> p.x == self@[0].x && p.y == self@[0].y,
            self@.len() == 0 ==> p.x == 0 && p.y == 0,
    {
        match self {
            Body::Node(p, _, _, _) => *p,
            Body::Empty => Vec2::zero(),
        }
    }

    /// The head segment's direction, or Left for an empty chain.
    pub fn direction(&self) -> (d: Direction)
        ensures
            self@.len() > 0 ==> d == self@[0].dir,
            self@.len() == 0 ==> d == Direction::Left,
    {
        match self {
            Body::Node(_, d, _, _) => *d,
            Body::Empty => Direction::Left,
        }
    }

    /// Set the head segment's direction; followers receive theirs only through
    /// the per-tick propagation inside `advance`.
    pub fn set_direction(&mut self, direction: Direction)
        ensures
            final(self)@ == redirected(old(self)@, direction),
    {
        match self {
            Body::Node(_, d, _, _) => {
                *d = direction;
                proof {
                    assert(final(self)@ =~= redirected(old(self)@, direction));
                }
            },
            Body::Empty => {},
        }
    }

    /// Make this segment sit out its next move; used on a freshly grown tail
    /// so growth does not cause an instantaneous double move.
    pub fn wait(&mut self)
        ensures
            old(self)@.len() == 0 ==> final(self)@ == old(self)@,
            old(self)@.len() > 0 ==> final(self)@ == old(self)@.update(
                0,
                (Seg { wait: true, ..old(self)@[0] }),
            ),
    {
        match self {
            Body::Node(_, _, _, w) => {
                *w = true;
                proof {
                    assert(final(self)@ =~= old(self)@.update(
                        0,
                        (Seg { wait: true, ..old(self)@[0] }),
                    ));
                }
            },
            Body::Empty => {},
        }
    }
}

impl Clone for Body {
    fn clone(&self) -> (r: Self)
        ensures
            r@ == self@,
        decreases self,
    {
        match self {
            Body::Node(p, d, next, w) => {
                let r = Body::Node(*p, *d, Box::new((&**next).clone()), *w);
                proof {
                    assert(r@ =~= self@);
                }
                r
            },
            Body::Empty => Body::Empty,
        }
    }
}

impl Body {
    /// Walk to the true tail and hang `tail` there, clearing the skip flag of
    /// every segment passed on the way, as a fresh chain.
    fn append(chain: Body, tail: Body) -> (r: Body)
        ensures
            r@ == cleared(chain.model()) + tail.model(),
        decreases chain,
    {
        match chain {
            Body::Empty => {
                let r = tail;
                proof {
                    assert(r@ =~= cleared(chain.model()) + r@);
                }
                r
            },
            Body::Node(p, d, next, _) => {
                let r = Body::Node(p, d, Box::new(Self::append(*next, tail)), false);
                proof {
                    assert(r@ =~= cleared(chain.model()) + tail.model());
                }
                r
            },
        }
    }

    /// Grow the chain by hanging `body` behind the true tail. Every existing
    /// segment keeps its position and direction; skip flags of existing
    /// segments are cleared. Returns a copy of the resulting chain, or `body`
    /// itself when called on an empty chain, which stays empty.
    pub fn push(&mut self, body: Body) -> (r: Body)
        ensures
            old(self)@.len() == 0 ==> final(self)@ == old(self)@ && r@ == body@,
            old(self)@.len() > 0 ==> final(self)@ == cleared(old(self)@) + body@,
            old(self)@.len() > 0 ==> r@ == final(self)@,
            final(self)@.len() >= old(self)@.len(),
            old(self)@.len() > 0 ==> final(self)@.len() == old(self)@.len() + body@.len(),
            forall|i: int|
                0 <= i < old(self)@.len() ==> final(self)@[i].x == old(self)@[i].x
                    && final(self)@[i].y == old(self)@[i].y
                    && final(self)@[i].dir == old(self)@[i].dir,
    {
        let mut taken = Body::Empty;
        core::mem::swap(self, &mut taken);
        match taken {
            Body::Empty => body,
            Body::Node(p, d, next, _) => {
                let joined = Body::Node(p, d, Box::new(Self::append(*next, body)), false);
                let copy = joined.clone();
                *self = joined;
                proof {
                    assert(final(self)@ =~= cleared(old(self)@) + body@);
                }
                copy
            },
        }
    }

    /// A copy of the last segment, as a one-segment chain; an empty chain
    /// yields an empty chain.
    pub fn last(&self) -> (r: Body)
        ensures
            self@.len() == 0 ==> r@ == Seq::<Seg>::empty(),
            self@.len() > 0 ==> r@ == seq![self@.last()],
        decreases self,
    {
        match self {
            Body::Empty => Body::Empty,
            Body::Node(p, d, next, w) => {
                match &**next {
                    Body::Empty => {
                        let r = Body::Node(*p, *d, Box::new(Body::Empty), *w);
                        proof {
                            reveal_with_fuel(Body::model, 2);
                            assert(r@ =~= seq![self@.last()]);
                        }
                        r
                    },
                    _ => {
                        let r = (&**next).last();
                        proof {
                            assert(self@.last() == next.model().last());
                        }
                        r
                    },
                }
            },
        }
    }
}

impl Body {
    fn collect_positions(&self, out: &mut Vec<Vec2>)
        ensures
            final(out)@.len() == old(out)@.len() + self@.len(),
            forall|i: int| 0 <= i < old(out)@.len() ==> final(out)@[i] == old(out)@[i],
            forall|i: int|
                0 <= i < self@.len() ==> final(out)@[old(out)@.len() + i].x == self@[i].x
                    && final(out)@[old(out)@.len() + i].y == self@[i].y,
        decreases self,
    {
        match self {
            Body::Empty => {},
            Body::Node(p, _, next, _) => {
                out.push(*p);
                (&**next).collect_positions(out);
                proof {
                    assert(forall|i: int|
                        1 <= i < self@.len() ==> self@[i] == next.model()[i - 1]);
                }
            },
        }
    }

    /// Visit the chain front to back: the position of every segment, head
    /// first. The rendering traversal; it mutates nothing.
    pub fn spawn(&self) -> (ps: Vec<Vec2>)
        ensures
            ps@.len() == self@.len(),
            forall|i: int|
                0 <= i < self@.len() ==> ps@[i].x == self@[i].x && ps@[i].y == self@[i].y,
    {
        let mut ps: Vec<Vec2> = Vec::new();
        self.collect_positions(&mut ps);
        ps
    }

    /// Whether any segment's cell-sized box overlaps the cell-sized box
    /// centered at `point`; used for fruit placement and consumption checks.
    pub fn collide(&self, point: &Vec2, field: &Field) -> (r: bool)
        ensures
            r == exists|i: int|
                0 <= i < self@.len() && overlap_at(
                    self@[i].x,
                    self@[i].y,
                    point.x as int,
                    point.y as int,
                    field.cell as int,
                ),
        decreases self,
    {
        match self {
            Body::Empty => false,
            Body::Node(p, _, next, _) => {
                let hit = boxes_overlap(p, point, field.cell);
                let rest = (&**next).collide(point, field);
                proof {
                    let s = self@;
                    let n = next.model();
                    assert(forall|i: int| 1 <= i < s.len() ==> s[i] == n[i - 1]);
                    if hit {
                        assert(overlap_at(s[0].x, s[0].y, point.x as int, point.y as int, field.cell as int));
                    } else if rest {
                        let j = choose|j: int|
                            0 <= j < n.len() && overlap_at(
                                n[j].x,
                                n[j].y,
                                point.x as int,
                                point.y as int,
                                field.cell as int,
                            );
                        assert(s[j + 1] == n[j]);
                    } else {
                        assert forall|i: int|
                            0 <= i < s.len() implies !overlap_at(
                            s[i].x,
                            s[i].y,
                            point.x as int,
                            point.y as int,
                            field.cell as int,
                        ) by {
                            if i >= 1 {
                                assert(s[i] == n[i - 1]);
                            }
                        }
                    }
                }
                hit || rest
            },
        }
    }

    /// Whether the head's box overlaps the box of some segment behind it;
    /// the head itself is not tested against itself, so a one-segment chain
    /// never self-collides. The game-over condition.
    pub fn collide_self(&self, field: &Field) -> (r: bool)
        ensures
            r == exists|i: int|
                1 <= i < self@.len() && overlap_at(
                    self@[0].x,
                    self@[0].y,
                    self@[i].x,
                    self@[i].y,
                    field.cell as int,
                ),
    {
        match self {
            Body::Empty => false,
            Body::Node(p, _, next, _) => {
                let r = (&**next).collide(p, field);
                proof {
                    let s = self@;
                    let n = next.model();
                    assert(forall|i: int| 1 <= i < s.len() ==> s[i] == n[i - 1]);
                    if r {
                        let j = choose|j: int|
                            0 <= j < n.len() && overlap_at(
                                n[j].x,
                                n[j].y,
                                p.x as int,
                                p.y as int,
                                field.cell as int,
                            );
                        assert(s[j + 1] == n[j]);
                        assert(overlap_at(s[0].x, s[0].y, s[j + 1].x, s[j + 1].y, field.cell as int));
                    } else {
                        assert forall|i: int|
                            1 <= i < s.len() implies !overlap_at(
                            s[0].x,
                            s[0].y,
                            s[i].x,
                            s[i].y,
                            field.cell as int,
                        ) by {
                            assert(s[i] == n[i - 1]);
                        }
                    }
                }
                r
            },
        }
    }
}

/// One toroidal step of a coordinate toward the positive edge: past the edge
/// it reappears at the negation of where it stood, else it moves by `size`.
pub open spec fn wrap_add(c: int, size: int, half: int) -> int {
    if c + size > half {
        -c
    } else {
        c + size
    }
}

/// One toroidal step of a coordinate toward the negative edge.
pub open spec fn wrap_sub(c: int, size: int, half: int) -> int {
    if c - size < -half {
        -c
    } else {
        c - size
    }
}

/// The x coordinate after one step facing `dir`.
pub open spec fn stepped_x(x: int, dir: Direction, size: int, half: int) -> int {
    match dir {
        Direction::Left => wrap_sub(x, size, half),
        Direction::Right => wrap_add(x, size, half),
        _ => x,
    }
}

/// The y coordinate after one step facing `dir`.
pub open spec fn stepped_y(y: int, dir: Direction, size: int, half: int) -> int {
    match dir {
        Direction::Up => wrap_add(y, size, half),
        Direction::Down => wrap_sub(y, size, half),
        _ => y,
    }
}

/// One segment after its own move: stepped along its direction, flag clear.
pub open spec fn moved_seg(g: Seg, size: int, half: int) -> Seg {
    Seg {
        x: stepped_x(g.x, g.dir, size, half),
        y: stepped_y(g.y, g.dir, size, half),
        dir: g.dir,
        wait: false,
    }
}

/// The whole chain after one advance, front to back: a waiting segment clears
/// its flag and ends the tick for everything behind it; a moving segment
/// steps along its direction and hands that direction down to its follower
/// once the followers have moved.
pub open spec fn advanced(s: Seq<Seg>, size: int, half: int) -> Seq<Seg>
    decreases s.len(),
{
    if s.len() == 0 {
        s
    } else if s[0].wait {
        seq![Seg { wait: false, ..s[0] }] + s.skip(1)
    } else {
        seq![moved_seg(s[0], size, half)] + redirected(advanced(s.skip(1), size, half), s[0].dir)
    }
}

pub open spec fn seg_in_field(g: Seg, half: int) -> bool {
    &&& -half <= g.x <= half
    &&& -half <= g.y <= half
}

/// Every segment's position lies within the field's square.
pub open spec fn in_field(s: Seq<Seg>, half: int) -> bool {
    forall|i: int| 0 <= i < s.len() ==> seg_in_field(#[trigger] s[i], half)
}

/// A toroidal step from inside the field lands inside the field.
pub proof fn lemma_step_in_field(g: Seg, size: int, half: int)
    requires
        seg_in_field(g, half),
        0 < size,
        0 <= half,
    ensures
        seg_in_field(moved_seg(g, size, half), half),
{
}

/// Advancing a chain that lies within the field keeps it within the field.
pub proof fn lemma_advanced_in_field(s: Seq<Seg>, size: int, half: int)
    requires
        in_field(s, half),
        0 < size,
        0 <= half,
    ensures
        in_field(advanced(s, size, half), half),
    decreases s.len(),
{
    if s.len() == 0 {
    } else if s[0].wait {
        assert forall|i: int|
            0 <= i < advanced(s, size, half).len() implies seg_in_field(
            #[trigger] advanced(s, size, half)[i],
            half,
        ) by {
            if i >= 1 {
                assert(advanced(s, size, half)[i] == s[i]);
            }
        }
    } else {
        assert(in_field(s.skip(1), half)) by {
            assert(forall|i: int| 0 <= i < s.skip(1).len() ==> s.skip(1)[i] == s[i + 1]);
        }
        lemma_advanced_in_field(s.skip(1), size, half);
        lemma_step_in_field(s[0], size, half);
        let t = redirected(advanced(s.skip(1), size, half), s[0].dir);
        assert forall|i: int|
            0 <= i < advanced(s, size, half).len() implies seg_in_field(
            #[trigger] advanced(s, size, half)[i],
            half,
        ) by {
            if i >= 1 {
                assert(advanced(s, size, half)[i] == t[i - 1]);
                assert(t[i - 1].x == advanced(s.skip(1), size, half)[i - 1].x);
                assert(t[i - 1].y == advanced(s.skip(1), size, half)[i - 1].y);
            }
        }
    }
}

impl Body {
    /// Where a segment at `p` facing `d` lands after one toroidal step.
    fn step_position(p: Vec2, d: Direction, size: i64, half: i64) -> (np: Vec2)
        requires
            0 < size <= MAX_COORD,
            0 <= half <= MAX_COORD,
            -half <= p.x <= half,
            -half <= p.y <= half,
        ensures
            np.x as int == stepped_x(p.x as int, d, size as int, half as int),
            np.y as int == stepped_y(p.y as int, d, size as int, half as int),
    {
        match d {
            Direction::Up => {
                if p.y + size > half {
                    Vec2 { x: p.x, y: -p.y }
                } else {
                    Vec2 { x: p.x, y: p.y + size }
                }
            },
            Direction::Left => {
                if p.x - size < -half {
                    Vec2 { x: -p.x, y: p.y }
                } else {
                    Vec2 { x: p.x - size, y: p.y }
                }
            },
            Direction::Right => {
                if p.x + size > half {
                    Vec2 { x: -p.x, y: p.y }
                } else {
                    Vec2 { x: p.x + size, y: p.y }
                }
            },
            Direction::Down => {
                if p.y - size < -half {
                    Vec2 { x: p.x, y: -p.y }
                } else {
                    Vec2 { x: p.x, y: p.y - size }
                }
            },
        }
    }

    fn advance_rec(b: Body, size: i64, half: i64) -> (r: Body)
        requires
            0 < size <= MAX_COORD,
            0 <= half <= MAX_COORD,
            in_field(b.model(), half as int),
        ensures
            r@ == advanced(b.model(), size as int, half as int),
        decreases b,
    {
        match b {
            Body::Empty => Body::Empty,
            Body::Node(p, d, next, w) => {
                proof {
                    assert(b.model()[0] == (Seg { x: p.x as int, y: p.y as int, dir: d, wait: w }));
                    assert(in_field(next.model(), half as int)) by {
                        assert(forall|i: int|
                            0 <= i < next.model().len() ==> next.model()[i] == b.model()[i + 1]);
                    }
                    assert(next.model() =~= b.model().skip(1));
                }
                if w {
                    let r = Body::Node(p, d, next, false);
                    proof {
                        assert(r@ =~= advanced(b.model(), size as int, half as int));
                    }
                    r
                } else {
                    let np = Self::step_position(p, d, size, half);
                    let mut rest = Self::advance_rec(*next, size, half);
                    rest.set_direction(d);
                    let r = Body::Node(np, d, Box::new(rest), false);
                    proof {
                        assert(r@ =~= advanced(b.model(), size as int, half as int));
                    }
                    r
                }
            },
        }
    }

    /// Advance the whole chain one tick: each segment moves one `size` step
    /// along its direction with toroidal wraparound at the field's edges, a
    /// waiting segment sits the tick out instead, and each follower inherits
    /// the direction its predecessor just used.
    pub fn advance(&mut self, size: i64, field: &Field)
        requires
            field.wf(),
            0 < size <= MAX_COORD,
            in_field(old(self)@, field.half()),
        ensures
            final(self)@ == advanced(old(self)@, size as int, field.half()),
            in_field(final(self)@, field.half()),
            final(self)@.len() == old(self)@.len(),
    {
        let half = field.half_extent();
        let mut taken = Body::Empty;
        core::mem::swap(self, &mut taken);
        proof {
            lemma_advanced_in_field(taken.model(), size as int, half as int);
            lemma_advanced_len(taken.model(), size as int, half as int);
        }
        *self = Self::advance_rec(taken, size, half);
    }
}

impl Body {
    /// Apply a requested direction change to the head, rejecting a direct
    /// reversal of the head's current direction; an empty chain keeps its
    /// neutral Left reading and so rejects only Right.
    pub fn steer(&mut self, requested: Direction)
        ensures
            final(self)@ == (if old(self)@.len() > 0 && old(self)@[0].dir != flipped(requested) {
                redirected(old(self)@, requested)
            } else {
                old(self)@
            }),
    {
        let d = self.direction();
        let rejected = opposite(requested);
        if d != rejected {
            self.set_direction(requested);
        }
    }

    /// One consumption check: if the head's box overlaps the fruit's box, the
    /// chain grows by a copy of its tail that waits one tick. Reports whether
    /// the fruit was eaten; an empty chain reads as a head at the origin but
    /// cannot grow.
    pub fn eat(&mut self, fruit_pos: &Vec2, field: &Field) -> (ate: bool)
        ensures
            old(self)@.len() > 0 ==> ate == overlap_at(
                old(self)@[0].x,
                old(self)@[0].y,
                fruit_pos.x as int,
                fruit_pos.y as int,
                field.cell as int,
            ),
            old(self)@.len() == 0 ==> ate == overlap_at(
                0,
                0,
                fruit_pos.x as int,
                fruit_pos.y as int,
                field.cell as int,
            ),
            !ate || old(self)@.len() == 0 ==> final(self)@ == old(self)@,
            ate && old(self)@.len() > 0 ==> final(self)@ == cleared(old(self)@) + seq![
                (Seg { wait: true, ..old(self)@.last() }),
            ],
            ate && old(self)@.len() > 0 ==> final(self)@.len() == old(self)@.len() + 1,
    {
        let head = self.position();
        let ate = boxes_overlap(&head, fruit_pos, field.cell);
        if ate {
            let mut tail = self.last();
            tail.wait();
            self.push(tail);
            proof {
                if old(self)@.len() > 0 {
                    assert(final(self)@ =~= cleared(old(self)@) + seq![
                        (Seg { wait: true, ..old(self)@.last() }),
                    ]);
                }
            }
        }
        ate
    }
}

impl Body {
    fn within_rec(&self, half: i64) -> (r: bool)
        requires
            0 <= half,
        ensures
            r == in_field(self@, half as int),
        decreases self,
    {
        match self {
            Body::Empty => {
                proof {
                    assert(self@ =~= Seq::<Seg>::empty());
                }
                true
            },
            Body::Node(p, _, next, _) => {
                let ok = -half <= p.x && p.x <= half && -half <= p.y && p.y <= half;
                let rest = (&**next).within_rec(half);
                proof {
                    let s = self@;
                    let n = next.model();
                    assert(forall|i: int| 1 <= i < s.len() ==> s[i] == n[i - 1]);
                    assert(s[0] == (Seg { x: p.x as int, y: p.y as int, dir: self@[0].dir, wait: self@[0].wait }));
                    if ok && rest {
                        assert forall|i: int| 0 <= i < s.len() implies seg_in_field(
                            #[trigger] s[i],
                            half as int,
                        ) by {
                            if i >= 1 {
                                assert(s[i] == n[i - 1]);
                            }
                        }
                    }
                    if in_field(s, half as int) {
                        assert(seg_in_field(s[0], half as int));
                        assert forall|i: int| 0 <= i < n.len() implies seg_in_field(
                            #[trigger] n[i],
                            half as int,
                        ) by {
                            assert(s[i + 1] == n[i]);
                        }
                    }
                }
                ok && rest
            },
        }
    }

    /// Whether every segment lies inside the field; the guard a driver needs
    /// before it may advance the chain.
    pub fn within(&self, field: &Field) -> (r: bool)
        requires
            field.wf(),
        ensures
            r == in_field(self@, field.half()),
    {
        let half = field.half_extent();
        self.within_rec(half)
    }
}

/// Advancing a chain never changes how many segments it has.
pub proof fn lemma_advanced_len(s: Seq<Seg>, size: int, half: int)
    ensures
        advanced(s, size, half).len() == s.len(),
    decreases s.len(),
{
    if s.len() == 0 {
    } else if s[0].wait {
    } else {
        lemma_advanced_len(s.skip(1), size, half);
    }
}

/// No segment's box overlaps the cell-sized box centered at `(px, py)`.
pub open spec fn cell_free(s: Seq<Seg>, px: int, py: int, cell: int) -> bool {
    forall|i: int| 0 <= i < s.len() ==> !overlap_at((#[trigger] s[i]).x, s[i].y, px, py, cell)
}

/// No segment's box overlaps the cell-sized box centered at `p`.
pub open spec fn overlap_free(s: Seq<Seg>, p: Vec2, cell: int) -> bool {
    cell_free(s, p.x as int, p.y as int, cell)
}

/// Every segment's skip flag cleared; positions and directions kept.
pub open spec fn cleared(s: Seq<Seg>) -> Seq<Seg> {
    Seq::new(s.len(), |i: int| Seg { x: s[i].x, y: s[i].y, dir: s[i].dir, wait: false })
}

/// The chain with its first segment's direction replaced, when there is one.
pub open spec fn redirected(s: Seq<Seg>, d: Direction) -> Seq<Seg> {
    if s.len() == 0 {
        s
    } else {
        s.update(0, Seg { dir: d, ..s[0] })
    }
}

} // verus!
