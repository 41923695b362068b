//! Color blocks: maximal 4-connected same-color regions of the raster, and
//! the choice of the exit codel on a block's boundary.

use vstd::prelude::*;
use crate::raster::{Raster, get_px};
use crate::state::{CodelChooser, Direction, Position};

verus! {

/// 4-adjacency of codels.
pub open spec fn adjacent(a: Position, b: Position) -> bool {
    ||| (a.left == b.left && (a.top + 1 == b.top || b.top + 1 == a.top))
    ||| (a.top == b.top && (a.left + 1 == b.left || b.left + 1 == a.left))
}

/// A walk over in-bounds codels of one color, each adjacent to the next.
pub open spec fn is_codel_path(img: Raster, color: (u8, u8, u8), path: Seq<Position>) -> bool {
    &&& path.len() > 0
    &&& forall|i: int|
        0 <= i < path.len() ==> img.in_bounds(#[trigger] path[i]) && img.px(
            path[i].left as int,
            path[i].top as int,
        ) == color
    &&& forall|i: int| 0 <= i < path.len() - 1 ==> adjacent(#[trigger] path[i], path[i + 1])
}

/// `to` can be reached from `from` without leaving the codels of `color`.
pub open spec fn connected(img: Raster, color: (u8, u8, u8), from: Position, to: Position) -> bool {
    exists|path: Seq<Position>|
        is_codel_path(img, color, path) && path.first() == from && path.last() == to
}

/// The maximal 4-connected region of `color` that contains `seed`: every
/// codel that a path of that color reaches from it.
pub open spec fn spec_region(img: Raster, color: (u8, u8, u8), seed: Position) -> Set<Position> {
    Set::new(|p: Position| connected(img, color, seed, p))
}

/// The extremal key along the direction pointer's axis: larger is further
/// in the pointing sense.
pub open spec fn axis_value(p: Position, d: Direction) -> int {
    match d {
        Direction::Right => p.left as int,
        Direction::Left => -(p.left as int),
        Direction::Down => p.top as int,
        Direction::Up => -(p.top as int),
    }
}

/// The composed exit direction: the codel chooser's side rotated by the
/// direction pointer.
pub open spec fn spec_composed_direction(dp: Direction, cc: CodelChooser) -> Direction {
    cc.spec_direction().spec_add(dp)
}

/// Strict preference between boundary candidates: further along the
/// direction pointer first, and among ties further along the composed
/// direction.
pub open spec fn spec_better_exit(a: Position, b: Position, dp: Direction, cd: Direction) -> bool {
    ||| axis_value(a, dp) > axis_value(b, dp)
    ||| (axis_value(a, dp) == axis_value(b, dp) && axis_value(a, cd) > axis_value(b, cd))
}

/// Whether `a` is strictly preferred to `b` as the exit codel.
fn better_exit(a: &Position, b: &Position, dp: Direction, cd: Direction) -> (r: bool)
    ensures
        r == spec_better_exit(*a, *b, dp, cd),
{
    let primary = match dp {
        Direction::Right => a.left > b.left,
        Direction::Left => a.left < b.left,
        Direction::Down => a.top > b.top,
        Direction::Up => a.top < b.top,
    };
    let primary_tie = match dp {
        Direction::Right | Direction::Left => a.left == b.left,
        Direction::Down | Direction::Up => a.top == b.top,
    };
    let secondary = match cd {
        Direction::Right => a.left > b.left,
        Direction::Left => a.left < b.left,
        Direction::Down => a.top > b.top,
        Direction::Up => a.top < b.top,
    };
    primary || (primary_tie && secondary)
}

/// One maximal 4-connected same-color region of the raster.
#[derive(Debug)]
pub struct ColorBlock {
    pub color: (u8, u8, u8),
    codels: Vec<Position>,
}

impl ColorBlock {
    /// The color shared by the block's codels.
    pub closed spec fn spec_color(self) -> (u8, u8, u8) {
        self.color
    }

    /// The codels of the block, in discovery order.
    pub closed spec fn codel_seq(self) -> Seq<Position> {
        self.codels@
    }

    /// Whether `p` is a codel of the block.
    pub open spec fn has(self, p: Position) -> bool {
        self.codel_seq().contains(p)
    }

    /// Flood-fills the maximal 4-connected region of the seed's exact
    /// color, with an explicit work list. The clauses pin the result to
    /// exactly that region: it holds the seed, every codel is in bounds, of
    /// the seed's color and connected to the seed, it is closed under
    /// same-color adjacency, and no codel is listed twice.
    pub fn from_position_in_img(img: &Raster, pos: &Position) -> (r: ColorBlock)
        requires
            img.in_bounds(*pos),
        ensures
            r.spec_color() == img.px(pos.left as int, pos.top as int),
            r.has(*pos),
            forall|i: int|
                0 <= i < r.codel_seq().len() ==> img.in_bounds(#[trigger] r.codel_seq()[i])
                    && img.px(r.codel_seq()[i].left as int, r.codel_seq()[i].top as int) == r.spec_color()
                    && connected(*img, r.spec_color(), *pos, r.codel_seq()[i]),
            forall|i: int, q: Position|
                0 <= i < r.codel_seq().len() && #[trigger] adjacent(r.codel_seq()[i], q)
                    && img.in_bounds(q) && img.px(q.left as int, q.top as int) == r.spec_color()
                    ==> r.has(q),
            forall|i: int, j: int|
                0 <= i < j < r.codel_seq().len() ==> r.codel_seq()[i] != r.codel_seq()[j],
            r.codel_seq().to_set() == spec_region(*img, r.spec_color(), *pos),
            spec_region(*img, r.spec_color(), *pos).finite(),
            spec_region(*img, r.spec_color(), *pos).len() == r.codel_seq().len(),
    {
        let color = get_px(img, pos);
        let total = img.pixel_count();
        let mut visited: Vec<bool> = make_false_vec(total);
        let mut codels: Vec<Position> = Vec::new();
        let mut work: Vec<Position> = Vec::new();

        let seed_idx = img.index_of(pos);
        let ghost v0 = visited@;
        visited.set(seed_idx, true);
        codels.push(*pos);
        work.push(*pos);
        proof {
            lemma_count_true_update(v0, seed_idx as int);
            let unit = seq![*pos];
            assert(is_codel_path(*img, color, unit) && unit.first() == *pos && unit.last() == *pos);
            assert(connected(*img, color, *pos, *pos));
            assert forall|p: Position| img.in_bounds(p) implies (visited@[img.spec_index_of(p)]
                == codels@.contains(p)) by {
                img.lemma_index_of_bounds(p);
                if p != *pos {
                    img.lemma_index_of_injective(p, *pos);
                }
            }
        }

        while work.len() > 0
            invariant
                img.in_bounds(*pos),
                color == img.px(pos.left as int, pos.top as int),
                visited@.len() == img.spec_width() * img.spec_height(),
                forall|p: Position|
                    img.in_bounds(p) ==> (visited@[img.spec_index_of(p)] == codels@.contains(p)),
                forall|i: int|
                    0 <= i < codels@.len() ==> img.in_bounds(#[trigger] codels@[i]) && img.px(
                        codels@[i].left as int,
                        codels@[i].top as int,
                    ) == color && connected(*img, color, *pos, codels@[i]),
                forall|i: int, j: int| 0 <= i < j < codels@.len() ==> codels@[i] != codels@[j],
                forall|i: int| 0 <= i < work@.len() ==> codels@.contains(#[trigger] work@[i]),
                forall|i: int, q: Position|
                    0 <= i < codels@.len() && !work@.contains(codels@[i]) && #[trigger] adjacent(
                        codels@[i],
                        q,
                    ) && img.in_bounds(q) && img.px(q.left as int, q.top as int) == color
                        ==> codels@.contains(q),
                codels@.contains(*pos),
                codels@.len() == count_true(visited@),
                codels@.len() <= visited@.len(),
            decreases 2 * visited@.len() - 2 * codels@.len() + work@.len(),
        {
            proof {
                lemma_count_true_le(visited@);
            }
            let ghost c_pre = codels@;
            let ghost w_pre = work@;
            let p = work.pop().unwrap();
            proof {
                assert(w_pre[w_pre.len() - 1] == p);
                assert(codels@.contains(p));
                let ip = choose|ip: int| 0 <= ip < codels@.len() && codels@[ip] == p;
                assert(img.in_bounds(p));
            }
            let ghost c0 = codels@;
            let ghost w0 = work@;
            visit_neighbor(img, color, pos, &p, true, &mut visited, &mut codels, &mut work);
            let ghost c1 = codels@;
            let ghost w1 = work@;
            visit_neighbor(img, color, pos, &p, false, &mut visited, &mut codels, &mut work);
            let ghost c2 = codels@;
            let ghost w2 = work@;
            visit_neighbor_vert(img, color, pos, &p, true, &mut visited, &mut codels, &mut work);
            let ghost c3 = codels@;
            let ghost w3 = work@;
            visit_neighbor_vert(img, color, pos, &p, false, &mut visited, &mut codels, &mut work);
            proof {
                lemma_count_true_le(visited@);
                assert forall|i: int, q: Position|
                    0 <= i < codels@.len() && !work@.contains(codels@[i]) && #[trigger] adjacent(
                        codels@[i],
                        q,
                    ) && img.in_bounds(q) && img.px(q.left as int, q.top as int)
                        == color implies codels@.contains(q) by {
                    let x = codels@[i];
                    if c0.contains(x) {
                        if x == p {
                            // `q` is one of the four neighbors of `p`, each
                            // of which the matching visit has recorded
                            if q.top == p.top && q.left + 1 == p.left {
                                assert(c1.contains(q));
                            } else if q.top == p.top && p.left + 1 == q.left {
                                assert(c2.contains(q));
                            } else if q.left == p.left && q.top + 1 == p.top {
                                assert(c3.contains(q));
                            } else {
                                assert(q.left == p.left && p.top + 1 == q.top);
                            }
                        } else if w0.contains(x) {
                            // still queued, hence exempt
                            assert(work@.contains(x));
                            assert(false);
                        } else {
                            // processed before this iteration: the closure
                            // already held at entry
                            assert(!w_pre.contains(x)) by {
                                if w_pre.contains(x) {
                                    let iw = choose|iw: int|
                                        0 <= iw < w_pre.len() && w_pre[iw] == x;
                                    assert(iw < w_pre.len() - 1 || x == p);
                                    assert(w0[iw] == x);
                                }
                            }
                            let ix = choose|ix: int| 0 <= ix < c_pre.len() && c_pre[ix] == x;
                            assert(c_pre[ix] == x && !w_pre.contains(c_pre[ix]));
                            assert(c_pre.contains(q));
                        }
                    } else {
                        // discovered during this iteration, hence queued
                        // and exempt
                        if c1.contains(x) {
                            assert(w1.contains(x));
                        } else if c2.contains(x) {
                            assert(w2.contains(x));
                        } else if c3.contains(x) {
                            assert(w3.contains(x));
                        }
                        assert(work@.contains(x));
                        assert(false);
                    }
                }
            }
        }

        let r = ColorBlock { color, codels };
        proof {
            broadcast use vstd::seq_lib::seq_to_set_is_finite;

            let region = spec_region(*img, color, *pos);
            assert forall|p: Position| region.contains(p) implies r.codel_seq().to_set().contains(
                p,
            ) by {
                let path = choose|path: Seq<Position>|
                    is_codel_path(*img, color, path) && path.first() == *pos && path.last() == p;
                lemma_closed_block_swallows_paths(*img, color, r, path);
            }
            assert forall|p: Position| r.codel_seq().to_set().contains(p) implies region.contains(
                p,
            ) by {
                let i = choose|i: int| 0 <= i < codels@.len() && codels@[i] == p;
                assert(connected(*img, color, *pos, codels@[i]));
            }
            assert(r.codel_seq().to_set() =~= region);
            assert(r.codel_seq().no_duplicates());
            r.codel_seq().unique_seq_to_set();
        }
        r
    }

    /// The color shared by the block's codels.
    pub fn color(&self) -> (c: (u8, u8, u8))
        ensures
            c == self.spec_color(),
    {
        self.color
    }

    /// The number of codels in the block.
    pub fn value(&self) -> (r: i32)
        ensures
            self.codel_seq().len() <= i32::MAX ==> r == self.codel_seq().len() as i32,
    {
        #[verifier::truncate]
        (self.codels.len() as i32)
    }

    /// The exit codel for a direction pointer and codel chooser: the codel
    /// furthest along the direction pointer, and among ties on that edge
    /// the one furthest along the composed exit direction.
    pub fn boundary_codel_position(&self, dp: &Direction, cc: &CodelChooser) -> (r: Position)
        requires
            self.codel_seq().len() > 0,
        ensures
            self.has(r),
            forall|i: int|
                0 <= i < self.codel_seq().len() ==> #[trigger] self.codel_seq()[i] == r
                    || spec_better_exit(r, self.codel_seq()[i], *dp, spec_composed_direction(*dp, *cc)),
            is_exit_codel(self.codel_seq().to_set(), *dp, *cc, r),
    {
        let cd = cc.direction().add(*dp);
        let mut best: Position = self.codels[0];
        let mut i: usize = 1;
        proof {
            assert(self.codel_seq().contains(self.codel_seq()[0]));
        }
        while i < self.codels.len()
            invariant
                1 <= i <= self.codels@.len(),
                self.codels@.len() > 0,
                cd == spec_composed_direction(*dp, *cc),
                self.codels@.contains(best),
                forall|j: int|
                    0 <= j < i ==> #[trigger] self.codels@[j] == best || spec_better_exit(
                        best,
                        self.codels@[j],
                        *dp,
                        cd,
                    ),
            decreases self.codels@.len() - i,
        {
            let c = self.codels[i];
            if better_exit(&c, &best, *dp, cd) {
                proof {
                    assert forall|j: int| 0 <= j < i + 1 implies #[trigger] self.codels@[j] == c
                        || spec_better_exit(c, self.codels@[j], *dp, cd) by {
                        if j < i {
                            if self.codels@[j] == best {
                            } else {
                                assert(spec_better_exit(best, self.codels@[j], *dp, cd));
                            }
                        }
                    }
                    assert(self.codel_seq().contains(self.codel_seq()[i as int]));
                }
                best = c;
            } else {
                proof {
                    lemma_exit_order_total(c, best, *dp, *cc);
                }
            }
            i = i + 1;
        }
        proof {
            assert forall|q: Position| self.codel_seq().to_set().contains(q) implies q == best
                || spec_better_exit(best, q, *dp, spec_composed_direction(*dp, *cc)) by {
                let j = choose|j: int|
                    0 <= j < self.codel_seq().len() && self.codel_seq()[j] == q;
                assert(self.codels@[j] == best || spec_better_exit(
                    best,
                    self.codels@[j],
                    *dp,
                    spec_composed_direction(*dp, *cc),
                ));
            }
        }
        best
    }
}

/// Reachability composes: a walk to `b` followed by a walk from `b`
/// reaches everything the second walk does.
pub proof fn lemma_connected_trans(
    img: Raster,
    color: (u8, u8, u8),
    a: Position,
    b: Position,
    c: Position,
)
    requires
        connected(img, color, a, b),
        connected(img, color, b, c),
    ensures
        connected(img, color, a, c),
{
    let p1 = choose|p1: Seq<Position>|
        is_codel_path(img, color, p1) && p1.first() == a && p1.last() == b;
    let p2 = choose|p2: Seq<Position>|
        is_codel_path(img, color, p2) && p2.first() == b && p2.last() == c;
    if p2.len() == 1 {
        assert(is_codel_path(img, color, p1) && p1.first() == a && p1.last() == c);
    } else {
        let joined = p1 + p2.skip(1);
        assert(joined.len() == p1.len() + p2.len() - 1);
        assert forall|i: int| 0 <= i < joined.len() implies img.in_bounds(#[trigger] joined[i])
            && img.px(joined[i].left as int, joined[i].top as int) == color by {
            if i < p1.len() {
                assert(joined[i] == p1[i]);
            } else {
                assert(joined[i] == p2[i - p1.len() + 1]);
            }
        }
        assert forall|i: int| 0 <= i < joined.len() - 1 implies adjacent(
            #[trigger] joined[i],
            joined[i + 1],
        ) by {
            if i + 1 < p1.len() {
                assert(joined[i] == p1[i] && joined[i + 1] == p1[i + 1]);
                assert(adjacent(p1[i], p1[i + 1]));
            } else if i + 1 == p1.len() {
                assert(joined[i] == p1[p1.len() - 1] && joined[i + 1] == p2[1]);
                assert(adjacent(p2[0], p2[1]));
            } else {
                assert(joined[i] == p2[i - p1.len() + 1] && joined[i + 1] == p2[i - p1.len() + 2]);
                assert(adjacent(p2[i - p1.len() + 1], p2[i - p1.len() + 2]));
            }
        }
        assert(is_codel_path(img, color, joined));
        assert(joined.first() == a);
        assert(joined.last() == p2[p2.len() - 1]);
    }
}

/// Reachability is symmetric: a walk can be retraced.
pub proof fn lemma_connected_sym(img: Raster, color: (u8, u8, u8), a: Position, b: Position)
    requires
        connected(img, color, a, b),
    ensures
        connected(img, color, b, a),
{
    let path = choose|path: Seq<Position>|
        is_codel_path(img, color, path) && path.first() == a && path.last() == b;
    let back = Seq::new(path.len(), |i: int| path[path.len() - 1 - i]);
    assert forall|i: int| 0 <= i < back.len() - 1 implies adjacent(
        #[trigger] back[i],
        back[i + 1],
    ) by {
        let j = path.len() - 2 - i;
        assert(adjacent(path[j], path[j + 1]));
        assert(back[i] == path[j + 1] && back[i + 1] == path[j]);
    }
    assert(is_codel_path(img, color, back));
    assert(back.first() == b && back.last() == a);
}

/// Every member of a region sees the same region: reachability from a
/// member coincides with reachability from the seed.
pub proof fn lemma_region_of_member(img: Raster, color: (u8, u8, u8), seed: Position, p: Position)
    requires
        spec_region(img, color, seed).contains(p),
    ensures
        spec_region(img, color, p) == spec_region(img, color, seed),
{
    assert forall|x: Position| spec_region(img, color, p).contains(x) implies spec_region(
        img,
        color,
        seed,
    ).contains(x) by {
        lemma_connected_trans(img, color, seed, p, x);
    }
    assert forall|x: Position| spec_region(img, color, seed).contains(x) implies spec_region(
        img,
        color,
        p,
    ).contains(x) by {
        lemma_connected_sym(img, color, seed, p);
        lemma_connected_trans(img, color, p, seed, x);
    }
    assert(spec_region(img, color, p) =~= spec_region(img, color, seed));
}

/// Whether `p` is the exit codel of the set `s`: the member that every
/// other member yields to under the two-key preference.
pub open spec fn is_exit_codel(s: Set<Position>, dp: Direction, cc: CodelChooser, p: Position) -> bool {
    &&& s.contains(p)
    &&& forall|q: Position|
        #[trigger] s.contains(q) ==> q == p || spec_better_exit(
            p,
            q,
            dp,
            spec_composed_direction(dp, cc),
        )
}

/// The exit codel of a set, where one exists.
pub open spec fn spec_exit_codel(s: Set<Position>, dp: Direction, cc: CodelChooser) -> Position {
    choose|p: Position| is_exit_codel(s, dp, cc, p)
}

/// At most one member can be the exit codel: the preference is a strict
/// order, total on distinct positions.
pub proof fn lemma_exit_codel_unique(
    s: Set<Position>,
    dp: Direction,
    cc: CodelChooser,
    p1: Position,
    p2: Position,
)
    requires
        is_exit_codel(s, dp, cc, p1),
        is_exit_codel(s, dp, cc, p2),
    ensures
        p1 == p2,
{
    if p1 != p2 {
        assert(s.contains(p1) && s.contains(p2));
    }
}

/// A block is the whole region: because its codels are closed under
/// same-color adjacency, every codel that a path of the block's color
/// connects to a member is itself a member. Together with the clauses of
/// `from_position_in_img` this pins the block to exactly the maximal
/// 4-connected region of the seed.
pub proof fn lemma_closed_block_swallows_paths(
    img: Raster,
    color: (u8, u8, u8),
    blk: ColorBlock,
    path: Seq<Position>,
)
    requires
        is_codel_path(img, color, path),
        blk.has(path.first()),
        forall|i: int, q: Position|
            0 <= i < blk.codel_seq().len() && #[trigger] adjacent(blk.codel_seq()[i], q)
                && img.in_bounds(q) && img.px(q.left as int, q.top as int) == color ==> blk.has(q),
    ensures
        blk.has(path.last()),
    decreases path.len(),
{
    if path.len() > 1 {
        let front = path.drop_last();
        assert(is_codel_path(img, color, front)) by {
            assert(forall|i: int| 0 <= i < front.len() ==> front[i] == #[trigger] path[i]);
        }
        lemma_closed_block_swallows_paths(img, color, blk, front);
        let prev = front.last();
        let i = choose|i: int| 0 <= i < blk.codel_seq().len() && blk.codel_seq()[i] == prev;
        assert(prev == path[path.len() - 2]);
        assert(adjacent(path[path.len() - 2], path[path.len() - 1]));
        assert(adjacent(blk.codel_seq()[i], path.last()));
    }
}

/// For any two positions, either they agree on both selection keys (and are
/// then the same position) or one is strictly preferred to the other.
proof fn lemma_exit_order_total(a: Position, b: Position, dp: Direction, cc: CodelChooser)
    ensures
        a == b || spec_better_exit(a, b, dp, spec_composed_direction(dp, cc)) || spec_better_exit(
            b,
            a,
            dp,
            spec_composed_direction(dp, cc),
        ),
{
}

/// How many entries of a boolean sequence are set.
pub closed spec fn count_true(s: Seq<bool>) -> int
    decreases s.len(),
{
    if s.len() == 0 {
        0
    } else {
        count_true(s.drop_last()) + if s.last() {
            1int
        } else {
            0int
        }
    }
}

proof fn lemma_count_true_le(s: Seq<bool>)
    ensures
        0 <= count_true(s) <= s.len(),
    decreases s.len(),
{
    if s.len() > 0 {
        lemma_count_true_le(s.drop_last());
    }
}

proof fn lemma_count_true_update(s: Seq<bool>, i: int)
    requires
        0 <= i < s.len(),
        !s[i],
    ensures
        count_true(s.update(i, true)) == count_true(s) + 1,
    decreases s.len(),
{
    let t = s.update(i, true);
    if i == s.len() - 1 {
        assert(t.drop_last() =~= s.drop_last());
    } else {
        assert(t.drop_last() =~= s.drop_last().update(i, true));
        lemma_count_true_update(s.drop_last(), i);
    }
}

fn make_false_vec(n: usize) -> (r: Vec<bool>)
    ensures
        r@.len() == n,
        forall|i: int| 0 <= i < n ==> !(#[trigger] r@[i]),
        count_true(r@) == 0,
{
    let mut v: Vec<bool> = Vec::new();
    let mut i: usize = 0;
    while i < n
        invariant
            i <= n,
            v@.len() == i,
            forall|j: int| 0 <= j < i ==> !(#[trigger] v@[j]),
            count_true(v@) == 0,
        decreases n - i,
    {
        let ghost prev = v@;
        v.push(false);
        proof {
            assert(v@.drop_last() =~= prev);
        }
        i = i + 1;
    }
    v
}

/// Visits the horizontal neighbor of `p` (left or right): if it is in
/// bounds, unvisited and of the region's color, it is recorded and queued.
fn visit_neighbor(
    img: &Raster,
    color: (u8, u8, u8),
    seed: &Position,
    p: &Position,
    to_left: bool,
    visited: &mut Vec<bool>,
    codels: &mut Vec<Position>,
    work: &mut Vec<Position>,
)
    requires
        img.in_bounds(*p),
        old(codels)@.contains(*p),
        old(visited)@.len() == img.spec_width() * img.spec_height(),
        forall|q: Position|
            img.in_bounds(q) ==> (old(visited)@[img.spec_index_of(q)] == old(codels)@.contains(q)),
        forall|i: int|
            0 <= i < old(codels)@.len() ==> img.in_bounds(#[trigger] old(codels)@[i]) && img.px(
                old(codels)@[i].left as int,
                old(codels)@[i].top as int,
            ) == color && connected(*img, color, *seed, old(codels)@[i]),
        forall|i: int, j: int|
            0 <= i < j < old(codels)@.len() ==> old(codels)@[i] != old(codels)@[j],
        forall|i: int| 0 <= i < old(work)@.len() ==> old(codels)@.contains(#[trigger] old(work)@[i]),
        old(codels)@.len() == count_true(old(visited)@),
    ensures
        final(visited)@.len() == old(visited)@.len(),
        final(codels)@.len() == count_true(final(visited)@),
        final(work)@.len() - old(work)@.len() == final(codels)@.len() - old(codels)@.len(),
        final(codels)@.len() >= old(codels)@.len(),
        forall|q: Position|
            img.in_bounds(q) ==> (final(visited)@[img.spec_index_of(q)] == final(codels)@.contains(q)),
        forall|i: int|
            0 <= i < final(codels)@.len() ==> img.in_bounds(#[trigger] final(codels)@[i]) && img.px(
                final(codels)@[i].left as int,
                final(codels)@[i].top as int,
            ) == color && connected(*img, color, *seed, final(codels)@[i]),
        forall|i: int, j: int|
            0 <= i < j < final(codels)@.len() ==> final(codels)@[i] != final(codels)@[j],
        forall|i: int|
            0 <= i < final(work)@.len() ==> final(codels)@.contains(#[trigger] final(work)@[i]),
        // nothing is removed, and the only growth is the one neighbor
        forall|q: Position| old(codels)@.contains(q) ==> final(codels)@.contains(q),
        forall|q: Position| old(work)@.contains(q) ==> final(work)@.contains(q),
        forall|q: Position|
            final(codels)@.contains(q) ==> old(codels)@.contains(q) || (adjacent(*p, q)
                && img.in_bounds(q) && img.px(q.left as int, q.top as int) == color),
        forall|q: Position|
            final(codels)@.contains(q) && !old(codels)@.contains(q) ==> final(work)@.contains(q),
        // after the call the eligible neighbor, if any, is recorded
        forall|q: Position|
            img.in_bounds(q) && img.px(q.left as int, q.top as int) == color && q.top == p.top && (
            if to_left {
                q.left + 1 == p.left
            } else {
                p.left + 1 == q.left
            }) ==> final(codels)@.contains(q),
{
    let q_opt: Option<Position> = if to_left {
        if p.left > 0 {
            Some(Position { left: p.left - 1, top: p.top })
        } else {
            None
        }
    } else {
        if p.left + 1 < img.width() {
            Some(Position { left: p.left + 1, top: p.top })
        } else {
            None
        }
    };
    match q_opt {
        None => {},
        Some(q) => {
            record_codel(img, color, seed, p, &q, visited, codels, work);
        },
    }
}

/// Visits the vertical neighbor of `p` (above or below), as
/// `visit_neighbor` does for the horizontal ones.
fn visit_neighbor_vert(
    img: &Raster,
    color: (u8, u8, u8),
    seed: &Position,
    p: &Position,
    upward: bool,
    visited: &mut Vec<bool>,
    codels: &mut Vec<Position>,
    work: &mut Vec<Position>,
)
    requires
        img.in_bounds(*p),
        old(codels)@.contains(*p),
        old(visited)@.len() == img.spec_width() * img.spec_height(),
        forall|q: Position|
            img.in_bounds(q) ==> (old(visited)@[img.spec_index_of(q)] == old(codels)@.contains(q)),
        forall|i: int|
            0 <= i < old(codels)@.len() ==> img.in_bounds(#[trigger] old(codels)@[i]) && img.px(
                old(codels)@[i].left as int,
                old(codels)@[i].top as int,
            ) == color && connected(*img, color, *seed, old(codels)@[i]),
        forall|i: int, j: int|
            0 <= i < j < old(codels)@.len() ==> old(codels)@[i] != old(codels)@[j],
        forall|i: int| 0 <= i < old(work)@.len() ==> old(codels)@.contains(#[trigger] old(work)@[i]),
        old(codels)@.len() == count_true(old(visited)@),
    ensures
        final(visited)@.len() == old(visited)@.len(),
        final(codels)@.len() == count_true(final(visited)@),
        final(work)@.len() - old(work)@.len() == final(codels)@.len() - old(codels)@.len(),
        final(codels)@.len() >= old(codels)@.len(),
        forall|q: Position|
            img.in_bounds(q) ==> (final(visited)@[img.spec_index_of(q)] == final(codels)@.contains(q)),
        forall|i: int|
            0 <= i < final(codels)@.len() ==> img.in_bounds(#[trigger] final(codels)@[i]) && img.px(
                final(codels)@[i].left as int,
                final(codels)@[i].top as int,
            ) == color && connected(*img, color, *seed, final(codels)@[i]),
        forall|i: int, j: int|
            0 <= i < j < final(codels)@.len() ==> final(codels)@[i] != final(codels)@[j],
        forall|i: int|
            0 <= i < final(work)@.len() ==> final(codels)@.contains(#[trigger] final(work)@[i]),
        forall|q: Position| old(codels)@.contains(q) ==> final(codels)@.contains(q),
        forall|q: Position| old(work)@.contains(q) ==> final(work)@.contains(q),
        forall|q: Position|
            final(codels)@.contains(q) ==> old(codels)@.contains(q) || (adjacent(*p, q)
                && img.in_bounds(q) && img.px(q.left as int, q.top as int) == color),
        forall|q: Position|
            final(codels)@.contains(q) && !old(codels)@.contains(q) ==> final(work)@.contains(q),
        forall|q: Position|
            img.in_bounds(q) && img.px(q.left as int, q.top as int) == color && q.left == p.left
                && (if upward {
                q.top + 1 == p.top
            } else {
                p.top + 1 == q.top
            }) ==> final(codels)@.contains(q),
{
    let q_opt: Option<Position> = if upward {
        if p.top > 0 {
            Some(Position { left: p.left, top: p.top - 1 })
        } else {
            None
        }
    } else {
        if p.top + 1 < img.height() {
            Some(Position { left: p.left, top: p.top + 1 })
        } else {
            None
        }
    };
    match q_opt {
        None => {},
        Some(q) => {
            record_codel(img, color, seed, p, &q, visited, codels, work);
        },
    }
}

/// Records an in-bounds neighbor `q` of a known codel `p` unless it was
/// already seen or has another color.
#[verifier::rlimit(100)]
#[verifier::spinoff_prover]
fn record_codel(
    img: &Raster,
    color: (u8, u8, u8),
    seed: &Position,
    p: &Position,
    q: &Position,
    visited: &mut Vec<bool>,
    codels: &mut Vec<Position>,
    work: &mut Vec<Position>,
)
    requires
        img.in_bounds(*p),
        img.in_bounds(*q),
        adjacent(*p, *q),
        old(codels)@.contains(*p),
        old(visited)@.len() == img.spec_width() * img.spec_height(),
        forall|x: Position|
            img.in_bounds(x) ==> (old(visited)@[img.spec_index_of(x)] == old(codels)@.contains(x)),
        forall|i: int|
            0 <= i < old(codels)@.len() ==> img.in_bounds(#[trigger] old(codels)@[i]) && img.px(
                old(codels)@[i].left as int,
                old(codels)@[i].top as int,
            ) == color && connected(*img, color, *seed, old(codels)@[i]),
        forall|i: int, j: int|
            0 <= i < j < old(codels)@.len() ==> old(codels)@[i] != old(codels)@[j],
        forall|i: int| 0 <= i < old(work)@.len() ==> old(codels)@.contains(#[trigger] old(work)@[i]),
        old(codels)@.len() == count_true(old(visited)@),
    ensures
        final(visited)@.len() == old(visited)@.len(),
        final(codels)@.len() == count_true(final(visited)@),
        final(work)@.len() - old(work)@.len() == final(codels)@.len() - old(codels)@.len(),
        final(codels)@.len() >= old(codels)@.len(),
        forall|x: Position|
            img.in_bounds(x) ==> (final(visited)@[img.spec_index_of(x)] == final(codels)@.contains(x)),
        forall|i: int|
            0 <= i < final(codels)@.len() ==> img.in_bounds(#[trigger] final(codels)@[i]) && img.px(
                final(codels)@[i].left as int,
                final(codels)@[i].top as int,
            ) == color && connected(*img, color, *seed, final(codels)@[i]),
        forall|i: int, j: int|
            0 <= i < j < final(codels)@.len() ==> final(codels)@[i] != final(codels)@[j],
        forall|i: int|
            0 <= i < final(work)@.len() ==> final(codels)@.contains(#[trigger] final(work)@[i]),
        forall|x: Position| old(codels)@.contains(x) ==> final(codels)@.contains(x),
        forall|x: Position| old(work)@.contains(x) ==> final(work)@.contains(x),
        forall|x: Position|
            final(codels)@.contains(x) ==> old(codels)@.contains(x) || x == *q,
        forall|x: Position|
            final(codels)@.contains(x) && !old(codels)@.contains(x) ==> final(work)@.contains(x),
        img.px(q.left as int, q.top as int) == color ==> final(codels)@.contains(*q),
{
    let pxq = get_px(img, q);
    if pxq.0 == color.0 && pxq.1 == color.1 && pxq.2 == color.2 {
        let qi = img.index_of(q);
        if !visited[qi] {
            visited.set(qi, true);
            codels.push(*q);
            work.push(*q);
            proof {
                lemma_count_true_update(old(visited)@, qi as int);
                // the new codel is connected to the seed through `p`
                let i = choose|i: int| 0 <= i < old(codels)@.len() && old(codels)@[i] == *p;
                assert(connected(*img, color, *seed, *p));
                let path = choose|path: Seq<Position>|
                    is_codel_path(*img, color, path) && path.first() == *seed && path.last() == *p;
                let path2 = path.push(*q);
                assert(path2.last() == *q);
                assert(path2.first() == *seed);
                assert forall|k: int| 0 <= k < path2.len() - 1 implies adjacent(
                    #[trigger] path2[k],
                    path2[k + 1],
                ) by {
                    if k < path.len() - 1 {
                        assert(adjacent(path[k], path[k + 1]));
                    } else {
                        assert(path2[k] == *p && path2[k + 1] == *q);
                    }
                }
                assert(is_codel_path(*img, color, path2));
                assert(connected(*img, color, *seed, *q));
                assert(pxq == color);
                assert(codels@ == old(codels)@.push(*q));
                assert(work@ == old(work)@.push(*q));
                assert(codels@.contains(*q)) by {
                    assert(codels@[codels@.len() - 1] == *q);
                }
                assert(work@.contains(*q)) by {
                    assert(work@[work@.len() - 1] == *q);
                }
                assert(!old(codels)@.contains(*q)) by {
                    assert(old(visited)@[img.spec_index_of(*q)] == old(codels)@.contains(*q));
                }
                assert forall|x: Position| old(codels)@.contains(x) implies codels@.contains(x) by {
                    let ix = choose|ix: int| 0 <= ix < old(codels)@.len() && old(codels)@[ix] == x;
                    assert(codels@[ix] == x);
                }
                assert forall|x: Position| old(work)@.contains(x) implies work@.contains(x) by {
                    let ix = choose|ix: int| 0 <= ix < old(work)@.len() && old(work)@[ix] == x;
                    assert(work@[ix] == x);
                }
                assert forall|x: Position| codels@.contains(x) implies old(codels)@.contains(x) || x
                    == *q by {
                    let ix = choose|ix: int| 0 <= ix < codels@.len() && codels@[ix] == x;
                    if ix < codels@.len() - 1 {
                        assert(old(codels)@[ix] == x);
                    }
                }
                assert forall|i: int| 0 <= i < work@.len() implies codels@.contains(
                    #[trigger] work@[i],
                ) by {
                    if i < work@.len() - 1 {
                        assert(old(work)@[i] == work@[i]);
                        assert(old(codels)@.contains(work@[i]));
                    } else {
                        assert(work@[i] == *q);
                    }
                }
                assert forall|i: int, j: int| 0 <= i < j < codels@.len() implies codels@[i]
                    != codels@[j] by {
                    if j < codels@.len() - 1 {
                        assert(old(codels)@[i] != old(codels)@[j]);
                    } else {
                        assert(codels@[j] == *q);
                        assert(old(codels)@[i] == codels@[i]);
                        if codels@[i] == *q {
                            assert(old(codels)@.contains(*q));
                        }
                    }
                }
                assert forall|i: int| 0 <= i < codels@.len() implies img.in_bounds(
                    #[trigger] codels@[i],
                ) && img.px(codels@[i].left as int, codels@[i].top as int) == color && connected(
                    *img,
                    color,
                    *seed,
                    codels@[i],
                ) by {
                    if i < codels@.len() - 1 {
                        assert(old(codels)@[i] == codels@[i]);
                        assert(img.in_bounds(old(codels)@[i]));
                    } else {
                        assert(codels@[i] == *q);
                    }
                }
                // marking `q` leaves every other codel's mark unchanged
                assert forall|x: Position| img.in_bounds(x) implies (visited@[img.spec_index_of(x)]
                    == codels@.contains(x)) by {
                    img.lemma_index_of_bounds(x);
                    if x != *q {
                        img.lemma_index_of_injective(x, *q);
                        assert(old(codels)@.contains(x) == codels@.contains(x)) by {
                            if old(codels)@.contains(x) {
                                let ix = choose|ix: int|
                                    0 <= ix < old(codels)@.len() && old(codels)@[ix] == x;
                                assert(codels@[ix] == x);
                            } else if codels@.contains(x) {
                                let ix = choose|ix: int|
                                    0 <= ix < codels@.len() && codels@[ix] == x;
                                assert(old(codels)@[ix] == x);
                            }
                        }
                    } else {
                        assert(codels@[codels@.len() - 1] == *q);
                    }
                }
            }
        } else {
            proof {
                assert(old(visited)@[img.spec_index_of(*q)]);
                assert(old(codels)@.contains(*q));
            }
        }
    }
}

} // verus!
