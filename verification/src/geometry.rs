//! Movement and targeting geometry.
//!
//! Movement reachability explores the four orthogonal directions from an
//! origin; every cell entered is collected, and the walk branches again
//! from each entered cell with the remaining range budget, which models
//! movement around corners. Targeting gathers straight orthogonal rays
//! that stop at blocking terrain, united with a diagonal line-of-sight
//! scan in which each diagonal step costs two units of range and is
//! blocked only when both orthogonal neighbors adjacent to the step are
//! blocking.

use vstd::prelude::*;

use crate::grid::{Grid, GridV, BLOCKED, EMPTY};

verus! {

/// The set of coordinates denoted by a list of cells.
pub open spec fn cs_set(s: Seq<(usize, usize)>) -> Set<(int, int)> {
    Set::new(
        |p: (int, int)|
            exists|i: int| 0 <= i < s.len() && ((#[trigger] s[i]).0 as int, s[i].1 as int) == p,
    )
}

pub proof fn lemma_cs_push(s: Seq<(usize, usize)>, e: (usize, usize))
    ensures
        cs_set(s.push(e)) == cs_set(s).insert((e.0 as int, e.1 as int)),
{
    let lhs = cs_set(s.push(e));
    let rhs = cs_set(s).insert((e.0 as int, e.1 as int));
    assert forall|p: (int, int)| lhs.contains(p) implies rhs.contains(p) by {
        let i = choose|i: int|
            0 <= i < s.push(e).len() && ((#[trigger] s.push(e)[i]).0 as int, s.push(e)[i].1 as int)
                == p;
        if i < s.len() {
            assert(s[i] == s.push(e)[i]);
        } else {
            assert(s.push(e)[i] == e);
        }
    }
    assert forall|p: (int, int)| rhs.contains(p) implies lhs.contains(p) by {
        if p == (e.0 as int, e.1 as int) {
            assert(s.push(e)[s.len() as int] == e);
        } else {
            let i = choose|i: int|
                0 <= i < s.len() && ((#[trigger] s[i]).0 as int, s[i].1 as int) == p;
            assert(s.push(e)[i] == s[i]);
        }
    }
    assert(lhs =~= rhs);
}

/// A collection of grid coordinates, abstracted as a set.
#[derive(Debug)]
pub struct CellSet {
    pub cells: Vec<(usize, usize)>,
}

impl View for CellSet {
    type V = Set<(int, int)>;

    open spec fn view(&self) -> Set<(int, int)> {
        cs_set(self.cells@)
    }
}

impl CellSet {
    pub fn new() -> (r: Self)
        ensures
            r@ == Set::<(int, int)>::empty(),
            r.cells@.len() == 0,
    {
        let r = CellSet { cells: Vec::new() };
        assert(r@ =~= Set::<(int, int)>::empty());
        r
    }

    pub fn len(&self) -> (r: usize)
        ensures
            r == self.cells@.len(),
    {
        self.cells.len()
    }

    pub fn contains(&self, r: usize, c: usize) -> (b: bool)
        ensures
            b == self@.contains((r as int, c as int)),
    {
        let n = self.cells.len();
        let mut i: usize = 0;
        while i < n
            invariant
                0 <= i <= n,
                n == self.cells@.len(),
                forall|m: int|
                    0 <= m < i ==> ((#[trigger] self.cells@[m]).0 as int, self.cells@[m].1 as int)
                        != (r as int, c as int),
            decreases n - i,
        {
            let cell = self.cells[i];
            if cell.0 == r && cell.1 == c {
                assert((self.cells@[i as int].0 as int, self.cells@[i as int].1 as int) == (
                    r as int,
                    c as int,
                ));
                return true;
            }
            i = i + 1;
        }
        false
    }

    /// Adds a coordinate if it is not present yet.
    pub fn insert(&mut self, r: usize, c: usize)
        ensures
            final(self)@ == old(self)@.insert((r as int, c as int)),
    {
        if !self.contains(r, c) {
            let ghost prev = self.cells@;
            self.cells.push((r, c));
            proof {
                lemma_cs_push(prev, (r, c));
            }
        } else {
            assert(final(self)@ =~= old(self)@.insert((r as int, c as int)));
        }
    }

    /// Adds every coordinate of `other`.
    pub fn union_into(&mut self, other: &CellSet)
        ensures
            final(self)@ == old(self)@ + other@,
    {
        let n = other.cells.len();
        let mut i: usize = 0;
        assert(cs_set(other.cells@.take(0)) =~= Set::<(int, int)>::empty());
        while i < n
            invariant
                0 <= i <= n,
                n == other.cells@.len(),
                self@ =~= old(self)@ + cs_set(other.cells@.take(i as int)),
            decreases n - i,
        {
            let cell = other.cells[i];
            self.insert(cell.0, cell.1);
            proof {
                assert(other.cells@.take(i as int + 1).drop_last() =~= other.cells@.take(i as int));
                assert(other.cells@.take(i as int + 1).last() == other.cells@[i as int]);
                lemma_cs_push(other.cells@.take(i as int), other.cells@[i as int]);
            }
            i = i + 1;
        }
        assert(other.cells@.take(n as int) =~= other.cells@);
    }

    /// Drops a coordinate.
    pub fn remove(&mut self, r: usize, c: usize)
        ensures
            final(self)@ == old(self)@.remove((r as int, c as int)),
    {
        let ghost orig = self.cells@;
        let n = self.cells.len();
        let mut out: Vec<(usize, usize)> = Vec::new();
        let mut i: usize = 0;
        assert(cs_set(orig.take(0)) =~= Set::<(int, int)>::empty());
        while i < n
            invariant
                0 <= i <= n,
                n == orig.len(),
                orig == self.cells@,
                cs_set(out@) =~= cs_set(orig.take(i as int)).remove((r as int, c as int)),
            decreases n - i,
        {
            let cell = self.cells[i];
            proof {
                assert(orig.take(i as int + 1).drop_last() =~= orig.take(i as int));
                assert(orig.take(i as int + 1).last() == orig[i as int]);
                lemma_cs_push(orig.take(i as int), orig[i as int]);
            }
            if cell.0 != r || cell.1 != c {
                let ghost prevout = out@;
                out.push(cell);
                proof {
                    lemma_cs_push(prevout, cell);
                }
            }
            i = i + 1;
        }
        assert(orig.take(n as int) =~= orig);
        self.cells = out;
    }
}

/// Orthogonal step offsets: up, down, left, right.
pub open spec fn ortho_step(d: int) -> (int, int) {
    if d == 0 {
        (-1, 0)
    } else if d == 1 {
        (1, 0)
    } else if d == 2 {
        (0, -1)
    } else {
        (0, 1)
    }
}

/// Diagonal step offsets: up-right, up-left, down-right, down-left.
pub open spec fn diag_step(d: int) -> (int, int) {
    if d == 0 {
        (-1, 1)
    } else if d == 1 {
        (-1, -1)
    } else if d == 2 {
        (1, 1)
    } else {
        (1, -1)
    }
}

/// Cells reachable by movement from `(r, c)` within `range` units: the
/// union of the four branching orthogonal walks, with the origin removed.
pub open spec fn move_reach(g: GridV, r: int, c: int, range: int) -> Set<(int, int)>
    decreases range, 1int,
{
    if range <= 0 {
        Set::empty()
    } else {
        (move_ray(g, r, c, range, 0) + move_ray(g, r, c, range, 1) + move_ray(g, r, c, range, 2)
            + move_ray(g, r, c, range, 3)).remove((r, c))
    }
}

/// One straight movement walk: each step must enter an in-bounds empty
/// cell; every entered cell is collected and movement branches again from
/// it with the budget that remains.
pub open spec fn move_ray(g: GridV, r: int, c: int, budget: int, d: int) -> Set<(int, int)>
    decreases budget, 0int,
{
    if budget <= 0 {
        Set::empty()
    } else {
        let nr = r + ortho_step(d).0;
        let nc = c + ortho_step(d).1;
        if !g.in_bounds(nr, nc) || g.at(nr, nc) != EMPTY {
            Set::empty()
        } else {
            Set::empty().insert((nr, nc)) + move_reach(g, nr, nc, budget - 1) + move_ray(
                g,
                nr,
                nc,
                budget - 1,
                d,
            )
        }
    }
}

/// One straight targeting walk: blocking terrain stops the walk without
/// being collected, while any other cell is collected and scanned past.
pub open spec fn target_ray(g: GridV, r: int, c: int, budget: int, d: int) -> Set<(int, int)>
    decreases budget,
{
    if budget <= 0 {
        Set::empty()
    } else {
        let nr = r + ortho_step(d).0;
        let nc = c + ortho_step(d).1;
        if !g.in_bounds(nr, nc) || g.at(nr, nc) == BLOCKED {
            Set::empty()
        } else {
            Set::empty().insert((nr, nc)) + target_ray(g, nr, nc, budget - 1, d)
        }
    }
}

/// Whether the diagonal step `d` out of `(r, c)` is blocked: both
/// orthogonal neighbors adjacent to the step must be blocking terrain.
pub open spec fn corner_blocked(g: GridV, r: int, c: int, d: int) -> bool {
    g.at(r + diag_step(d).0, c) == BLOCKED && g.at(r, c + diag_step(d).1) == BLOCKED
}

/// One diagonal line-of-sight walk. Each step costs two units of budget;
/// a step is taken only when the destination is in bounds, the step is
/// not corner-blocked, and the destination is not blocking terrain.
pub open spec fn sight_ray(g: GridV, r: int, c: int, budget: int, d: int) -> Set<(int, int)>
    decreases budget,
{
    if budget <= 0 {
        Set::empty()
    } else {
        let nr = r + diag_step(d).0;
        let nc = c + diag_step(d).1;
        if !g.in_bounds(nr, nc) {
            Set::empty()
        } else if corner_blocked(g, r, c, d) {
            Set::empty()
        } else if g.at(nr, nc) == BLOCKED {
            Set::empty()
        } else {
            Set::empty().insert((nr, nc)) + sight_ray(
                g,
                nr,
                nc,
                if budget >= 2 {
                    budget - 2
                } else {
                    0
                },
                d,
            )
        }
    }
}

/// Cells visible along the four diagonals from `(r, c)`.
pub open spec fn line_of_sight(g: GridV, r: int, c: int, range: int) -> Set<(int, int)> {
    sight_ray(g, r, c, range, 0) + sight_ray(g, r, c, range, 1) + sight_ray(g, r, c, range, 2)
        + sight_ray(g, r, c, range, 3)
}

/// Cells targetable from `(r, c)`: straight orthogonal scans united with
/// the diagonal line-of-sight scan.
pub open spec fn target_reach(g: GridV, r: int, c: int, range: int) -> Set<(int, int)> {
    if range <= 0 {
        Set::empty()
    } else {
        target_ray(g, r, c, range, 0) + target_ray(g, r, c, range, 1) + target_ray(
            g,
            r,
            c,
            range,
            2,
        ) + target_ray(g, r, c, range, 3) + line_of_sight(g, r, c, range)
    }
}

/// The reachable set in the requested mode.
pub open spec fn action_range(g: GridV, r: int, c: int, range: int, target: bool) -> Set<
    (int, int),
> {
    if target {
        target_reach(g, r, c, range)
    } else {
        move_reach(g, r, c, range)
    }
}

} // verus!

verus! {

/// Executes one straight movement walk.
fn move_ray_exec(g: &Grid, r: usize, c: usize, budget: i32, d: u8) -> (res: CellSet)
    requires
        g@.wf(),
        g@.in_bounds(r as int, c as int),
        d < 4,
    ensures
        res@ == move_ray(g@, r as int, c as int, budget as int, d as int),
    decreases budget, 0int,
{
    if budget <= 0 {
        return CellSet::new();
    }
    let nr: usize;
    let nc: usize;
    if d == 0 {
        if r == 0 {
            return CellSet::new();
        }
        nr = r - 1;
        nc = c;
    } else if d == 1 {
        if r + 1 >= g.rows {
            return CellSet::new();
        }
        nr = r + 1;
        nc = c;
    } else if d == 2 {
        if c == 0 {
            return CellSet::new();
        }
        nr = r;
        nc = c - 1;
    } else {
        if c + 1 >= g.cols {
            return CellSet::new();
        }
        nr = r;
        nc = c + 1;
    }
    assert(nr as int == r as int + ortho_step(d as int).0);
    assert(nc as int == c as int + ortho_step(d as int).1);
    if g.at(nr, nc) != EMPTY {
        return CellSet::new();
    }
    let mut acc = CellSet::new();
    acc.insert(nr, nc);
    let sub = move_reach_exec(g, nr, nc, budget - 1);
    acc.union_into(&sub);
    let rest = move_ray_exec(g, nr, nc, budget - 1, d);
    acc.union_into(&rest);
    proof {
        assert(acc@ =~= move_ray(g@, r as int, c as int, budget as int, d as int));
    }
    acc
}

/// Computes the branching movement reachable set.
pub fn move_reach_exec(g: &Grid, r: usize, c: usize, range: i32) -> (res: CellSet)
    requires
        g@.wf(),
        g@.in_bounds(r as int, c as int),
    ensures
        res@ == move_reach(g@, r as int, c as int, range as int),
    decreases range, 1int,
{
    if range <= 0 {
        return CellSet::new();
    }
    let mut acc = CellSet::new();
    let ray0 = move_ray_exec(g, r, c, range, 0);
    acc.union_into(&ray0);
    let ray1 = move_ray_exec(g, r, c, range, 1);
    acc.union_into(&ray1);
    let ray2 = move_ray_exec(g, r, c, range, 2);
    acc.union_into(&ray2);
    let ray3 = move_ray_exec(g, r, c, range, 3);
    acc.union_into(&ray3);
    acc.remove(r, c);
    proof {
        assert(acc@ =~= move_reach(g@, r as int, c as int, range as int));
    }
    acc
}

/// Executes one straight targeting walk.
fn target_ray_exec(g: &Grid, r: usize, c: usize, budget: i32, d: u8) -> (res: CellSet)
    requires
        g@.wf(),
        g@.in_bounds(r as int, c as int),
        d < 4,
    ensures
        res@ == target_ray(g@, r as int, c as int, budget as int, d as int),
    decreases budget,
{
    if budget <= 0 {
        return CellSet::new();
    }
    let nr: usize;
    let nc: usize;
    if d == 0 {
        if r == 0 {
            return CellSet::new();
        }
        nr = r - 1;
        nc = c;
    } else if d == 1 {
        if r + 1 >= g.rows {
            return CellSet::new();
        }
        nr = r + 1;
        nc = c;
    } else if d == 2 {
        if c == 0 {
            return CellSet::new();
        }
        nr = r;
        nc = c - 1;
    } else {
        if c + 1 >= g.cols {
            return CellSet::new();
        }
        nr = r;
        nc = c + 1;
    }
    assert(nr as int == r as int + ortho_step(d as int).0);
    assert(nc as int == c as int + ortho_step(d as int).1);
    if g.at(nr, nc) == BLOCKED {
        return CellSet::new();
    }
    let mut acc = CellSet::new();
    acc.insert(nr, nc);
    let rest = target_ray_exec(g, nr, nc, budget - 1, d);
    acc.union_into(&rest);
    proof {
        assert(acc@ =~= target_ray(g@, r as int, c as int, budget as int, d as int));
    }
    acc
}

/// Executes one diagonal line-of-sight walk.
fn sight_ray_exec(g: &Grid, r: usize, c: usize, budget: i32, d: u8) -> (res: CellSet)
    requires
        g@.wf(),
        g@.in_bounds(r as int, c as int),
        d < 4,
    ensures
        res@ == sight_ray(g@, r as int, c as int, budget as int, d as int),
    decreases budget,
{
    if budget <= 0 {
        return CellSet::new();
    }
    let nr: usize;
    let nc: usize;
    if d == 0 {
        if r == 0 || c + 1 >= g.cols {
            return CellSet::new();
        }
        nr = r - 1;
        nc = c + 1;
    } else if d == 1 {
        if r == 0 || c == 0 {
            return CellSet::new();
        }
        nr = r - 1;
        nc = c - 1;
    } else if d == 2 {
        if r + 1 >= g.rows || c + 1 >= g.cols {
            return CellSet::new();
        }
        nr = r + 1;
        nc = c + 1;
    } else {
        if r + 1 >= g.rows || c == 0 {
            return CellSet::new();
        }
        nr = r + 1;
        nc = c - 1;
    }
    assert(nr as int == r as int + diag_step(d as int).0);
    assert(nc as int == c as int + diag_step(d as int).1);
    let vert = g.at(nr, c);
    let horiz = g.at(r, nc);
    if vert == BLOCKED && horiz == BLOCKED {
        assert(corner_blocked(g@, r as int, c as int, d as int));
        return CellSet::new();
    }
    assert(!corner_blocked(g@, r as int, c as int, d as int));
    if g.at(nr, nc) == BLOCKED {
        return CellSet::new();
    }
    let mut acc = CellSet::new();
    acc.insert(nr, nc);
    let next_budget = if budget >= 2 {
        budget - 2
    } else {
        0
    };
    let rest = sight_ray_exec(g, nr, nc, next_budget, d);
    acc.union_into(&rest);
    proof {
        assert(acc@ =~= sight_ray(g@, r as int, c as int, budget as int, d as int));
    }
    acc
}

/// Computes the targetable set: straight scans united with line of sight.
pub fn target_reach_exec(g: &Grid, r: usize, c: usize, range: i32) -> (res: CellSet)
    requires
        g@.wf(),
        g@.in_bounds(r as int, c as int),
    ensures
        res@ == target_reach(g@, r as int, c as int, range as int),
{
    if range <= 0 {
        return CellSet::new();
    }
    let mut acc = CellSet::new();
    let ray0 = target_ray_exec(g, r, c, range, 0);
    acc.union_into(&ray0);
    let ray1 = target_ray_exec(g, r, c, range, 1);
    acc.union_into(&ray1);
    let ray2 = target_ray_exec(g, r, c, range, 2);
    acc.union_into(&ray2);
    let ray3 = target_ray_exec(g, r, c, range, 3);
    acc.union_into(&ray3);
    let sight0 = sight_ray_exec(g, r, c, range, 0);
    acc.union_into(&sight0);
    let sight1 = sight_ray_exec(g, r, c, range, 1);
    acc.union_into(&sight1);
    let sight2 = sight_ray_exec(g, r, c, range, 2);
    acc.union_into(&sight2);
    let sight3 = sight_ray_exec(g, r, c, range, 3);
    acc.union_into(&sight3);
    proof {
        assert(acc@ =~= target_reach(g@, r as int, c as int, range as int));
    }
    acc
}

/// Computes the reachable set in the requested mode: straight-line
/// targeting with line of sight, or branching movement.
pub fn get_action_range(g: &Grid, src_row: usize, src_col: usize, range: i32, target: bool) -> (res:
    CellSet)
    requires
        g@.wf(),
        g@.in_bounds(src_row as int, src_col as int),
    ensures
        res@ == action_range(g@, src_row as int, src_col as int, range as int, target),
{
    if target {
        target_reach_exec(g, src_row, src_col, range)
    } else {
        move_reach_exec(g, src_row, src_col, range)
    }
}

/// Computes the diagonal line-of-sight set alone.
pub fn get_line_of_sight(g: &Grid, src_row: usize, src_col: usize, range: i32) -> (res: CellSet)
    requires
        g@.wf(),
        g@.in_bounds(src_row as int, src_col as int),
    ensures
        res@ == line_of_sight(g@, src_row as int, src_col as int, range as int),
{
    let mut acc = CellSet::new();
    let sight0 = sight_ray_exec(g, src_row, src_col, range, 0);
    acc.union_into(&sight0);
    let sight1 = sight_ray_exec(g, src_row, src_col, range, 1);
    acc.union_into(&sight1);
    let sight2 = sight_ray_exec(g, src_row, src_col, range, 2);
    acc.union_into(&sight2);
    let sight3 = sight_ray_exec(g, src_row, src_col, range, 3);
    acc.union_into(&sight3);
    proof {
        assert(acc@ =~= line_of_sight(g@, src_row as int, src_col as int, range as int));
    }
    acc
}

} // verus!

verus! {

/// Safety of one movement walk: every collected cell is an in-bounds
/// empty cell.
pub proof fn lemma_move_ray_safe(g: GridV, r: int, c: int, budget: int, d: int)
    requires
        g.wf(),
        g.in_bounds(r, c),
    ensures
        forall|p: (int, int)|
            #[trigger] move_ray(g, r, c, budget, d).contains(p) ==> g.in_bounds(p.0, p.1) && g.at(
                p.0,
                p.1,
            ) == EMPTY,
    decreases budget, 0int,
{
    if budget > 0 {
        let nr = r + ortho_step(d).0;
        let nc = c + ortho_step(d).1;
        if g.in_bounds(nr, nc) && g.at(nr, nc) == EMPTY {
            lemma_move_reach_safe(g, nr, nc, budget - 1);
            lemma_move_ray_safe(g, nr, nc, budget - 1, d);
            assert forall|p: (int, int)| #[trigger] move_ray(g, r, c, budget, d).contains(p)
                implies g.in_bounds(p.0, p.1) && g.at(p.0, p.1) == EMPTY by {
                if p == (nr, nc) {
                } else if move_reach(g, nr, nc, budget - 1).contains(p) {
                } else {
                    assert(move_ray(g, nr, nc, budget - 1, d).contains(p));
                }
            }
        }
    }
}

/// The movement-mode reachable set never contains the origin and never
/// contains an occupied cell: every member is an in-bounds cell marked
/// empty, and differs from the origin.
pub proof fn lemma_move_reach_safe(g: GridV, r: int, c: int, range: int)
    requires
        g.wf(),
        g.in_bounds(r, c),
    ensures
        forall|p: (int, int)|
            #[trigger] move_reach(g, r, c, range).contains(p) ==> p != (r, c) && g.in_bounds(
                p.0,
                p.1,
            ) && g.at(p.0, p.1) == EMPTY,
    decreases range, 1int,
{
    if range > 0 {
        lemma_move_ray_safe(g, r, c, range, 0);
        lemma_move_ray_safe(g, r, c, range, 1);
        lemma_move_ray_safe(g, r, c, range, 2);
        lemma_move_ray_safe(g, r, c, range, 3);
        assert forall|p: (int, int)| #[trigger] move_reach(g, r, c, range).contains(p) implies p
            != (r, c) && g.in_bounds(p.0, p.1) && g.at(p.0, p.1) == EMPTY by {
            if move_ray(g, r, c, range, 0).contains(p) {
            } else if move_ray(g, r, c, range, 1).contains(p) {
            } else if move_ray(g, r, c, range, 2).contains(p) {
            } else {
                assert(move_ray(g, r, c, range, 3).contains(p));
            }
        }
    }
}

/// Corner rule of the line-of-sight scan, at any step of the walk: with
/// budget left and an in-bounds, non-blocking destination, the diagonal
/// step is taken exactly when it is not corner-blocked — one adjacent
/// wall does not block the step, two perpendicular adjacent walls do.
pub proof fn lemma_sight_step_corner_rule(g: GridV, r: int, c: int, budget: int, d: int)
    requires
        g.wf(),
        g.in_bounds(r, c),
        budget > 0,
        g.in_bounds(r + diag_step(d).0, c + diag_step(d).1),
        g.at(r + diag_step(d).0, c + diag_step(d).1) != BLOCKED,
    ensures
        sight_ray(g, r, c, budget, d).contains((r + diag_step(d).0, c + diag_step(d).1))
            <==> !corner_blocked(g, r, c, d),
        corner_blocked(g, r, c, d) <==> (g.at(r + diag_step(d).0, c) == BLOCKED && g.at(
            r,
            c + diag_step(d).1,
        ) == BLOCKED),
{
    let nr = r + diag_step(d).0;
    let nc = c + diag_step(d).1;
    if corner_blocked(g, r, c, d) {
        assert(sight_ray(g, r, c, budget, d) == Set::<(int, int)>::empty());
    } else {
        assert(sight_ray(g, r, c, budget, d).contains((nr, nc)));
    }
}

} // verus!
