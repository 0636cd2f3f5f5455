//! The grid index: a world of square cells, each holding the identifiers of
//! the entities that stand in it, and the queries that narrow a collision
//! test to the cells a movement can reach.

use vstd::prelude::*;
use vstd::arithmetic::div_mod::{lemma_div_is_ordered, lemma_fundamental_div_mod,
    lemma_fundamental_div_mod_converse};
use vstd::std_specs::iter::IteratorSpec;
use std::collections::HashSet;
use crate::game_lib::{GameLib, GameObjConfig, GameObjSide};
use crate::game_obj::{DeadGameObjInfo, DespawnPool, GameObjInfo, GameObjInfoLib};
use crate::mytypes::{clamp, valid_direction, valid_pos, valid_span, valid_unit, Vec2, POS_MAX,
    SPAN_MAX, UNIT_MAX};
use crate::utils::{clamped_to_bounds, collide_bounds_nonpass, collide_bounds_pass,
    collide_obj_nonpass, collide_obj_pass, inside_bounds, overlaps, slide_pos, sweep, swept_pos};

verus! {

/// A cell of the grid, by row and column.
#[derive(Clone, Copy, Debug, PartialEq, Eq, Structural)]
pub struct MapPos {
    pub row: usize,
    pub col: usize,
}

/// The world: a rectangle of `row_count x col_count` square cells.
#[derive(Debug)]
pub struct GameMap {
    cell_size: i64,
    width: i64,
    height: i64,
    map: Vec<Vec<HashSet<u64>>>,
    max_collide_span: i64,
}

/// `(row, col)` lies in the inclusive cell range from `start` to `end`.
pub open spec fn in_region(start: MapPos, end: MapPos, row: int, col: int) -> bool {
    start.row <= row <= end.row && start.col <= col <= end.col
}

/// In the row-major walk of the range from `start` to `end`, the cell
/// `(r, c)` comes before the cell `(row, col)`.
pub open spec fn walked_before(start: MapPos, end: MapPos, row: int, col: int, r: int, c: int)
    -> bool {
    in_region(start, end, r, c) && (r < row || (r == row && c < col))
}

/// `e` is a registered body, other than `mover`, that is not marked dead
/// and that stops blocking movers and is hit by projectiles.
pub open spec fn is_live_obstacle(
    lib: Map<u64, GameObjInfo>,
    pool: Map<u64, DeadGameObjInfo>,
    mover: u64,
    e: u64,
) -> bool {
    lib.contains_key(e) && e != mover && !pool.contains_key(e) && lib[e].is_obstacle()
}

/// A projectile of `side` with half-extent `span` at `pos` overlaps a live
/// obstacle of another side.
pub open spec fn missile_hits(
    lib: Map<u64, GameObjInfo>,
    pool: Map<u64, DeadGameObjInfo>,
    mover: u64,
    side: GameObjSide,
    pos: Vec2,
    span: i64,
) -> bool {
    exists|e: u64| #[trigger]
        is_live_obstacle(lib, pool, mover, e) && lib[e].side != side && overlaps(
            pos,
            span,
            lib[e].pos,
            lib[e].collide_span,
        )
}

/// One pass of the pairwise resolver: `acc` is whether the mover was stopped
/// so far and where it stands; `e` is the next candidate. A candidate that
/// is no obstacle, or that the mover does not overlap, changes nothing.
pub open spec fn slide_step(
    lib: Map<u64, GameObjInfo>,
    mover: u64,
    span: i64,
    direction: Vec2,
    acc: (bool, Vec2),
    e: u64,
) -> (bool, Vec2) {
    if lib.contains_key(e) && e != mover && lib[e].is_obstacle() && overlaps(
        acc.1,
        span,
        lib[e].pos,
        lib[e].collide_span,
    ) {
        (true, slide_pos(acc.1, span, direction, lib[e].pos, lib[e].collide_span))
    } else {
        acc
    }
}

/// The pairwise resolver applied to the candidates of `order` one after
/// another, each pass starting from where the pass before left the mover.
pub open spec fn slide_through(
    lib: Map<u64, GameObjInfo>,
    mover: u64,
    span: i64,
    direction: Vec2,
    start: Vec2,
    order: Seq<u64>,
) -> (bool, Vec2)
    decreases order.len(),
{
    if order.len() == 0 {
        (false, start)
    } else {
        slide_step(
            lib,
            mover,
            span,
            direction,
            slide_through(lib, mover, span, direction, start, order.drop_last()),
            order.last(),
        )
    }
}

/// A candidate without a registry entry changes nothing: the pairwise
/// passes over `order` come to what they come to without it.
pub proof fn lemma_slide_passes_over_unregistered(
    lib: Map<u64, GameObjInfo>,
    mover: u64,
    span: i64,
    direction: Vec2,
    start: Vec2,
    order: Seq<u64>,
    i: int,
)
    requires
        0 <= i < order.len(),
        !lib.contains_key(order[i]),
    ensures
        slide_through(lib, mover, span, direction, start, order) == slide_through(
            lib,
            mover,
            span,
            direction,
            start,
            order.remove(i),
        ),
    decreases order.len(),
{
    if i == order.len() - 1 {
        assert(order.remove(i) =~= order.drop_last());
    } else {
        lemma_slide_passes_over_unregistered(
            lib,
            mover,
            span,
            direction,
            start,
            order.drop_last(),
            i,
        );
        assert(order.remove(i).drop_last() =~= order.drop_last().remove(i));
        assert(order.remove(i).last() == order.last());
    }
}

impl GameMap {
    /// Side of a cell.
    pub closed spec fn spec_cell_size(&self) -> i64 {
        self.cell_size
    }

    /// Extent of the world along x.
    pub closed spec fn spec_width(&self) -> i64 {
        self.width
    }

    /// Extent of the world along y.
    pub closed spec fn spec_height(&self) -> i64 {
        self.height
    }

    /// Number of rows.
    pub closed spec fn spec_row_count(&self) -> nat {
        self.map@.len()
    }

    /// Number of columns.
    pub closed spec fn spec_col_count(&self) -> nat {
        if self.map@.len() > 0 {
            self.map@[0]@.len()
        } else {
            0
        }
    }

    /// The largest span among all entities ever added.
    pub closed spec fn spec_max_collide_span(&self) -> i64 {
        self.max_collide_span
    }

    /// The identifiers held by the cell at `(row, col)`.
    pub closed spec fn cell(&self, row: int, col: int) -> Set<u64> {
        self.map@[row]@[col]@
    }

    /// Every row has the same number of cells.
    pub closed spec fn rectangular(&self) -> bool {
        forall|r: int| 0 <= r < self.map@.len() ==> (#[trigger] self.map@[r])@.len() == self.map@[0]@.len()
    }

    /// `(row, col)` names a cell of this world.
    pub open spec fn has_cell(&self, row: int, col: int) -> bool {
        0 <= row < self.spec_row_count() && 0 <= col < self.spec_col_count()
    }

    /// `pos` names a cell of this world.
    pub open spec fn has_pos(&self, pos: MapPos) -> bool {
        self.has_cell(pos.row as int, pos.col as int)
    }

    /// The cell at `(row, col)` exists and holds `entity`.
    pub open spec fn holds(&self, row: int, col: int, entity: u64) -> bool {
        self.has_cell(row, col) && self.cell(row, col).contains(entity)
    }

    /// The invariant of a world: at least one cell, cells of a positive
    /// size, and extents that are the cell counts times that size.
    pub open spec fn wf(&self) -> bool {
        &&& self.rectangular()
        &&& 1 <= self.spec_row_count() <= usize::MAX
        &&& 1 <= self.spec_col_count() <= usize::MAX
        &&& self.spec_cell_size() > 0
        &&& self.spec_width() == self.spec_col_count() * self.spec_cell_size()
        &&& self.spec_height() == self.spec_row_count() * self.spec_cell_size()
        &&& self.spec_width() <= SPAN_MAX
        &&& self.spec_height() <= SPAN_MAX
        &&& 0 <= self.spec_max_collide_span() <= SPAN_MAX
    }

    /// No identifier stands in two cells.
    pub open spec fn cells_disjoint(&self) -> bool {
        forall|r1: int, c1: int, r2: int, c2: int, e: u64|
            #[trigger] self.holds(r1, c1, e) && #[trigger] self.holds(r2, c2, e) ==> r1 == r2 && c1
                == c2
    }

    /// `entity` stands in two cells at once.
    pub open spec fn stands_twice(&self, entity: u64) -> bool {
        exists|r1: int, c1: int, r2: int, c2: int|
            #![trigger self.holds(r1, c1, entity), self.holds(r2, c2, entity)]
            self.holds(r1, c1, entity) && self.holds(r2, c2, entity) && !(r1 == r2 && c1 == c2)
    }

    /// `entity` stands in some cell of the range from `start` to `end`.
    pub open spec fn region_holds(&self, start: MapPos, end: MapPos, entity: u64) -> bool {
        exists|r: int, c: int| in_region(start, end, r, c) && #[trigger] self.holds(r, c, entity)
    }

    /// The point lies in the world: it has a cell.
    pub open spec fn contains_point(&self, pos: Vec2) -> bool {
        0 <= pos.x < self.spec_width() && 0 <= pos.y < self.spec_height()
    }

    /// Index, along one axis, of the cell that holds the coordinate `s`:
    /// `s` over the cell size, rounded down.
    pub open spec fn map_index(&self, s: int) -> int {
        s / (self.spec_cell_size() as int)
    }

    /// The cell that holds the point `pos`, unclamped.
    pub open spec fn cell_of(&self, pos: Vec2) -> (int, int) {
        (self.map_index(pos.y as int), self.map_index(pos.x as int))
    }

    /// Row of the coordinate `y`, brought into the rows of the world.
    pub open spec fn clamped_row(&self, y: int) -> int {
        clamp(self.map_index(y), 0, self.spec_row_count() - 1)
    }

    /// Column of the coordinate `x`, brought into the columns of the world.
    pub open spec fn clamped_col(&self, x: int) -> int {
        clamp(self.map_index(x), 0, self.spec_col_count() - 1)
    }

    /// The inclusive cell range that covers the rectangle from
    /// `(left, bottom)` to `(right, top)`, each index clamped on its own.
    pub open spec fn map_region(&self, left: int, bottom: int, right: int, top: int) -> (
        MapPos,
        MapPos,
    ) {
        (
            MapPos { row: self.clamped_row(bottom) as usize, col: self.clamped_col(left) as usize },
            MapPos { row: self.clamped_row(top) as usize, col: self.clamped_col(right) as usize },
        )
    }

    /// The cell range a mover of half-extent `collide_span` can meet another
    /// body in while it goes from `start_pos` to `end_pos`: the rectangle
    /// around both end points, widened on every side by the mover's span
    /// and by the largest span in the world.
    pub open spec fn collide_region(&self, start_pos: Vec2, end_pos: Vec2, collide_span: i64) -> (
        MapPos,
        MapPos,
    ) {
        let span = collide_span + self.spec_max_collide_span();
        let min_x = if start_pos.x <= end_pos.x { start_pos.x } else { end_pos.x };
        let max_x = if start_pos.x <= end_pos.x { end_pos.x } else { start_pos.x };
        let min_y = if start_pos.y <= end_pos.y { start_pos.y } else { end_pos.y };
        let max_y = if start_pos.y <= end_pos.y { end_pos.y } else { start_pos.y };
        self.map_region(min_x - span, min_y - span, max_x + span, max_y + span)
    }

    /// A world of `row_count x col_count` empty cells of side `cell_size`.
    pub fn new(cell_size: i64, row_count: usize, col_count: usize) -> (map: GameMap)
        requires
            cell_size > 0,
            row_count >= 1,
            col_count >= 1,
            col_count * cell_size <= SPAN_MAX,
            row_count * cell_size <= SPAN_MAX,
        ensures
            map.wf(),
            map.spec_cell_size() == cell_size,
            map.spec_row_count() == row_count,
            map.spec_col_count() == col_count,
            map.spec_max_collide_span() == 0,
            forall|r: int, c: int| map.has_cell(r, c) ==> #[trigger] map.cell(r, c) == Set::<u64>::empty(),
    {
        assert(col_count <= SPAN_MAX && row_count <= SPAN_MAX) by (nonlinear_arith)
            requires
                cell_size > 0,
                col_count * cell_size <= SPAN_MAX,
                row_count * cell_size <= SPAN_MAX,
        ;
        let mut map: Vec<Vec<HashSet<u64>>> = Vec::new();
        let mut r: usize = 0;
        while r < row_count
            invariant
                r <= row_count,
                map@.len() == r,
                forall|i: int| 0 <= i < r ==> (#[trigger] map@[i])@.len() == col_count,
                forall|i: int, j: int|
                    0 <= i < r && 0 <= j < col_count ==> (#[trigger] map@[i]@[j])@ == Set::<
                        u64,
                    >::empty(),
            decreases row_count - r,
        {
            let mut row: Vec<HashSet<u64>> = Vec::new();
            let mut c: usize = 0;
            while c < col_count
                invariant
                    c <= col_count,
                    row@.len() == c,
                    forall|j: int| 0 <= j < c ==> (#[trigger] row@[j])@ == Set::<u64>::empty(),
                decreases col_count - c,
            {
                row.push(HashSet::new());
                c += 1;
            }
            map.push(row);
            r += 1;
        }
        GameMap {
            cell_size,
            width: col_count as i64 * cell_size,
            height: row_count as i64 * cell_size,
            map,
            max_collide_span: 0,
        }
    }

    pub fn row_count(&self) -> (n: usize)
        ensures
            n == self.spec_row_count(),
    {
        self.map.len()
    }

    pub fn col_count(&self) -> (n: usize)
        requires
            self.wf(),
        ensures
            n == self.spec_col_count(),
    {
        self.map[0].len()
    }

    pub fn cell_size(&self) -> (s: i64)
        ensures
            s == self.spec_cell_size(),
    {
        self.cell_size
    }

    pub fn width(&self) -> (w: i64)
        ensures
            w == self.spec_width(),
    {
        self.width
    }

    pub fn height(&self) -> (h: i64)
        ensures
            h == self.spec_height(),
    {
        self.height
    }

    pub fn max_collide_span(&self) -> (s: i64)
        ensures
            s == self.spec_max_collide_span(),
    {
        self.max_collide_span
    }

    /// Whether a body of half-extent `collide_span` at `pos` stands inside
    /// the world, clear of the far edges.
    pub fn is_inside(&self, pos: &Vec2, collide_span: i64) -> (b: bool)
        requires
            valid_pos(*pos),
            valid_span(collide_span),
        ensures
            b == (pos.x >= collide_span && pos.x + collide_span < self.spec_width() && pos.y
                >= collide_span && pos.y + collide_span < self.spec_height()),
            b ==> self.contains_point(*pos),
    {
        pos.x >= collide_span && pos.x + collide_span < self.width && pos.y >= collide_span
            && pos.y + collide_span < self.height
    }

    /// Index of the cell that holds the coordinate `s`, along either axis.
    /// It is not clamped: it is negative left of the world, and reaches the
    /// cell count and beyond right of it.
    pub fn get_map_index(&self, s: i64) -> (i: i64)
        requires
            self.wf(),
        ensures
            i == self.map_index(s as int),
    {
        let cs: i64 = self.cell_size;
        if s >= 0 {
            s / cs
        } else {
            let t: i64 = -(s + 1);
            let q: i64 = t / cs;
            proof {
                let r = (t as int) % (cs as int);
                lemma_fundamental_div_mod(t as int, cs as int);
                assert(s as int == (-(q as int) - 1) * (cs as int) + (cs - 1 - r)) by (nonlinear_arith)
                    requires
                        t as int == (cs as int) * (q as int) + r,
                        t == -(s + 1),
                ;
                lemma_fundamental_div_mod_converse(s as int, cs as int, -(q as int) - 1, cs - 1 - r);
            }
            -q - 1
        }
    }

    /// The cell that holds a point of the world.
    pub fn get_map_pos(&self, pos: &Vec2) -> (map_pos: MapPos)
        requires
            self.wf(),
            self.contains_point(*pos),
        ensures
            self.has_pos(map_pos),
            (map_pos.row as int, map_pos.col as int) == self.cell_of(*pos),
    {
        proof {
            self.lemma_point_has_cell(*pos);
        }
        let rows = self.map.len();
        let cols = self.map[0].len();
        let row = self.get_map_index(pos.y);
        let col = self.get_map_index(pos.x);
        MapPos { row: row as usize, col: col as usize }
    }

    /// Row of the coordinate `y`, brought into `[0, row_count - 1]`.
    pub fn clamp_row(&self, y: i64) -> (row: usize)
        requires
            self.wf(),
        ensures
            row == self.clamped_row(y as int),
            row < self.spec_row_count(),
    {
        proof {
            self.lemma_counts_bounded();
        }
        let i = self.get_map_index(y);
        let last = self.map.len() - 1;
        if i < 0 {
            0
        } else if i > last as i64 {
            last
        } else {
            i as usize
        }
    }

    /// Column of the coordinate `x`, brought into `[0, col_count - 1]`.
    pub fn clamp_col(&self, x: i64) -> (col: usize)
        requires
            self.wf(),
        ensures
            col == self.clamped_col(x as int),
            col < self.spec_col_count(),
    {
        proof {
            self.lemma_counts_bounded();
        }
        let i = self.get_map_index(x);
        let last = self.map[0].len() - 1;
        if i < 0 {
            0
        } else if i > last as i64 {
            last
        } else {
            i as usize
        }
    }

    /// The cell range to search for a blocking mover that goes from
    /// `start_pos` to `end_pos`.
    pub fn get_collide_region_nonpass(&self, start_pos: &Vec2, end_pos: &Vec2, collide_span: i64)
        -> (region: (MapPos, MapPos))
        requires
            self.wf(),
            valid_pos(*start_pos),
            valid_pos(*end_pos),
            valid_span(collide_span),
        ensures
            region == self.collide_region(*start_pos, *end_pos, collide_span),
            self.has_pos(region.0),
            self.has_pos(region.1),
            region.0.row <= region.1.row,
            region.0.col <= region.1.col,
    {
        let span: i64 = collide_span + self.max_collide_span;
        let min_x: i64 = if start_pos.x <= end_pos.x { start_pos.x } else { end_pos.x };
        let max_x: i64 = if start_pos.x <= end_pos.x { end_pos.x } else { start_pos.x };
        let min_y: i64 = if start_pos.y <= end_pos.y { start_pos.y } else { end_pos.y };
        let max_y: i64 = if start_pos.y <= end_pos.y { end_pos.y } else { start_pos.y };
        self.get_map_region(min_x - span, min_y - span, max_x + span, max_y + span)
    }

    /// The cell range to search around a body that stands at `pos`: the
    /// range of a movement that starts and ends there.
    pub fn get_collide_region_pass(&self, pos: &Vec2, collide_span: i64) -> (region: (
        MapPos,
        MapPos,
    ))
        requires
            self.wf(),
            valid_pos(*pos),
            valid_span(collide_span),
        ensures
            region == self.collide_region(*pos, *pos, collide_span),
            self.has_pos(region.0),
            self.has_pos(region.1),
            region.0.row <= region.1.row,
            region.0.col <= region.1.col,
    {
        let span: i64 = collide_span + self.max_collide_span;
        self.get_map_region(pos.x - span, pos.y - span, pos.x + span, pos.y + span)
    }

    /// The inclusive cell range that covers a rectangle of the plane.
    pub fn get_map_region(&self, left: i64, bottom: i64, right: i64, top: i64) -> (region: (
        MapPos,
        MapPos,
    ))
        requires
            self.wf(),
            left <= right,
            bottom <= top,
        ensures
            region == self.map_region(left as int, bottom as int, right as int, top as int),
            self.has_pos(region.0),
            self.has_pos(region.1),
            region.0.row <= region.1.row,
            region.0.col <= region.1.col,
    {
        proof {
            lemma_div_is_ordered(left as int, right as int, self.cell_size as int);
            lemma_div_is_ordered(bottom as int, top as int, self.cell_size as int);
        }
        (
            MapPos { row: self.clamp_row(bottom), col: self.clamp_col(left) },
            MapPos { row: self.clamp_row(top), col: self.clamp_col(right) },
        )
    }

    /// Whether the cell at `pos` holds `entity`.
    pub fn cell_contains(&self, pos: &MapPos, entity: u64) -> (b: bool)
        requires
            self.wf(),
            self.has_pos(*pos),
        ensures
            b == self.cell(pos.row as int, pos.col as int).contains(entity),
    {
        broadcast use vstd::std_specs::hash::group_hash_axioms;

        self.map[pos.row][pos.col].contains(&entity)
    }

    /// Puts `entity` into the cell at `pos`. Every other cell stays as it is.
    pub fn insert_obj(&mut self, pos: &MapPos, entity: u64)
        requires
            old(self).wf(),
            old(self).has_pos(*pos),
        ensures
            final(self).wf(),
            final(self).same_frame(old(self)),
            final(self).cell(pos.row as int, pos.col as int) == old(self).cell(
                pos.row as int,
                pos.col as int,
            ).insert(entity),
            forall|r: int, c: int|
                old(self).has_cell(r, c) && !(r == pos.row && c == pos.col) ==> #[trigger] final(self).cell(r, c) == old(self).cell(r, c),
    {
        broadcast use vstd::std_specs::hash::group_hash_axioms;

        self.map[pos.row][pos.col].insert(entity);
        assert(self.map@[0]@.len() == old(self).map@[0]@.len());
    }

    /// Takes `entity` out of the cell at `pos`; nothing happens if the cell
    /// does not hold it. Every other cell stays as it is.
    pub fn remove_obj(&mut self, pos: &MapPos, entity: &u64)
        requires
            old(self).wf(),
            old(self).has_pos(*pos),
        ensures
            final(self).wf(),
            final(self).same_frame(old(self)),
            final(self).cell(pos.row as int, pos.col as int) == old(self).cell(
                pos.row as int,
                pos.col as int,
            ).remove(*entity),
            forall|r: int, c: int|
                old(self).has_cell(r, c) && !(r == pos.row && c == pos.col) ==> #[trigger] final(self).cell(r, c) == old(self).cell(r, c),
    {
        broadcast use vstd::std_specs::hash::group_hash_axioms;

        self.map[pos.row][pos.col].remove(entity);
        assert(self.map@[0]@.len() == old(self).map@[0]@.len());
    }

    /// Moves `entity` from the cell at `old_pos` to the cell at `new_pos`.
    /// Nothing happens when the two are the same cell.
    pub fn relocate(&mut self, entity: &u64, old_pos: &MapPos, new_pos: &MapPos)
        requires
            old(self).wf(),
            old(self).has_pos(*old_pos),
            old(self).has_pos(*new_pos),
        ensures
            final(self).wf(),
            final(self).same_frame(old(self)),
            *old_pos == *new_pos ==> forall|r: int, c: int|
                old(self).has_cell(r, c) ==> #[trigger] final(self).cell(r, c) == old(self).cell(
                    r,
                    c,
                ),
            *old_pos != *new_pos ==> {
                &&& final(self).cell(old_pos.row as int, old_pos.col as int) == old(self).cell(
                    old_pos.row as int,
                    old_pos.col as int,
                ).remove(*entity)
                &&& final(self).cell(new_pos.row as int, new_pos.col as int) == old(self).cell(
                    new_pos.row as int,
                    new_pos.col as int,
                ).insert(*entity)
                &&& forall|r: int, c: int|
                    old(self).has_cell(r, c) && !(r == old_pos.row && c == old_pos.col) && !(r
                        == new_pos.row && c == new_pos.col) ==> #[trigger] final(self).cell(r, c)
                        == old(self).cell(r, c)
            },
    {
        if old_pos.row == new_pos.row && old_pos.col == new_pos.col {
            return ;
        }
        self.remove_obj(old_pos, entity);
        self.insert_obj(new_pos, *entity);
    }

    /// `entity` stands in a cell that the row-major walk of the range from
    /// `start` to `end` passes before it comes to `(row, col)`.
    pub open spec fn seen_before(&self, start: MapPos, end: MapPos, row: int, col: int, entity: u64)
        -> bool {
        exists|r: int, c: int|
            walked_before(start, end, row, col, r, c) && #[trigger] self.holds(r, c, entity)
    }

    /// Appends to `ids` the entities of one cell that are not marked dead.
    fn append_cell(&self, row: usize, col: usize, despawn_pool: &DespawnPool, ids: &mut Vec<u64>)
        requires
            self.wf(),
            self.has_cell(row as int, col as int),
        ensures
            final(ids)@.len() >= old(ids)@.len(),
            final(ids)@.subrange(0, old(ids)@.len() as int) == old(ids)@,
            forall|i: int|
                old(ids)@.len() <= i < final(ids)@.len() ==> self.cell(row as int, col as int).contains(
                    #[trigger] final(ids)@[i],
                ) && !despawn_pool@.contains_key(final(ids)@[i]),
            forall|e: u64|
                self.cell(row as int, col as int).contains(e) && !despawn_pool@.contains_key(e)
                    ==> final(ids)@.contains(e),
            forall|i: int, j: int|
                old(ids)@.len() <= i < j < final(ids)@.len() ==> final(ids)@[i] != final(ids)@[j],
    {
        broadcast use vstd::std_specs::hash::group_hash_axioms;

        let cell = &self.map[row][col];
        let ghost before = ids@;
        let ghost full: Seq<u64> = cell.iter().remaining().unref();
        for e in it: cell.iter()
            invariant
                it.seq().unref() == full,
                full.no_duplicates(),
                full.to_set() == cell@,
                ids@.len() >= before.len(),
                ids@.subrange(0, before.len() as int) == before,
                forall|i: int|
                    before.len() <= i < ids@.len() ==> cell@.contains(#[trigger] ids@[i])
                        && !despawn_pool@.contains_key(ids@[i]),
                forall|i: int, k: int|
                    before.len() <= i < ids@.len() && it.index() <= k < full.len() ==> ids@[i]
                        != full[k],
                forall|k: int|
                    0 <= k < it.index() && !despawn_pool@.contains_key(#[trigger] full[k])
                        ==> ids@.contains(full[k]),
                forall|i: int, j: int|
                    before.len() <= i < j < ids@.len() ==> ids@[i] != ids@[j],
        {
            let ghost k0 = it.index();
            assert(full[k0] == *e);
            assert(full.to_set().contains(*e));
            if !despawn_pool.contains(*e) {
                let ghost prev = ids@;
                ids.push(*e);
                proof {
                    assert(ids@.subrange(0, before.len() as int) =~= prev.subrange(
                        0,
                        before.len() as int,
                    ));
                    assert forall|i: int, k: int|
                        before.len() <= i < ids@.len() && k0 + 1 <= k < full.len() implies ids@[i]
                        != full[k] by {
                        if i < prev.len() {
                            assert(ids@[i] == prev[i]);
                        } else {
                            assert(full[k0] != full[k]);
                        }
                    }
                    assert forall|k: int|
                        0 <= k < k0 + 1 && !despawn_pool@.contains_key(
                            #[trigger] full[k],
                        ) implies ids@.contains(full[k]) by {
                        if k < k0 {
                            let i = choose|i: int| 0 <= i < prev.len() && prev[i] == full[k];
                            assert(ids@[i] == full[k]);
                        } else {
                            assert(ids@[prev.len() as int] == full[k]);
                        }
                    }
                    assert forall|i: int, j: int|
                        before.len() <= i < j < ids@.len() implies ids@[i] != ids@[j] by {
                        if j == prev.len() {
                            assert(ids@[i] == prev[i]);
                            assert(prev[i] != full[k0]);
                        } else {
                            assert(ids@[i] == prev[i] && ids@[j] == prev[j]);
                        }
                    }
                }
            }
        }
        proof {
            assert forall|e: u64|
                self.cell(row as int, col as int).contains(e) && !despawn_pool@.contains_key(
                    e,
                ) implies ids@.contains(e) by {
                assert(full.to_set().contains(e));
                let k = choose|k: int| 0 <= k < full.len() && full[k] == e;
                assert(!despawn_pool@.contains_key(full[k]));
            }
        }
    }

    /// The broad-phase query: every entity that stands in a cell of the
    /// range from `start` to `end` and is not marked dead, listed once for
    /// each cell of the range that holds it: once, where no identifier
    /// stands in two cells. An entity of the despawn set is never listed,
    /// though it still stands in its cell.
    pub fn query_region(&self, start: &MapPos, end: &MapPos, despawn_pool: &DespawnPool) -> (ids:
        Vec<u64>)
        requires
            self.wf(),
            self.has_pos(*start),
            self.has_pos(*end),
        ensures
            forall|e: u64|
                ids@.contains(e) <==> self.region_holds(*start, *end, e) && !despawn_pool@.contains_key(
                    e,
                ),
            forall|i: int| 0 <= i < ids@.len() ==> !despawn_pool@.contains_key(#[trigger] ids@[i]),
            forall|i: int, j: int|
                0 <= i < j < ids@.len() && #[trigger] ids@[i] == #[trigger] ids@[j]
                    ==> self.stands_twice(ids@[i]),
            self.cells_disjoint() ==> ids@.no_duplicates(),
    {
        let mut ids: Vec<u64> = Vec::new();
        let ghost mut cells: Seq<(int, int)> = Seq::empty();
        let rows = self.row_count();
        let cols = self.col_count();
        let mut row: usize = start.row;
        while row <= end.row
            invariant
                rows == self.spec_row_count(),
                cols == self.spec_col_count(),
                self.wf(),
                self.has_pos(*start),
                self.has_pos(*end),
                start.row <= row,
                row <= end.row + 1 || row == start.row,
                forall|k: int|
                    0 <= k < ids@.len() ==> self.seen_before(
                        *start,
                        *end,
                        row as int,
                        start.col as int,
                        #[trigger] ids@[k],
                    ) && !despawn_pool@.contains_key(ids@[k]),
                forall|e: u64|
                    self.seen_before(*start, *end, row as int, start.col as int, e)
                        && !despawn_pool@.contains_key(e) ==> ids@.contains(e),
                self.cells_disjoint() ==> ids@.no_duplicates(),
                cells.len() == ids@.len(),
                forall|k: int|
                    0 <= k < cells.len() ==> walked_before(
                        *start,
                        *end,
                        row as int,
                        start.col as int,
                        (#[trigger] cells[k]).0,
                        cells[k].1,
                    ) && self.holds(cells[k].0, cells[k].1, ids@[k]),
                forall|i: int, j: int|
                    0 <= i < j < cells.len() && #[trigger] cells[i] == #[trigger] cells[j]
                        ==> ids@[i] != ids@[j],
            decreases end.row + 1 - row,
        {
            let mut col: usize = start.col;
            while col <= end.col
                invariant
                    rows == self.spec_row_count(),
                    cols == self.spec_col_count(),
                    self.wf(),
                    self.has_pos(*start),
                    self.has_pos(*end),
                    start.row <= row <= end.row,
                    start.col <= col,
                    col <= end.col + 1 || col == start.col,
                    forall|k: int|
                        0 <= k < ids@.len() ==> self.seen_before(
                            *start,
                            *end,
                            row as int,
                            col as int,
                            #[trigger] ids@[k],
                        ) && !despawn_pool@.contains_key(ids@[k]),
                    forall|e: u64|
                        self.seen_before(*start, *end, row as int, col as int, e)
                            && !despawn_pool@.contains_key(e) ==> ids@.contains(e),
                    self.cells_disjoint() ==> ids@.no_duplicates(),
                    cells.len() == ids@.len(),
                    forall|k: int|
                        0 <= k < cells.len() ==> walked_before(
                            *start,
                            *end,
                            row as int,
                            col as int,
                            (#[trigger] cells[k]).0,
                            cells[k].1,
                        ) && self.holds(cells[k].0, cells[k].1, ids@[k]),
                    forall|i: int, j: int|
                        0 <= i < j < cells.len() && #[trigger] cells[i] == #[trigger] cells[j]
                            ==> ids@[i] != ids@[j],
                decreases end.col + 1 - col,
            {
                let ghost prev = ids@;
                let ghost prev_cells = cells;
                self.append_cell(row, col, despawn_pool, &mut ids);
                proof {
                    cells = prev_cells + Seq::new(
                        (ids@.len() - prev.len()) as nat,
                        |k: int| (row as int, col as int),
                    );
                    assert forall|k: int| 0 <= k < cells.len() implies walked_before(
                        *start,
                        *end,
                        row as int,
                        col + 1,
                        (#[trigger] cells[k]).0,
                        cells[k].1,
                    ) && self.holds(cells[k].0, cells[k].1, ids@[k]) by {
                        if k < prev.len() {
                            assert(cells[k] == prev_cells[k]);
                            assert(ids@[k] == ids@.subrange(0, prev.len() as int)[k]);
                        } else {
                            assert(cells[k] == (row as int, col as int));
                            assert(self.cell(row as int, col as int).contains(ids@[k]));
                        }
                    }
                    assert forall|i: int, j: int|
                        0 <= i < j < cells.len() && #[trigger] cells[i] == #[trigger] cells[j]
                        implies ids@[i] != ids@[j] by {
                        if j < prev.len() {
                            assert(cells[i] == prev_cells[i] && cells[j] == prev_cells[j]);
                            assert(ids@[i] == ids@.subrange(0, prev.len() as int)[i]);
                            assert(ids@[j] == ids@.subrange(0, prev.len() as int)[j]);
                        } else if i < prev.len() {
                            assert(cells[i] == prev_cells[i]);
                            assert(cells[j] == (row as int, col as int));
                        }
                    }
                    assert forall|k: int| 0 <= k < ids@.len() implies self.seen_before(
                        *start,
                        *end,
                        row as int,
                        col + 1,
                        #[trigger] ids@[k],
                    ) && !despawn_pool@.contains_key(ids@[k]) by {
                        if k < prev.len() {
                            assert(ids@[k] == ids@.subrange(0, prev.len() as int)[k]);
                            let (r, c) = choose|r: int, c: int|
                                walked_before(*start, *end, row as int, col as int, r, c)
                                    && #[trigger] self.holds(r, c, prev[k]);
                            assert(walked_before(*start, *end, row as int, col + 1, r, c)
                                && self.holds(r, c, ids@[k]));
                        } else {
                            assert(walked_before(
                                *start,
                                *end,
                                row as int,
                                col + 1,
                                row as int,
                                col as int,
                            ) && self.holds(row as int, col as int, ids@[k]));
                        }
                    }
                    assert forall|e: u64|
                        self.seen_before(*start, *end, row as int, col + 1, e)
                            && !despawn_pool@.contains_key(e) implies ids@.contains(e) by {
                        let (r, c) = choose|r: int, c: int|
                            walked_before(*start, *end, row as int, col + 1, r, c)
                                && #[trigger] self.holds(r, c, e);
                        if r == row && c == col {
                        } else {
                            assert(walked_before(*start, *end, row as int, col as int, r, c)
                                && self.holds(r, c, e));
                            assert(prev.contains(e));
                            let k = choose|k: int| 0 <= k < prev.len() && prev[k] == e;
                            assert(ids@[k] == ids@.subrange(0, prev.len() as int)[k]);
                        }
                    }
                    if self.cells_disjoint() {
                        assert forall|i: int, j: int|
                            0 <= i < j < ids@.len() implies ids@[i] != ids@[j] by {
                            if j < prev.len() {
                                assert(ids@[i] == ids@.subrange(0, prev.len() as int)[i]);
                                assert(ids@[j] == ids@.subrange(0, prev.len() as int)[j]);
                            } else if i < prev.len() {
                                assert(ids@[i] == ids@.subrange(0, prev.len() as int)[i]);
                                let (r, c) = choose|r: int, c: int|
                                    walked_before(*start, *end, row as int, col as int, r, c)
                                        && #[trigger] self.holds(r, c, prev[i]);
                                assert(self.holds(row as int, col as int, ids@[j]));
                                if ids@[i] == ids@[j] {
                                    assert(self.holds(r, c, ids@[j]));
                                    assert(r == row && c == col);
                                }
                            }
                        }
                    }
                }
                col += 1;
            }
            proof {
                assert forall|k: int| 0 <= k < ids@.len() implies self.seen_before(
                    *start,
                    *end,
                    row + 1,
                    start.col as int,
                    #[trigger] ids@[k],
                ) by {
                    assert(self.seen_before(*start, *end, row as int, col as int, ids@[k]));
                    let (r, c) = choose|r: int, c: int|
                        walked_before(*start, *end, row as int, col as int, r, c)
                            && #[trigger] self.holds(r, c, ids@[k]);
                    assert(walked_before(*start, *end, row + 1, start.col as int, r, c)
                        && self.holds(r, c, ids@[k]));
                }
                assert forall|e: u64|
                    self.seen_before(*start, *end, row + 1, start.col as int, e)
                        && !despawn_pool@.contains_key(e) implies ids@.contains(e) by {
                    let (r, c) = choose|r: int, c: int|
                        walked_before(*start, *end, row + 1, start.col as int, r, c)
                            && #[trigger] self.holds(r, c, e);
                    assert(walked_before(*start, *end, row as int, col as int, r, c)
                        && self.holds(r, c, e));
                }
            }
            row += 1;
        }
        proof {
            assert forall|i: int, j: int|
                0 <= i < j < ids@.len() && #[trigger] ids@[i] == #[trigger] ids@[j]
                implies self.stands_twice(ids@[i]) by {
                assert(self.holds(cells[i].0, cells[i].1, ids@[i]));
                assert(self.holds(cells[j].0, cells[j].1, ids@[i]));
            }
            assert forall|e: u64| ids@.contains(e) implies self.region_holds(*start, *end, e)
                && !despawn_pool@.contains_key(e) by {
                let k = choose|k: int| 0 <= k < ids@.len() && ids@[k] == e;
                assert(self.seen_before(*start, *end, row as int, start.col as int, ids@[k]));
                let (r, c) = choose|r: int, c: int|
                    walked_before(*start, *end, row as int, start.col as int, r, c)
                        && #[trigger] self.holds(r, c, e);
                assert(in_region(*start, *end, r, c) && self.holds(r, c, e));
            }
            assert forall|e: u64|
                self.region_holds(*start, *end, e) && !despawn_pool@.contains_key(
                    e,
                ) implies ids@.contains(e) by {
                let (r, c) = choose|r: int, c: int|
                    in_region(*start, *end, r, c) && #[trigger] self.holds(r, c, e);
                assert(walked_before(*start, *end, row as int, start.col as int, r, c)
                    && self.holds(r, c, e));
            }
        }
        ids
    }

    /// The registry entry `obj` of `entity` agrees with this world: the
    /// entity stands in the world, in the one cell that holds its position,
    /// and its span is within the largest span the world has recorded.
    pub open spec fn registered_well(&self, entity: u64, obj: GameObjInfo) -> bool {
        &&& obj.valid()
        &&& self.contains_point(obj.pos)
        &&& (obj.map_pos.row as int, obj.map_pos.col as int) == self.cell_of(obj.pos)
        &&& self.holds(obj.map_pos.row as int, obj.map_pos.col as int, entity)
        &&& obj.collide_span <= self.spec_max_collide_span()
        &&& 2 * obj.collide_span <= self.spec_width()
        &&& 2 * obj.collide_span <= self.spec_height()
    }

    /// The grid indexes the registry: every registered entity stands in the
    /// cell of its position, and in no other cell. A cell may hold
    /// identifiers that are not registered; the queries pass those over.
    pub open spec fn indexes(&self, lib: &GameObjInfoLib) -> bool {
        &&& self.wf()
        &&& forall|e: u64| #[trigger] lib@.contains_key(e) ==> self.registered_well(e, lib@[e])
        &&& forall|r: int, c: int, e: u64| #[trigger]
            self.holds(r, c, e) && lib@.contains_key(e) ==> lib@[e].map_pos.row == r
                && lib@[e].map_pos.col == c
    }

    /// Grid and registry agree: the grid indexes the registry, and every
    /// identifier in a cell is registered.
    pub open spec fn consistent_with(&self, lib: &GameObjInfoLib) -> bool {
        &&& self.indexes(lib)
        &&& forall|r: int, c: int, e: u64| #[trigger] self.holds(r, c, e) ==> lib@.contains_key(e)
    }

    /// Whether `add_obj` takes a new entity of the type `config` at `pos`.
    pub open spec fn accepts(
        &self,
        lib: &GameObjInfoLib,
        entity: u64,
        pos: Vec2,
        direction: Vec2,
        config: GameObjConfig,
    ) -> bool {
        &&& config.valid()
        &&& valid_direction(direction)
        &&& pos.x >= config.collide_span
        &&& pos.x + config.collide_span < self.spec_width()
        &&& pos.y >= config.collide_span
        &&& pos.y + config.collide_span < self.spec_height()
        &&& !lib@.contains_key(entity)
    }

    /// Adds the entity `entity`, of the type at `config_index`, to the grid
    /// and to the registry together: it enters the cell of `pos`, and the
    /// largest span of the world rises to its span if that is larger. The
    /// identifier must not stand in a cell already unless it is registered,
    /// which holds of every identifier where grid and registry agree.
    /// Nothing is added, and nothing changes, when the body would not stand
    /// inside the world, when its numbers are outside the engine's limits,
    /// or when the identifier is already registered.
    pub fn add_obj(
        &mut self,
        entity: u64,
        config_index: usize,
        pos: &Vec2,
        direction: &Vec2,
        game_lib: &GameLib,
        game_obj_lib: &mut GameObjInfoLib,
    ) -> (added: bool)
        requires
            old(self).indexes(old(game_obj_lib)),
            forall|r: int, c: int| #[trigger]
                old(self).holds(r, c, entity) ==> old(game_obj_lib)@.contains_key(entity),
            config_index < game_lib@.len(),
        ensures
            final(self).indexes(final(game_obj_lib)),
            old(self).consistent_with(old(game_obj_lib)) ==> final(self).consistent_with(
                final(game_obj_lib),
            ),
            added == old(self).accepts(
                old(game_obj_lib),
                entity,
                *pos,
                *direction,
                game_lib@[config_index as int],
            ),
            !added ==> *final(self) == *old(self) && final(game_obj_lib)@ == old(game_obj_lib)@,
            added ==> {
                let config = game_lib@[config_index as int];
                let cell = old(self).cell_of(*pos);
                let obj = GameObjInfo {
                    config_index,
                    pos: *pos,
                    map_pos: MapPos { row: cell.0 as usize, col: cell.1 as usize },
                    direction: *direction,
                    side: config.side,
                    obj_type: config.obj_type,
                    collide_span: config.collide_span,
                    speed: config.speed,
                    hp: config.max_hp,
                };
                &&& final(game_obj_lib)@ == old(game_obj_lib)@.insert(entity, obj)
                &&& final(self).spec_cell_size() == old(self).spec_cell_size()
                &&& final(self).spec_row_count() == old(self).spec_row_count()
                &&& final(self).spec_col_count() == old(self).spec_col_count()
                &&& final(self).spec_max_collide_span() == if old(self).spec_max_collide_span()
                    < config.collide_span {
                    config.collide_span
                } else {
                    old(self).spec_max_collide_span()
                }
                &&& final(self).cell(cell.0, cell.1) == old(self).cell(cell.0, cell.1).insert(entity)
                &&& forall|r: int, c: int|
                    old(self).has_cell(r, c) && !(r == cell.0 && c == cell.1) ==> #[trigger] final(self).cell(r, c) == old(self).cell(r, c)
            },
    {
        broadcast use vstd::std_specs::hash::group_hash_axioms;

        let obj_config = game_lib.get_obj_config(config_index);
        if !config_in_limits(obj_config) || !vec_within(direction, UNIT_MAX) || !vec_within(
            pos,
            POS_MAX,
        ) {
            return false;
        }
        if !self.is_inside(pos, obj_config.collide_span) {
            return false;
        }
        if game_obj_lib.contains(entity) {
            return false;
        }
        let map_pos = self.get_map_pos(pos);
        let obj = GameObjInfo::new(config_index, pos, &map_pos, direction, obj_config);
        self.insert_obj(&map_pos, entity);
        let ghost mid = *self;
        if self.max_collide_span < obj_config.collide_span {
            self.max_collide_span = obj_config.collide_span;
        }
        game_obj_lib.0.insert(entity, obj);
        proof {
            assert(self.map == mid.map);
            assert(forall|r: int, c: int| self.cell(r, c) == mid.cell(r, c));
            assert(forall|r: int, c: int| self.has_cell(r, c) == old(self).has_cell(r, c));
            let row = map_pos.row as int;
            let col = map_pos.col as int;
            assert forall|r: int, c: int, e: u64| #[trigger] self.holds(r, c, e) implies (e
                == entity && r == row && c == col) || (e != entity && old(self).holds(r, c, e)) by {
                if r == row && c == col {
                    assert(self.cell(r, c) == old(self).cell(r, c).insert(entity));
                    if e == entity {
                    } else {
                        assert(old(self).cell(r, c).contains(e));
                    }
                } else {
                    assert(mid.cell(r, c) == old(self).cell(r, c));
                    assert(old(self).holds(r, c, e));
                }
            }
            assert forall|r: int, c: int, e: u64| #[trigger]
                old(self).holds(r, c, e) implies self.holds(r, c, e) by {
                if r == row && c == col {
                    assert(self.cell(r, c) == old(self).cell(r, c).insert(entity));
                } else {
                    assert(mid.cell(r, c) == old(self).cell(r, c));
                }
            }
            assert(self.holds(row, col, entity));
            assert forall|r: int, c: int|
                old(self).has_cell(r, c) && !(r == row && c == col) implies #[trigger] self.cell(
                r,
                c,
            ) == old(self).cell(r, c) by {
                assert(mid.cell(r, c) == old(self).cell(r, c));
            }
            assert forall|e: u64| #[trigger] game_obj_lib@.contains_key(e) implies self.registered_well(
                e,
                game_obj_lib@[e],
            ) by {
                if e != entity {
                    let o = old(game_obj_lib)@[e];
                    assert(old(game_obj_lib)@.contains_key(e));
                    assert(old(self).registered_well(e, o));
                    assert(old(self).holds(o.map_pos.row as int, o.map_pos.col as int, e));
                    assert(self.holds(o.map_pos.row as int, o.map_pos.col as int, e));
                }
            }
        }
        true
    }

    /// Where grid and registry agree, a registered entity stands in the
    /// cell that holds its position, and in no other cell.
    pub proof fn lemma_one_cell(&self, lib: &GameObjInfoLib, entity: u64)
        requires
            self.consistent_with(lib),
            lib@.contains_key(entity),
        ensures
            self.holds(self.cell_of(lib@[entity].pos).0, self.cell_of(lib@[entity].pos).1, entity),
            forall|r: int, c: int| #[trigger]
                self.holds(r, c, entity) ==> (r, c) == self.cell_of(lib@[entity].pos),
    {
        assert(self.registered_well(entity, lib@[entity]));
    }

    /// Where grid and registry agree, the registry alone tells what each
    /// cell holds: the registered entities whose recorded cell it is.
    pub proof fn lemma_cells_follow_registry(&self, lib: &GameObjInfoLib)
        requires
            self.consistent_with(lib),
        ensures
            forall|r: int, c: int, e: u64| #[trigger]
                self.holds(r, c, e) <==> lib@.contains_key(e) && lib@[e].map_pos.row == r
                    && lib@[e].map_pos.col == c,
    {
        assert forall|r: int, c: int, e: u64|
            lib@.contains_key(e) && lib@[e].map_pos.row == r && lib@[e].map_pos.col
                == c implies #[trigger] self.holds(r, c, e) by {
            assert(self.registered_well(e, lib@[e]));
        }
    }

    /// An empty grid and an empty registry agree.
    pub proof fn lemma_empty_consistent(&self, lib: &GameObjInfoLib)
        requires
            self.wf(),
            forall|r: int, c: int| self.has_cell(r, c) ==> #[trigger] self.cell(r, c) == Set::<
                u64,
            >::empty(),
            lib@ == Map::<u64, GameObjInfo>::empty(),
        ensures
            self.consistent_with(lib),
    {
    }

    /// Where the grid indexes the registry, no registered entity stands in
    /// two cells.
    pub proof fn lemma_registered_once(&self, lib: &GameObjInfoLib)
        requires
            self.indexes(lib),
        ensures
            forall|e: u64| #[trigger] lib@.contains_key(e) ==> !self.stands_twice(e),
    {
        assert forall|e: u64| #[trigger] lib@.contains_key(e) implies !self.stands_twice(e) by {
            if self.stands_twice(e) {
                let (r1, c1, r2, c2) = choose|r1: int, c1: int, r2: int, c2: int|
                    #![trigger self.holds(r1, c1, e), self.holds(r2, c2, e)]
                    self.holds(r1, c1, e) && self.holds(r2, c2, e) && !(r1 == r2 && c1 == c2);
                assert(lib@[e].map_pos.row == r1 && lib@[e].map_pos.row == r2);
                assert(lib@[e].map_pos.col == c1 && lib@[e].map_pos.col == c2);
            }
        }
    }

    /// Where grid and registry agree, no identifier stands in two cells.
    pub proof fn lemma_consistent_disjoint(&self, lib: &GameObjInfoLib)
        requires
            self.consistent_with(lib),
        ensures
            self.cells_disjoint(),
    {
    }

    /// `order` is one of the orders in which a broad-phase query can hand
    /// out the entities that stand in the cell range from `start` to `end`
    /// and are not marked dead: it lists those and no others, and it lists
    /// every registered entity once.
    pub open spec fn is_query_order(
        &self,
        start: MapPos,
        end: MapPos,
        lib: Map<u64, GameObjInfo>,
        pool: Map<u64, DeadGameObjInfo>,
        order: Seq<u64>,
    ) -> bool {
        &&& forall|i: int, j: int|
            0 <= i < j < order.len() && #[trigger] order[i] == #[trigger] order[j]
                ==> !lib.contains_key(order[i])
        &&& forall|e: u64|
            order.contains(e) <==> self.region_holds(start, end, e) && !pool.contains_key(e)
    }

    /// What a blocking mover's step comes to when the broad-phase query
    /// hands out its candidates in the order `order`: the swept destination
    /// is brought into the world, then set back by each obstacle it overlaps
    /// in turn. The flag tells whether the world's edge or any obstacle
    /// stopped the mover. A body without speed takes no step: it stays
    /// where it is, unflagged.
    pub open spec fn tank_move(
        &self,
        lib: Map<u64, GameObjInfo>,
        entity: u64,
        obj: GameObjInfo,
        time_delta: i64,
        order: Seq<u64>,
    ) -> (bool, Vec2) {
        let dest = swept_pos(obj.pos, obj.direction, obj.speed, time_delta);
        let hit_bounds = !inside_bounds(dest, obj.collide_span, self.spec_width(), self.spec_height());
        let start = clamped_to_bounds(dest, obj.collide_span, self.spec_width(), self.spec_height());
        let slid = slide_through(lib, entity, obj.collide_span, obj.direction, start, order);
        if obj.speed == 0 {
            (false, obj.pos)
        } else {
            (hit_bounds || slid.0, slid.1)
        }
    }

    /// The cell range searched for the step of a blocking mover.
    pub open spec fn tank_region(&self, obj: GameObjInfo, time_delta: i64) -> (MapPos, MapPos) {
        let dest = swept_pos(obj.pos, obj.direction, obj.speed, time_delta);
        let start = clamped_to_bounds(dest, obj.collide_span, self.spec_width(), self.spec_height());
        self.collide_region(obj.pos, start, obj.collide_span)
    }

    /// A body of half-extent `collide_span` has room in the world.
    pub open spec fn fits(&self, collide_span: i64) -> bool {
        2 * collide_span <= self.spec_width() && 2 * collide_span <= self.spec_height()
    }

    /// One step of a blocking mover: the position it reaches after
    /// `time_delta`, and whether anything stopped it. The swept destination
    /// is first brought into the world; the result is then set back by every
    /// obstacle the broad-phase query finds and the mover overlaps, one
    /// after another. Entities marked dead, bodies that are no obstacles and
    /// the mover itself are passed over. The order in which the query hands
    /// out its candidates is not fixed, so the result is that of one such
    /// order. A mover that no live obstacle overlaps at its destination gets
    /// that destination, flagged only if the world's edge stopped it. A
    /// body without speed takes no step at all. An identifier that stands
    /// in a cell without being registered is passed over like any candidate
    /// that is no obstacle, and the other candidates are still met.
    pub fn get_tank_new_pos(
        &self,
        entity: &u64,
        obj: &GameObjInfo,
        game_obj_lib: &GameObjInfoLib,
        despawn_pool: &DespawnPool,
        time_delta: i64,
    ) -> (r: (bool, Vec2))
        requires
            self.indexes(game_obj_lib),
            obj.valid(),
            self.fits(obj.collide_span),
            valid_unit(time_delta),
        ensures
            obj.speed == 0 ==> r == (false, obj.pos),
            obj.speed != 0 ==> exists|order: Seq<u64>|
                self.is_query_order(
                    self.tank_region(*obj, time_delta).0,
                    self.tank_region(*obj, time_delta).1,
                    game_obj_lib@,
                    despawn_pool@,
                    order,
                ) && r == self.tank_move(game_obj_lib@, *entity, *obj, time_delta, order),
            valid_pos(r.1),
            obj.speed != 0 ==> ({
                let dest = swept_pos(obj.pos, obj.direction, obj.speed, time_delta);
                let start = clamped_to_bounds(
                    dest,
                    obj.collide_span,
                    self.spec_width(),
                    self.spec_height(),
                );
                (forall|e: u64| #[trigger]
                    is_live_obstacle(game_obj_lib@, despawn_pool@, *entity, e) ==> !overlaps(
                        start,
                        obj.collide_span,
                        game_obj_lib@[e].pos,
                        game_obj_lib@[e].collide_span,
                    )) ==> r.1 == start && r.0 == !inside_bounds(
                    dest,
                    obj.collide_span,
                    self.spec_width(),
                    self.spec_height(),
                )
            }),
    {
        if obj.speed == 0 {
            return (false, obj.pos);
        }
        let dest = sweep(&obj.pos, &obj.direction, obj.speed, time_delta);
        let (collide_bounds, pos) = collide_bounds_nonpass(
            &dest,
            obj.collide_span,
            &obj.direction,
            self.width,
            self.height,
        );
        let (collide_objs, new_pos) = self.check_tank_collide(
            entity,
            &pos,
            obj,
            game_obj_lib,
            despawn_pool,
        );
        proof {
            let region = self.collide_region(obj.pos, pos, obj.collide_span);
            let order = choose|order: Seq<u64>|
                self.is_query_order(region.0, region.1, game_obj_lib@, despawn_pool@, order) && (
                    collide_objs,
                    new_pos,
                ) == slide_through(
                    game_obj_lib@,
                    *entity,
                    obj.collide_span,
                    obj.direction,
                    pos,
                    order,
                );
            assert(self.tank_region(*obj, time_delta) == region);
            assert((collide_bounds || collide_objs, new_pos) == self.tank_move(
                game_obj_lib@,
                *entity,
                *obj,
                time_delta,
                order,
            ));
        }
        (collide_bounds || collide_objs, new_pos)
    }

    /// One step of a passable mover: the swept destination, never
    /// corrected, and whether the step ends the mover: because its square
    /// reaches outside the world, or because it overlaps a live obstacle of
    /// another side. A body without speed takes no step: it stays where it
    /// is and does not end. An identifier that stands in a cell without
    /// being registered is passed over.
    pub fn get_missile_new_pos(
        &self,
        entity: &u64,
        obj: &GameObjInfo,
        game_obj_lib: &GameObjInfoLib,
        despawn_pool: &DespawnPool,
        time_delta: i64,
    ) -> (r: (bool, Vec2))
        requires
            self.indexes(game_obj_lib),
            obj.valid(),
            valid_unit(time_delta),
        ensures
            r.1 == swept_pos(obj.pos, obj.direction, obj.speed, time_delta),
            valid_pos(r.1),
            r.0 == (obj.speed != 0 && (!inside_bounds(
                r.1,
                obj.collide_span,
                self.spec_width(),
                self.spec_height(),
            ) || missile_hits(
                game_obj_lib@,
                despawn_pool@,
                *entity,
                obj.side,
                r.1,
                obj.collide_span,
            ))),
    {
        if obj.speed == 0 {
            assert(obj.direction.x * 0 * time_delta == 0 && obj.direction.y * 0 * time_delta == 0)
                by (nonlinear_arith);
            return (false, obj.pos);
        }
        let pos = sweep(&obj.pos, &obj.direction, obj.speed, time_delta);
        if collide_bounds_pass(&pos, obj.collide_span, self.width, self.height) {
            return (true, pos);
        }
        let collide = self.check_missile_collide(entity, &pos, obj, game_obj_lib, despawn_pool);
        (collide, pos)
    }

    /// The pairwise phase of a blocking mover's step, from the
    /// bounds-resolved position `new_pos`.
    fn check_tank_collide(
        &self,
        entity: &u64,
        new_pos: &Vec2,
        obj: &GameObjInfo,
        game_obj_lib: &GameObjInfoLib,
        despawn_pool: &DespawnPool,
    ) -> (r: (bool, Vec2))
        requires
            self.indexes(game_obj_lib),
            obj.valid(),
            valid_pos(*new_pos),
        ensures
            exists|order: Seq<u64>|
                self.is_query_order(
                    self.collide_region(obj.pos, *new_pos, obj.collide_span).0,
                    self.collide_region(obj.pos, *new_pos, obj.collide_span).1,
                    game_obj_lib@,
                    despawn_pool@,
                    order,
                ) && r == slide_through(
                    game_obj_lib@,
                    *entity,
                    obj.collide_span,
                    obj.direction,
                    *new_pos,
                    order,
                ),
            valid_pos(r.1),
            (forall|e: u64| #[trigger]
                is_live_obstacle(game_obj_lib@, despawn_pool@, *entity, e) ==> !overlaps(
                    *new_pos,
                    obj.collide_span,
                    game_obj_lib@[e].pos,
                    game_obj_lib@[e].collide_span,
                )) ==> r == (false, *new_pos),
    {
        let (start_map_pos, end_map_pos) = self.get_collide_region_nonpass(
            &obj.pos,
            new_pos,
            obj.collide_span,
        );
        let ids = self.query_region(&start_map_pos, &end_map_pos, despawn_pool);
        let mut collide = false;
        let mut pos = *new_pos;
        let mut i: usize = 0;
        while i < ids.len()
            invariant
                self.indexes(game_obj_lib),
                obj.valid(),
                valid_pos(pos),
                i <= ids@.len(),
                forall|k: int| 0 <= k < ids@.len() ==> !despawn_pool@.contains_key(#[trigger] ids@[k]),
                (collide, pos) == slide_through(
                    game_obj_lib@,
                    *entity,
                    obj.collide_span,
                    obj.direction,
                    *new_pos,
                    ids@.take(i as int),
                ),
                (forall|e: u64| #[trigger]
                    is_live_obstacle(game_obj_lib@, despawn_pool@, *entity, e) ==> !overlaps(
                        *new_pos,
                        obj.collide_span,
                        game_obj_lib@[e].pos,
                        game_obj_lib@[e].collide_span,
                    )) ==> (collide, pos) == (false, *new_pos),
            decreases ids@.len() - i,
        {
            let e = ids[i];
            proof {
                assert(ids@.take(i + 1).drop_last() =~= ids@.take(i as int));
                assert(ids@.take(i + 1).last() == e);
                assert(!despawn_pool@.contains_key(ids@[i as int]));
            }
            i += 1;
            if e == *entity {
                continue ;
            }
            let obj2 = match game_obj_lib.get(e) {
                Some(o) => o,
                None => {
                    continue ;
                },
            };
            if !obj2.obj_type.is_solid() || obj2.collide_span == 0 {
                continue ;
            }
            assert(self.registered_well(e, obj2));
            assert(is_live_obstacle(game_obj_lib@, despawn_pool@, *entity, e));
            let (collide_obj, corrected_pos) = collide_obj_nonpass(
                &pos,
                obj.collide_span,
                &obj.direction,
                &obj2.pos,
                obj2.collide_span,
            );
            if collide_obj {
                collide = true;
            }
            pos = corrected_pos;
        }
        proof {
            assert(ids@.take(ids@.len() as int) =~= ids@);
            self.lemma_registered_once(game_obj_lib);
            assert(self.is_query_order(
                start_map_pos,
                end_map_pos,
                game_obj_lib@,
                despawn_pool@,
                ids@,
            ));
        }
        (collide, pos)
    }

    /// The pairwise phase of a passable mover's step: whether it overlaps,
    /// at `new_pos`, a live obstacle of another side.
    fn check_missile_collide(
        &self,
        entity: &u64,
        new_pos: &Vec2,
        obj: &GameObjInfo,
        game_obj_lib: &GameObjInfoLib,
        despawn_pool: &DespawnPool,
    ) -> (hit: bool)
        requires
            self.indexes(game_obj_lib),
            valid_span(obj.collide_span),
            valid_pos(*new_pos),
        ensures
            hit == missile_hits(
                game_obj_lib@,
                despawn_pool@,
                *entity,
                obj.side,
                *new_pos,
                obj.collide_span,
            ),
    {
        let (start_map_pos, end_map_pos) = self.get_collide_region_pass(new_pos, obj.collide_span);
        let ids = self.query_region(&start_map_pos, &end_map_pos, despawn_pool);
        let mut i: usize = 0;
        while i < ids.len()
            invariant
                self.indexes(game_obj_lib),
                valid_span(obj.collide_span),
                valid_pos(*new_pos),
                i <= ids@.len(),
                forall|k: int| 0 <= k < ids@.len() ==> !despawn_pool@.contains_key(#[trigger] ids@[k]),
                forall|k: int|
                    0 <= k < i ==> !(is_live_obstacle(
                        game_obj_lib@,
                        despawn_pool@,
                        *entity,
                        #[trigger] ids@[k],
                    ) && game_obj_lib@[ids@[k]].side != obj.side && overlaps(
                        *new_pos,
                        obj.collide_span,
                        game_obj_lib@[ids@[k]].pos,
                        game_obj_lib@[ids@[k]].collide_span,
                    )),
            decreases ids@.len() - i,
        {
            let e = ids[i];
            i += 1;
            if e == *entity {
                continue ;
            }
            let obj2 = match game_obj_lib.get(e) {
                Some(o) => o,
                None => {
                    continue ;
                },
            };
            if !obj2.obj_type.is_solid() || obj2.collide_span == 0 || obj.side == obj2.side {
                continue ;
            }
            assert(self.registered_well(e, obj2));
            if collide_obj_pass(new_pos, obj.collide_span, &obj2.pos, obj2.collide_span) {
                assert(!despawn_pool@.contains_key(ids@[i - 1]));
                assert(is_live_obstacle(game_obj_lib@, despawn_pool@, *entity, e));
                return true;
            }
        }
        proof {
            if missile_hits(
                game_obj_lib@,
                despawn_pool@,
                *entity,
                obj.side,
                *new_pos,
                obj.collide_span,
            ) {
                let e = choose|e: u64| #[trigger]
                    is_live_obstacle(game_obj_lib@, despawn_pool@, *entity, e)
                        && game_obj_lib@[e].side != obj.side && overlaps(
                        *new_pos,
                        obj.collide_span,
                        game_obj_lib@[e].pos,
                        game_obj_lib@[e].collide_span,
                    );
                let o = game_obj_lib@[e];
                assert(self.registered_well(e, o));
                self.lemma_region_covers(*new_pos, *new_pos, obj.collide_span, o.pos);
                assert(in_region(
                    start_map_pos,
                    end_map_pos,
                    o.map_pos.row as int,
                    o.map_pos.col as int,
                ) && self.holds(o.map_pos.row as int, o.map_pos.col as int, e));
                assert(self.region_holds(start_map_pos, end_map_pos, e));
                assert(ids@.contains(e));
                let k = choose|k: int| 0 <= k < ids@.len() && ids@[k] == e;
                assert(is_live_obstacle(game_obj_lib@, despawn_pool@, *entity, ids@[k]));
                assert(false);
            }
        }
        false
    }

    /// The broad phase misses nothing: a point of the world that lies
    /// within the searched rectangle, widened by the mover's span and the
    /// largest span of the world, has its cell in the searched range.
    pub proof fn lemma_region_covers(
        &self,
        start_pos: Vec2,
        end_pos: Vec2,
        collide_span: i64,
        p: Vec2,
    )
        requires
            self.wf(),
            self.contains_point(p),
            ({
                let span = collide_span + self.spec_max_collide_span();
                let min_x = if start_pos.x <= end_pos.x { start_pos.x } else { end_pos.x };
                let max_x = if start_pos.x <= end_pos.x { end_pos.x } else { start_pos.x };
                let min_y = if start_pos.y <= end_pos.y { start_pos.y } else { end_pos.y };
                let max_y = if start_pos.y <= end_pos.y { end_pos.y } else { start_pos.y };
                &&& min_x - span <= p.x <= max_x + span
                &&& min_y - span <= p.y <= max_y + span
            }),
        ensures
            in_region(
                self.collide_region(start_pos, end_pos, collide_span).0,
                self.collide_region(start_pos, end_pos, collide_span).1,
                self.cell_of(p).0,
                self.cell_of(p).1,
            ),
    {
        let cs = self.spec_cell_size() as int;
        let span = collide_span + self.spec_max_collide_span();
        let min_x = if start_pos.x <= end_pos.x { start_pos.x } else { end_pos.x };
        let max_x = if start_pos.x <= end_pos.x { end_pos.x } else { start_pos.x };
        let min_y = if start_pos.y <= end_pos.y { start_pos.y } else { end_pos.y };
        let max_y = if start_pos.y <= end_pos.y { end_pos.y } else { start_pos.y };
        self.lemma_point_has_cell(p);
        lemma_div_is_ordered(min_x - span, p.x as int, cs);
        lemma_div_is_ordered(p.x as int, max_x + span, cs);
        lemma_div_is_ordered(min_y - span, p.y as int, cs);
        lemma_div_is_ordered(p.y as int, max_y + span, cs);
    }

    /// The two worlds have the same cells, sizes and largest span; only
    /// what the cells hold may differ.
    pub open spec fn same_frame(&self, other: &GameMap) -> bool {
        &&& self.spec_cell_size() == other.spec_cell_size()
        &&& self.spec_width() == other.spec_width()
        &&& self.spec_height() == other.spec_height()
        &&& self.spec_row_count() == other.spec_row_count()
        &&& self.spec_col_count() == other.spec_col_count()
        &&& self.spec_max_collide_span() == other.spec_max_collide_span()
    }

    /// The broad phase finds every body that matters: where grid and
    /// registry agree, a registered body whose square overlaps the square of
    /// half-extent `collide_span` around the end of a sweep stands in a cell
    /// of the range searched for that sweep, however large the body is and
    /// wherever in its cell it stands.
    pub proof fn lemma_overlapping_body_in_region(
        &self,
        lib: &GameObjInfoLib,
        start_pos: Vec2,
        end_pos: Vec2,
        collide_span: i64,
        e: u64,
    )
        requires
            self.indexes(lib),
            lib@.contains_key(e),
            overlaps(end_pos, collide_span, lib@[e].pos, lib@[e].collide_span),
        ensures
            self.region_holds(
                self.collide_region(start_pos, end_pos, collide_span).0,
                self.collide_region(start_pos, end_pos, collide_span).1,
                e,
            ),
    {
        let o = lib@[e];
        assert(self.registered_well(e, o));
        self.lemma_region_covers(start_pos, end_pos, collide_span, o.pos);
        let region = self.collide_region(start_pos, end_pos, collide_span);
        assert(in_region(region.0, region.1, o.map_pos.row as int, o.map_pos.col as int)
            && self.holds(o.map_pos.row as int, o.map_pos.col as int, e));
    }

    /// A world has no more cells along an axis than its extent has units.
    pub proof fn lemma_counts_bounded(&self)
        requires
            self.wf(),
        ensures
            self.spec_row_count() <= SPAN_MAX,
            self.spec_col_count() <= SPAN_MAX,
    {
        let cs = self.spec_cell_size() as int;
        let rows = self.spec_row_count() as int;
        let cols = self.spec_col_count() as int;
        assert(rows <= rows * cs && cols <= cols * cs) by (nonlinear_arith)
            requires
                cs >= 1,
                rows >= 0,
                cols >= 0,
        ;
    }

    /// A point of the world has a cell of the world.
    pub proof fn lemma_point_has_cell(&self, pos: Vec2)
        requires
            self.wf(),
            self.contains_point(pos),
        ensures
            self.has_cell(self.cell_of(pos).0, self.cell_of(pos).1),
    {
        let cs = self.spec_cell_size() as int;
        let rows = self.spec_row_count() as int;
        let cols = self.spec_col_count() as int;
        lemma_fundamental_div_mod(pos.x as int, cs);
        lemma_fundamental_div_mod(pos.y as int, cs);
        let qx = (pos.x as int) / cs;
        let qy = (pos.y as int) / cs;
        assert(0 <= qx < cols) by (nonlinear_arith)
            requires
                pos.x as int == cs * qx + (pos.x as int) % cs,
                0 <= (pos.x as int) % cs < cs,
                0 <= pos.x < cols * cs,
                cs > 0,
        ;
        assert(0 <= qy < rows) by (nonlinear_arith)
            requires
                pos.y as int == cs * qy + (pos.y as int) % cs,
                0 <= (pos.y as int) % cs < cs,
                0 <= pos.y < rows * cs,
                cs > 0,
        ;
    }
}

/// Whether both coordinates of `v` have a magnitude of at most `bound`.
pub fn vec_within(v: &Vec2, bound: i64) -> (b: bool)
    requires
        bound >= 0,
    ensures
        b == v.within(bound as int),
{
    -bound <= v.x && v.x <= bound && -bound <= v.y && v.y <= bound
}

/// Whether the numbers of a body type are ones the engine can compute with.
pub fn config_in_limits(config: &GameObjConfig) -> (b: bool)
    ensures
        b == config.valid(),
{
    let explosion_ok = match config.explosion {
        Some(e) => 0 <= e.explode_span && e.explode_span <= SPAN_MAX,
        None => true,
    };
    0 <= config.collide_span && config.collide_span <= SPAN_MAX && 0 <= config.speed
        && config.speed <= UNIT_MAX && explosion_ok
}

} // verus!
