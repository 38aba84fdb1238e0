//! Mapping a pointer position to the tile under it.
use crate::layout::{column_of, fits, lemma_per_row_bounds, lemma_tile_in_box, per_row, position_of, positions, row_of, Point};
use vstd::arithmetic::div_mod::*;
use vstd::arithmetic::mul::*;
use vstd::prelude::*;

verus! {

/// The square of edge `draw` with top-left corner `corner` holds `p`; the
/// square includes its top and left edges and excludes the other two.
pub open spec fn contains(corner: Point, draw: nat, p: Point) -> bool {
    &&& corner.x <= p.x < corner.x + draw
    &&& corner.y <= p.y < corner.y + draw
}

/// Index of the first square, among those with corners `corners`, that holds `p`.
pub open spec fn first_hit(corners: Seq<Point>, draw: nat, p: Point) -> Option<nat>
    decreases corners.len(),
{
    if corners.len() == 0 {
        None
    } else {
        match first_hit(corners.drop_last(), draw, p) {
            Some(i) => Some(i),
            None => if contains(corners.last(), draw, p) {
                Some((corners.len() - 1) as nat)
            } else {
                None
            },
        }
    }
}

/// A hit in a prefix is the first hit of the whole sequence.
proof fn lemma_first_hit_extends(corners: Seq<Point>, draw: nat, p: Point, k: int)
    requires
        0 <= k <= corners.len(),
        first_hit(corners.take(k), draw, p) is Some,
    ensures
        first_hit(corners, draw, p) == first_hit(corners.take(k), draw, p),
    decreases corners.len() - k,
{
    if k < corners.len() {
        assert(corners.take(k + 1).drop_last() =~= corners.take(k));
        lemma_first_hit_extends(corners, draw, p, k + 1);
    } else {
        assert(corners.take(k) =~= corners);
    }
}

/// Where the squares that hold `p` are exactly the one at index `target` (or
/// none), the first hit is `target`, provided it lies in the sequence.
proof fn lemma_first_hit_unique(corners: Seq<Point>, draw: nat, p: Point, target: Option<nat>)
    requires
        forall|j: int|
            0 <= j < corners.len() ==> (contains(#[trigger] corners[j], draw, p) <==> target
                == Some(j as nat)),
    ensures
        first_hit(corners, draw, p) == (match target {
            Some(t) => if t < corners.len() {
                target
            } else {
                None
            },
            None => None,
        }),
    decreases corners.len(),
{
    if corners.len() > 0 {
        let rest = corners.drop_last();
        assert forall|j: int| 0 <= j < rest.len() implies (contains(#[trigger] rest[j], draw, p)
            <==> target == Some(j as nat)) by {
            assert(rest[j] == corners[j]);
        }
        lemma_first_hit_unique(rest, draw, p, target);
        assert(corners.last() == corners[corners.len() - 1]);
    }
}

/// The index of the first tile, among those with top-left corners
/// `positions`, whose square of edge `tile_draw_size` holds `click`.
pub fn tile_at(positions: &Vec<Point>, tile_draw_size: u64, click: Point) -> (r: Option<usize>)
    ensures
        match r {
            Some(i) => first_hit(positions@, tile_draw_size as nat, click) == Some(i as nat),
            None => first_hit(positions@, tile_draw_size as nat, click) is None,
        },
{
    let ghost draw = tile_draw_size as nat;
    let mut id: usize = 0;
    while id < positions.len()
        invariant
            id <= positions@.len(),
            draw == tile_draw_size,
            first_hit(positions@.take(id as int), draw, click) is None,
        decreases positions@.len() - id,
    {
        let pos = positions[id];
        let inside = pos.x <= click.x && (click.x as i128) < pos.x as i128 + tile_draw_size as i128
            && pos.y <= click.y && (click.y as i128) < pos.y as i128 + tile_draw_size as i128;
        proof {
            assert(positions@.take(id + 1).drop_last() =~= positions@.take(id as int));
            assert(positions@.take(id + 1).last() == pos);
        }
        if inside {
            proof {
                lemma_first_hit_extends(positions@, draw, click, id + 1);
            }
            return Some(id);
        }
        id = id + 1;
    }
    proof {
        assert(positions@.take(id as int) =~= positions@);
    }
    None
}

/// The cell of the grid that holds `p`, found by division: its column and row
/// are the offsets from `base` divided by `draw`.
pub open spec fn grid_cell(base: Point, draw: nat, max_width: nat, n: nat, p: Point) -> Option<nat> {
    if draw == 0 || p.x < base.x || p.y < base.y {
        None
    } else {
        let col = (p.x - base.x) / (draw as int);
        let row = (p.y - base.y) / (draw as int);
        let per = per_row(draw, max_width);
        if col < per && row * per + col < n {
            Some((row * per + col) as nat)
        } else {
            None
        }
    }
}

/// `a` lies in the `k`-th span of length `d` exactly when `a / d == k`.
proof fn lemma_in_span(a: int, d: nat, k: nat)
    requires
        d > 0,
        a >= 0,
    ensures
        (d * k <= a < d * k + d) <==> a / (d as int) == k,
{
    lemma_fundamental_div_mod(a, d as int);
    lemma_mod_pos_bound(a, d as int);
    lemma_mul_is_commutative(d as int, k as int);
    if d * k <= a < d * k + d {
        lemma_fundamental_div_mod_converse(a, d as int, k as int, a - d * k);
    }
}

/// Hit-testing the laid-out tiles one by one finds the grid cell under the
/// pointer: the tile whose column and row the pointer's offsets from `base`
/// divide to, if the grid has such a tile, and no tile otherwise.
pub proof fn lemma_hit_is_grid_cell(base: Point, draw: nat, max_width: nat, n: nat, p: Point)
    requires
        fits(base, draw, max_width, n),
    ensures
        first_hit(positions(base, draw, max_width, n), draw, p) == grid_cell(base, draw, max_width, n, p),
{
    let ps = positions(base, draw, max_width, n);
    let target = grid_cell(base, draw, max_width, n, p);
    let per = per_row(draw, max_width);
    lemma_per_row_bounds(draw, max_width, 0);
    assert forall|j: int| 0 <= j < ps.len() implies (contains(#[trigger] ps[j], draw, p) <==> target
        == Some(j as nat)) by {
        let c = column_of(draw, max_width, j as nat);
        let r = row_of(draw, max_width, j as nat);
        lemma_tile_in_box(draw, max_width, n, j as nat);
        lemma_mul_nonnegative(draw as int, c as int);
        lemma_mul_nonnegative(draw as int, r as int);
        lemma_fundamental_div_mod(j, per as int);
        lemma_mod_pos_bound(j, per as int);
        lemma_mul_is_commutative(per as int, r as int);
        if draw > 0 && p.x >= base.x && p.y >= base.y {
            lemma_in_span(p.x - base.x, draw, c);
            lemma_in_span(p.y - base.y, draw, r);
            let col = (p.x - base.x) / (draw as int);
            let row = (p.y - base.y) / (draw as int);
            if target == Some(j as nat) {
                lemma_fundamental_div_mod_converse(j, per as int, row, col);
            }
        }
    }
    lemma_first_hit_unique(ps, draw, p, target);
}

/// A pointer at the center of tile `i` selects tile `i`.
pub proof fn lemma_center_selects_tile(base: Point, draw: nat, max_width: nat, n: nat, i: nat)
    requires
        fits(base, draw, max_width, n),
        draw > 0,
        i < n,
    ensures
        ({
            let pos = position_of(base, draw, max_width, i);
            let center = Point { x: (pos.x + draw / 2) as i64, y: (pos.y + draw / 2) as i64 };
            first_hit(positions(base, draw, max_width, n), draw, center) == Some(i)
        }),
{
    let pos = position_of(base, draw, max_width, i);
    let center = Point { x: (pos.x + draw / 2) as i64, y: (pos.y + draw / 2) as i64 };
    let c = column_of(draw, max_width, i);
    let r = row_of(draw, max_width, i);
    let per = per_row(draw, max_width);
    lemma_per_row_bounds(draw, max_width, 0);
    lemma_tile_in_box(draw, max_width, n, i);
    lemma_mul_nonnegative(draw as int, c as int);
    lemma_mul_nonnegative(draw as int, r as int);
    lemma_in_span(center.x - base.x, draw, c);
    lemma_in_span(center.y - base.y, draw, r);
    lemma_fundamental_div_mod(i as int, per as int);
    lemma_mod_pos_bound(i as int, per as int);
    lemma_mul_is_commutative(per as int, r as int);
    lemma_hit_is_grid_cell(base, draw, max_width, n, center);
}

/// A pointer on the top-left corner of tile `i` selects tile `i`. A pointer one
/// pixel beyond its bottom-right pixel never selects tile `i`: it selects the
/// tile diagonally below and to the right where the grid has one, and nothing
/// otherwise.
pub proof fn lemma_tile_edges(base: Point, draw: nat, max_width: nat, n: nat, i: nat)
    requires
        fits(base, draw, max_width, n),
        draw > 0,
        i < n,
    ensures
        ({
            let pos = position_of(base, draw, max_width, i);
            let beyond = Point { x: (pos.x + draw) as i64, y: (pos.y + draw) as i64 };
            let per = per_row(draw, max_width);
            let diagonal = i + per + 1;
            &&& first_hit(positions(base, draw, max_width, n), draw, pos) == Some(i)
            &&& first_hit(positions(base, draw, max_width, n), draw, beyond) == if column_of(
                draw,
                max_width,
                i,
            ) + 1 < per && diagonal < n {
                Some(diagonal as nat)
            } else {
                None::<nat>
            }
            &&& first_hit(positions(base, draw, max_width, n), draw, beyond) != Some(i)
        }),
{
    let pos = position_of(base, draw, max_width, i);
    let beyond = Point { x: (pos.x + draw) as i64, y: (pos.y + draw) as i64 };
    let c = column_of(draw, max_width, i);
    let r = row_of(draw, max_width, i);
    let per = per_row(draw, max_width);
    lemma_per_row_bounds(draw, max_width, 0);
    lemma_tile_in_box(draw, max_width, n, i);
    lemma_mul_nonnegative(draw as int, c as int);
    lemma_mul_nonnegative(draw as int, r as int);
    lemma_in_span(pos.x - base.x, draw, c);
    lemma_in_span(pos.y - base.y, draw, r);
    lemma_mul_is_distributive_add(draw as int, c as int, 1);
    lemma_mul_is_distributive_add(draw as int, r as int, 1);
    lemma_in_span(beyond.x - base.x, draw, c + 1);
    lemma_in_span(beyond.y - base.y, draw, r + 1);
    lemma_fundamental_div_mod(i as int, per as int);
    lemma_mod_pos_bound(i as int, per as int);
    lemma_mul_is_commutative(per as int, r as int);
    lemma_mul_is_distributive_add_other_way(per as int, r as int, 1);
    lemma_mul_is_commutative(per as int, r + 1 as int);
    lemma_hit_is_grid_cell(base, draw, max_width, n, pos);
    lemma_hit_is_grid_cell(base, draw, max_width, n, beyond);
}

} // verus!
