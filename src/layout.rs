//! Wrapping grid layout: tiles of one draw size laid left to right in rows that
//! wrap at a maximum width.
use vstd::arithmetic::div_mod::*;
use vstd::arithmetic::mul::*;
use vstd::prelude::*;

verus! {

/// A point in whole pixels.
#[derive(Clone, Copy, Debug, PartialEq, Eq, Structural)]
pub struct Point {
    pub x: i64,
    pub y: i64,
}

/// A width and a height in whole pixels.
#[derive(Clone, Copy, Debug, PartialEq, Eq, Structural)]
pub struct Size {
    pub width: u64,
    pub height: u64,
}

/// How many tiles of edge `draw` stand in one row of width `max_width`.
/// A tile wider than the row, or of edge zero, still gets a row of its own.
pub open spec fn per_row(draw: nat, max_width: nat) -> nat {
    if draw == 0 || max_width < draw {
        1
    } else {
        max_width / draw
    }
}

/// `a / b` rounded up, for `b >= 1`.
pub open spec fn ceil_div(a: nat, b: nat) -> nat {
    ((a + b - 1) / (b as int)) as nat
}

/// How many tiles the first row holds.
pub open spec fn columns_used(draw: nat, max_width: nat, n: nat) -> nat {
    let p = per_row(draw, max_width);
    if n < p {
        n
    } else {
        p
    }
}

/// How many rows `n` tiles take.
pub open spec fn rows_used(draw: nat, max_width: nat, n: nat) -> nat {
    ceil_div(n, per_row(draw, max_width))
}

/// Width of the smallest box that holds `n` tiles of edge `draw`.
pub open spec fn needed_width(draw: nat, max_width: nat, n: nat) -> nat {
    draw * columns_used(draw, max_width, n)
}

/// Height of the smallest box that holds `n` tiles of edge `draw`.
pub open spec fn needed_height(draw: nat, max_width: nat, n: nat) -> nat {
    draw * rows_used(draw, max_width, n)
}

/// Column of the tile with index `i`.
pub open spec fn column_of(draw: nat, max_width: nat, i: nat) -> nat {
    i % per_row(draw, max_width)
}

/// Row of the tile with index `i`.
pub open spec fn row_of(draw: nat, max_width: nat, i: nat) -> nat {
    i / per_row(draw, max_width)
}

/// Top-left corner of the tile with index `i`, for a grid anchored at `base`.
pub open spec fn position_of(base: Point, draw: nat, max_width: nat, i: nat) -> Point {
    Point {
        x: (base.x + draw * column_of(draw, max_width, i)) as i64,
        y: (base.y + draw * row_of(draw, max_width, i)) as i64,
    }
}

/// Top-left corners of tiles `0 .. n`, in index order.
pub open spec fn positions(base: Point, draw: nat, max_width: nat, n: nat) -> Seq<Point> {
    Seq::new(n, |i: int| position_of(base, draw, max_width, i as nat))
}

/// The grid of `n` tiles anchored at `base` lies within the range of `i64`.
pub open spec fn fits(base: Point, draw: nat, max_width: nat, n: nat) -> bool {
    &&& base.x + needed_width(draw, max_width, n) <= i64::MAX
    &&& base.y + needed_height(draw, max_width, n) <= i64::MAX
}

/// At least one tile per row, and a full row is no wider than the row allows
/// (or than one tile, where one tile is wider).
pub proof fn lemma_per_row_bounds(draw: nat, max_width: nat, k: nat)
    requires
        k <= per_row(draw, max_width),
    ensures
        per_row(draw, max_width) >= 1,
        draw * k <= if max_width < draw { draw } else { max_width },
{
    let p = per_row(draw, max_width);
    if draw == 0 {
        assert(draw * k == 0);
    } else if max_width < draw {
        assert(draw * k <= draw) by (nonlinear_arith)
            requires
                k <= 1,
        ;
    } else {
        lemma_fundamental_div_mod(max_width as int, draw as int);
        lemma_div_pos_is_pos(max_width as int, draw as int);
        lemma_mod_pos_bound(max_width as int, draw as int);
        assert(p >= 1) by {
            lemma_div_is_ordered(draw as int, max_width as int, draw as int);
            lemma_div_by_self(draw as int);
        }
        lemma_mul_inequality(k as int, p as int, draw as int);
        lemma_mul_is_commutative(k as int, draw as int);
        lemma_mul_is_commutative(p as int, draw as int);
    }
}

/// The rows that `n` tiles take: zero for no tile, else one more than the row
/// of the last tile.
pub proof fn lemma_rows_used(draw: nat, max_width: nat, n: nat)
    ensures
        n == 0 ==> rows_used(draw, max_width, n) == 0,
        n > 0 ==> rows_used(draw, max_width, n) == row_of(draw, max_width, (n - 1) as nat) + 1,
{
    let p = per_row(draw, max_width);
    lemma_per_row_bounds(draw, max_width, 0);
    if n == 0 {
        assert((p - 1) as int / p as int == 0) by {
            lemma_basic_div(p - 1, p as int);
        }
    } else {
        lemma_div_plus_one((n - 1) as int, p as int);
        assert(p + (n - 1) == n + p - 1);
    }
}

/// Tile `i < n` stands in the box of `needed_width` by `needed_height`.
pub proof fn lemma_tile_in_box(draw: nat, max_width: nat, n: nat, i: nat)
    requires
        i < n,
    ensures
        draw * column_of(draw, max_width, i) + draw <= needed_width(draw, max_width, n),
        draw * row_of(draw, max_width, i) + draw <= needed_height(draw, max_width, n),
{
    let p = per_row(draw, max_width);
    let c = column_of(draw, max_width, i);
    let r = row_of(draw, max_width, i);
    lemma_per_row_bounds(draw, max_width, 0);
    lemma_mod_pos_bound(i as int, p as int);
    lemma_mod_decreases(i, p);
    assert(c + 1 <= columns_used(draw, max_width, n));
    lemma_mul_inequality(c + 1 as int, columns_used(draw, max_width, n) as int, draw as int);
    lemma_mul_is_distributive_add_other_way(draw as int, c as int, 1);
    lemma_mul_is_commutative(draw as int, columns_used(draw, max_width, n) as int);
    lemma_mul_is_commutative(draw as int, c + 1 as int);
    lemma_rows_used(draw, max_width, n);
    lemma_div_is_ordered(i as int, (n - 1) as int, p as int);
    assert(r + 1 <= rows_used(draw, max_width, n));
    lemma_mul_inequality(r + 1 as int, rows_used(draw, max_width, n) as int, draw as int);
    lemma_mul_is_distributive_add_other_way(draw as int, r as int, 1);
    lemma_mul_is_commutative(draw as int, rows_used(draw, max_width, n) as int);
    lemma_mul_is_commutative(draw as int, r + 1 as int);
}

/// The number of tiles in a full row: `floor(max_width / draw_size)`, and one
/// where a tile is wider than the row or of edge zero.
pub fn tiles_per_row(draw_size: u64, max_width: u64) -> (r: u64)
    ensures
        r == per_row(draw_size as nat, max_width as nat),
        r >= 1,
{
    proof {
        lemma_per_row_bounds(draw_size as nat, max_width as nat, 0);
    }
    if draw_size == 0 || max_width < draw_size {
        1
    } else {
        max_width / draw_size
    }
}

/// Size of the smallest box that holds `nb_tiles` tiles of edge `tile_size`
/// laid out in rows no wider than `max_width`.
pub fn needed_size(tile_size: u64, max_width: u64, nb_tiles: usize) -> (r: Size)
    requires
        needed_height(tile_size as nat, max_width as nat, nb_tiles as nat) <= u64::MAX,
    ensures
        r.width == needed_width(tile_size as nat, max_width as nat, nb_tiles as nat),
        r.height == needed_height(tile_size as nat, max_width as nat, nb_tiles as nat),
{
    let per_line = tiles_per_row(tile_size, max_width);
    let count = nb_tiles as u64;
    let columns = if count < per_line {
        count
    } else {
        per_line
    };
    let lines = if count == 0 {
        0
    } else {
        (count - 1) / per_line + 1
    };
    proof {
        lemma_per_row_bounds(tile_size as nat, max_width as nat, columns as nat);
        lemma_rows_used(tile_size as nat, max_width as nat, nb_tiles as nat);
    }
    Size { width: tile_size * columns, height: tile_size * lines }
}

/// Offset of the tile `tile_id` from the grid's corner, for rows of
/// `tiles_per_line` tiles of edge `draw_size`.
pub(crate) fn tile_position_relative(tile_id: u64, tiles_per_line: u64, draw_size: u64) -> (r: (u64, u64))
    requires
        tiles_per_line >= 1,
        draw_size * (tile_id % tiles_per_line) <= u64::MAX,
        draw_size * (tile_id / tiles_per_line) <= u64::MAX,
    ensures
        r.0 == draw_size * (tile_id % tiles_per_line),
        r.1 == draw_size * (tile_id / tiles_per_line),
{
    let x_offset = tile_id % tiles_per_line;
    let y_offset = tile_id / tiles_per_line;
    (draw_size * x_offset, draw_size * y_offset)
}

/// Adds an offset to a point that stays within `i64`.
pub(crate) fn offset_point(base: Point, dx: u64, dy: u64) -> (r: Point)
    requires
        base.x + dx <= i64::MAX,
        base.y + dy <= i64::MAX,
    ensures
        r.x == base.x + dx,
        r.y == base.y + dy,
{
    Point { x: (base.x as i128 + dx as i128) as i64, y: (base.y as i128 + dy as i128) as i64 }
}

/// Top-left corner of each of `nb_tiles` tiles of edge `tile_draw_size`, laid
/// from `base_position` in rows no wider than `max_width`.
pub fn tile_positions(nb_tiles: usize, tile_draw_size: u64, base_position: Point, max_width: u64) -> (r: Vec<Point>)
    requires
        fits(base_position, tile_draw_size as nat, max_width as nat, nb_tiles as nat),
    ensures
        r@ == positions(base_position, tile_draw_size as nat, max_width as nat, nb_tiles as nat),
{
    let ghost draw = tile_draw_size as nat;
    let ghost width = max_width as nat;
    let per_line = tiles_per_row(tile_draw_size, max_width);
    let mut result: Vec<Point> = Vec::new();
    let mut id: usize = 0;
    while id < nb_tiles
        invariant
            id <= nb_tiles,
            per_line == per_row(draw, width),
            per_line >= 1,
            draw == tile_draw_size,
            width == max_width,
            fits(base_position, draw, width, nb_tiles as nat),
            result@ == positions(base_position, draw, width, id as nat),
        decreases nb_tiles - id,
    {
        proof {
            lemma_tile_in_box(draw, width, nb_tiles as nat, id as nat);
        }
        let (dx, dy) = tile_position_relative(id as u64, per_line, tile_draw_size);
        let p = offset_point(base_position, dx, dy);
        result.push(p);
        id = id + 1;
        proof {
            assert(result@ =~= positions(base_position, draw, width, id as nat));
        }
    }
    result
}

/// Whether the grid of `nb_tiles` tiles anchored at `base_position` lies within
/// the range of `i64`, as `tile_positions` needs.
pub fn layout_fits(base_position: Point, tile_draw_size: u64, max_width: u64, nb_tiles: usize) -> (r: bool)
    ensures
        r == fits(base_position, tile_draw_size as nat, max_width as nat, nb_tiles as nat),
{
    let per_line = tiles_per_row(tile_draw_size, max_width);
    let count = nb_tiles as u64;
    let columns = if count < per_line {
        count
    } else {
        per_line
    };
    let lines = if count == 0 {
        0
    } else {
        (count - 1) / per_line + 1
    };
    proof {
        lemma_per_row_bounds(tile_draw_size as nat, max_width as nat, columns as nat);
        lemma_rows_used(tile_draw_size as nat, max_width as nat, nb_tiles as nat);
    }
    proof {
        assert(tile_draw_size * lines < 0x1_0000_0000_0000_0000_0000_0000_0000_0000) by (nonlinear_arith)
            requires
                tile_draw_size <= u64::MAX,
                lines <= u64::MAX,
        ;
    }
    let width = tile_draw_size as u128 * columns as u128;
    let height = tile_draw_size as u128 * lines as u128;
    let x_room = (i64::MAX as i128 - base_position.x as i128) as u128;
    let y_room = (i64::MAX as i128 - base_position.y as i128) as u128;
    width <= x_room && height <= y_room
}

/// Index `i` follows index `i - 1` in its row, or opens the next row where
/// `i - 1` closes one.
proof fn lemma_next_index(i: nat, p: nat)
    requires
        p >= 1,
        i >= 1,
    ensures
        (i - 1) as nat % p + 1 < p ==> i % p == (i - 1) as nat % p + 1 && i / p == (i - 1) as nat / p,
        (i - 1) as nat % p + 1 == p ==> i % p == 0 && i / p == (i - 1) as nat / p + 1,
{
    let j = (i - 1) as int;
    let q = j / (p as int);
    let r = j % (p as int);
    lemma_fundamental_div_mod(j, p as int);
    lemma_mod_pos_bound(j, p as int);
    lemma_mul_is_commutative(p as int, q);
    if r + 1 < p {
        lemma_fundamental_div_mod_converse(i as int, p as int, q, r + 1);
    } else {
        lemma_mul_is_distributive_add_other_way(p as int, q, 1);
        lemma_mul_is_commutative(p as int, q + 1);
        lemma_fundamental_div_mod_converse(i as int, p as int, q + 1, 0);
    }
}

/// The grid follows a running cursor: the first tile stands at `base`, and each
/// next tile stands right of the one before unless its right edge would pass
/// `max_width` (measured from `base.x`); then it opens a new row at `base.x`,
/// one tile lower. A right edge exactly on `max_width` stays in the row.
pub proof fn lemma_wrapping_rule(base: Point, draw: nat, max_width: nat, n: nat, i: nat)
    requires
        fits(base, draw, max_width, n),
        0 < i < n,
    ensures
        position_of(base, draw, max_width, 0) == base,
        ({
            let prev = position_of(base, draw, max_width, (i - 1) as nat);
            let cur = position_of(base, draw, max_width, i);
            if prev.x - base.x + 2 * draw > max_width {
                cur.x == base.x && cur.y == prev.y + draw
            } else {
                cur.x == prev.x + draw && cur.y == prev.y
            }
        }),
{
    let p = per_row(draw, max_width);
    let j = (i - 1) as nat;
    let c = j % p;
    let r = j / p;
    lemma_per_row_bounds(draw, max_width, 0);
    lemma_small_mod(0, p);
    lemma_basic_div(0, p as int);
    lemma_mul_basics(draw as int);
    lemma_tile_in_box(draw, max_width, n, j);
    lemma_tile_in_box(draw, max_width, n, i);
    lemma_next_index(i, p);
    lemma_mod_pos_bound(j as int, p as int);
    lemma_mul_is_distributive_add(draw as int, c as int, 1);
    lemma_mul_is_distributive_add(draw as int, r as int, 1);
    lemma_mul_is_distributive_add(draw as int, c as int, 2);
    if draw == 0 {
        lemma_mul_basics(c as int);
        lemma_mul_basics(r as int);
        lemma_mul_by_zero_is_zero((c + 1) as int);
        lemma_mul_by_zero_is_zero((r + 1) as int);
        lemma_mul_by_zero_is_zero(c as int);
        lemma_mul_by_zero_is_zero(r as int);
        lemma_mul_by_zero_is_zero((i % p) as int);
        lemma_mul_by_zero_is_zero((i / p) as int);
    } else if c + 1 < p {
        lemma_per_row_bounds(draw, max_width, c + 2);
    } else {
        if max_width >= draw {
            lemma_fundamental_div_mod(max_width as int, draw as int);
            lemma_mod_pos_bound(max_width as int, draw as int);
            lemma_mul_is_distributive_add(draw as int, p as int, 1);
            assert(draw * (c + 2) == draw * (p + 1));
        }
    }
}

/// The box of `needed_size` holds every tile of `tile_positions`, and no
/// smaller box does: some tile reaches its right edge and some its bottom edge.
pub proof fn lemma_needed_size_is_bounding_box(base: Point, draw: nat, max_width: nat, n: nat)
    requires
        fits(base, draw, max_width, n),
    ensures
        forall|i: nat|
            i < n ==> {
                let pos = #[trigger] position_of(base, draw, max_width, i);
                &&& base.x <= pos.x
                &&& pos.x + draw <= base.x + needed_width(draw, max_width, n)
                &&& base.y <= pos.y
                &&& pos.y + draw <= base.y + needed_height(draw, max_width, n)
            },
        n > 0 ==> position_of(
            base,
            draw,
            max_width,
            (columns_used(draw, max_width, n) - 1) as nat,
        ).x + draw == base.x + needed_width(draw, max_width, n),
        n > 0 ==> position_of(base, draw, max_width, (n - 1) as nat).y + draw == base.y
            + needed_height(draw, max_width, n),
{
    assert forall|i: nat| i < n implies {
        let pos = #[trigger] position_of(base, draw, max_width, i);
        &&& base.x <= pos.x
        &&& pos.x + draw <= base.x + needed_width(draw, max_width, n)
        &&& base.y <= pos.y
        &&& pos.y + draw <= base.y + needed_height(draw, max_width, n)
    } by {
        lemma_tile_in_box(draw, max_width, n, i);
        lemma_mul_nonnegative(draw as int, column_of(draw, max_width, i) as int);
        lemma_mul_nonnegative(draw as int, row_of(draw, max_width, i) as int);
    }
    if n > 0 {
        let p = per_row(draw, max_width);
        let k = (columns_used(draw, max_width, n) - 1) as nat;
        lemma_per_row_bounds(draw, max_width, 0);
        lemma_small_mod(k, p);
        lemma_basic_div(k as int, p as int);
        lemma_tile_in_box(draw, max_width, n, k);
        lemma_tile_in_box(draw, max_width, n, (n - 1) as nat);
        lemma_rows_used(draw, max_width, n);
        lemma_mul_is_distributive_add(draw as int, k as int, 1);
        lemma_mul_is_distributive_add(draw as int, row_of(draw, max_width, (n - 1) as nat) as int, 1);
        lemma_mul_basics(draw as int);
    }
}

/// Laying out the same grid twice gives the same positions: the result depends
/// on the arguments alone.
pub proof fn lemma_tile_positions_deterministic(
    first: Seq<Point>,
    second: Seq<Point>,
    base: Point,
    draw: nat,
    max_width: nat,
    n: nat,
)
    requires
        first == positions(base, draw, max_width, n),
        second == positions(base, draw, max_width, n),
    ensures
        first == second,
{
}

/// The top-left corner of tile `i` lies within the range of `i64`.
pub open spec fn corner_fits(base: Point, draw: nat, max_width: nat, i: nat) -> bool {
    &&& base.x + draw * column_of(draw, max_width, i) <= i64::MAX
    &&& base.y + draw * row_of(draw, max_width, i) <= i64::MAX
}

/// Whether the top-left corner of tile `tile_id` lies within the range of
/// `i64`, as `selected_tile_shape` needs.
pub fn corner_in_range(base_position: Point, tile_draw_size: u64, max_width: u64, tile_id: usize) -> (r: bool)
    ensures
        r == corner_fits(base_position, tile_draw_size as nat, max_width as nat, tile_id as nat),
{
    let per_line = tiles_per_row(tile_draw_size, max_width);
    let id = tile_id as u64;
    let column = id % per_line;
    let row = id / per_line;
    proof {
        assert(tile_draw_size * column < 0x1_0000_0000_0000_0000_0000_0000_0000_0000 && tile_draw_size * row
            < 0x1_0000_0000_0000_0000_0000_0000_0000_0000) by (nonlinear_arith)
            requires
                tile_draw_size <= u64::MAX,
                column <= u64::MAX,
                row <= u64::MAX,
        ;
    }
    let dx = tile_draw_size as u128 * column as u128;
    let dy = tile_draw_size as u128 * row as u128;
    let x_room = (i64::MAX as i128 - base_position.x as i128) as u128;
    let y_room = (i64::MAX as i128 - base_position.y as i128) as u128;
    dx <= x_room && dy <= y_room
}

/// Every tile of a grid that fits has its corner in range, so a selected tile
/// of such a grid is always outlined.
pub proof fn lemma_fits_corner(base: Point, draw: nat, max_width: nat, n: nat, i: nat)
    requires
        fits(base, draw, max_width, n),
        i < n,
    ensures
        corner_fits(base, draw, max_width, i),
{
    lemma_tile_in_box(draw, max_width, n, i);
}

} // verus!
