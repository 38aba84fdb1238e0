//! Draw primitives for tiles: one filled square per cell, and an outline for
//! the selected tile.
use crate::layout::{corner_fits, offset_point, position_of, tile_position_relative, tiles_per_row, Point};
use crate::tile::Tile;
use crate::color::Color;
use vstd::arithmetic::div_mod::*;
use vstd::arithmetic::mul::*;
use vstd::prelude::*;

verus! {

/// Width of the outline drawn around the selected tile, in pixels.
pub const OUTLINE_STROKE_WIDTH: u64 = 3;

/// The sRGB gray byte of the selected tile's outline.
pub const OUTLINE_GRAY: u8 = 149;

/// The color of the selected tile's outline: an opaque mid gray.
pub open spec fn outline_color() -> Color {
    Color { r: OUTLINE_GRAY, g: OUTLINE_GRAY, b: OUTLINE_GRAY, a: 255 }
}

/// A filled square with top-left corner `min` and edge `side`.
#[derive(Clone, Copy, Debug, PartialEq)]
pub struct FilledRect {
    pub min: Point,
    pub side: u64,
    pub color: Color,
}

/// The outline of a square with top-left corner `min` and edge `side`, drawn
/// with a line `stroke_width` pixels wide in `color`.
#[derive(Clone, Copy, Debug, PartialEq, Eq, Structural)]
pub struct Outline {
    pub min: Point,
    pub side: u64,
    pub stroke_width: u64,
    pub color: Color,
}

/// The square that draws cell `(x, y)` of `tile`, scaled by `scale`, for the
/// tile drawn at `position`.
pub open spec fn cell_rect(tile: Tile, position: Point, scale: nat, x: nat, y: nat) -> FilledRect {
    FilledRect {
        min: Point { x: (position.x + x * scale) as i64, y: (position.y + y * scale) as i64 },
        side: scale as u64,
        color: tile.cell(x as int, y as int),
    }
}

/// The squares that draw `tile` at `position`: column by column, and within a
/// column from top to bottom.
pub open spec fn tile_shapes(tile: Tile, position: Point, scale: nat) -> Seq<FilledRect> {
    let e = tile.edge();
    Seq::new(e * e, |k: int| cell_rect(tile, position, scale, (k / e as int) as nat, (k % e as int) as nat))
}

/// The squares that draw `tile` with its top-left corner at `position`, each
/// cell `size_factor` pixels wide.
pub fn get_tile_shapes(tile: &Tile, position: Point, size_factor: u64) -> (r: Vec<FilledRect>)
    requires
        position.x + tile.edge() * size_factor <= i64::MAX,
        position.y + tile.edge() * size_factor <= i64::MAX,
    ensures
        r@ == tile_shapes(*tile, position, size_factor as nat),
{
    let tile_size = tile.size();
    let ghost e = tile_size as nat;
    let ghost scale = size_factor as nat;
    let mut shapes: Vec<FilledRect> = Vec::new();
    let mut x: u16 = 0;
    while x < tile_size
        invariant
            x <= tile_size,
            e == tile.edge(),
            tile_size == e,
            scale == size_factor,
            position.x + e * scale <= i64::MAX,
            position.y + e * scale <= i64::MAX,
            shapes@ =~= tile_shapes(*tile, position, scale).take(x * e),
        decreases tile_size - x,
    {
        let mut y: u16 = 0;
        while y < tile_size
            invariant
                x < tile_size,
                y <= tile_size,
                e == tile.edge(),
                tile_size == e,
                scale == size_factor,
                position.x + e * scale <= i64::MAX,
                position.y + e * scale <= i64::MAX,
                shapes@ =~= tile_shapes(*tile, position, scale).take(x * e + y),
            decreases tile_size - y,
        {
            proof {
                assert(x * scale <= e * scale && y * scale <= e * scale && 0 <= x * scale && 0 <= y
                    * scale) by (nonlinear_arith)
                    requires
                        x < e,
                        y < e,
                ;
                assert(x * e + y < e * e) by (nonlinear_arith)
                    requires
                        x < e,
                        y < e,
                ;
                lemma_mul_is_commutative(x as int, e as int);
                lemma_fundamental_div_mod_converse(x * e + y, e as int, x as int, y as int);
            }
            let corner = offset_point(position, x as u64 * size_factor, y as u64 * size_factor);
            let color = *tile.get(x, y);
            shapes.push(FilledRect { min: corner, side: size_factor, color });
            y = y + 1;
        }
        x = x + 1;
        proof {
            lemma_mul_is_distributive_add_other_way(e as int, (x - 1) as int, 1);
        }
    }
    proof {
        assert(tile_shapes(*tile, position, scale).len() == e * e);
    }
    shapes
}

/// The outline of the tile with index `id`, in the grid anchored at
/// `base_position` with rows no wider than `widget_width`.
pub fn selected_tile_shape(id: usize, widget_width: u64, tile_draw_width: u64, base_position: Point) -> (r: Outline)
    requires
        corner_fits(base_position, tile_draw_width as nat, widget_width as nat, id as nat),
    ensures
        r == (Outline {
            min: position_of(base_position, tile_draw_width as nat, widget_width as nat, id as nat),
            side: tile_draw_width,
            stroke_width: OUTLINE_STROKE_WIDTH,
            color: outline_color(),
        }),
{
    let per_line = tiles_per_row(tile_draw_width, widget_width);
    let (dx, dy) = tile_position_relative(id as u64, per_line, tile_draw_width);
    let select_pos = offset_point(base_position, dx, dy);
    let color = Color::from_rgb(OUTLINE_GRAY, OUTLINE_GRAY, OUTLINE_GRAY);
    Outline { min: select_pos, side: tile_draw_width, stroke_width: OUTLINE_STROKE_WIDTH, color }
}

} // verus!
