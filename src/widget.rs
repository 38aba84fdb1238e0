//! The tileset widget: lays out a tileset, turns it into draw primitives and
//! keeps the selected tile across frames.
use crate::hit_test::{contains, first_hit, lemma_center_selects_tile, lemma_tile_edges, tile_at};
use crate::layout::{
    corner_fits, corner_in_range, fits, layout_fits, lemma_rows_used, lemma_needed_size_is_bounding_box, needed_height, needed_size,
    needed_width, position_of, positions, tile_positions, Point, Size,
};
use crate::shapes::{
    get_tile_shapes, outline_color, selected_tile_shape, tile_shapes, FilledRect, Outline, OUTLINE_STROKE_WIDTH,
};
use crate::tile::Tile;
use crate::tileset::{is_homogeneous, Tileset};
use vstd::arithmetic::div_mod::{lemma_fundamental_div_mod, lemma_mod_pos_bound};
use vstd::arithmetic::mul::{
    lemma_mul_basics, lemma_mul_inequality, lemma_mul_is_commutative, lemma_mul_is_distributive_add_other_way,
};
use vstd::prelude::*;

verus! {

/// What the pointer did over the widget during one frame.
#[derive(Clone, Copy, Debug, PartialEq, Eq, Structural)]
pub struct PointerEvent {
    /// Where the pointer is, if it is over the widget.
    pub position: Option<Point>,
    /// The primary button clicked (or started a drag).
    pub primary_clicked: bool,
    /// The secondary button clicked.
    pub secondary_clicked: bool,
}

/// What one frame of the widget draws and the room it needs.
#[derive(Clone, Debug, PartialEq)]
pub struct TilesFrame {
    /// The room the tiles take.
    pub desired_size: Size,
    /// One filled square per cell of every tile.
    pub shapes: Vec<FilledRect>,
    /// The outline of the selected tile, if one is selected.
    pub selection: Option<Outline>,
}

/// The tile that a pointer event picks among tiles with corners `ps`: the
/// first one under the pointer, on a primary click only.
pub open spec fn pointer_hit(ps: Seq<Point>, draw: nat, pointer: PointerEvent) -> Option<nat> {
    match pointer.position {
        Some(p) => if pointer.primary_clicked {
            first_hit(ps, draw, p)
        } else {
            None
        },
        None => None,
    }
}

/// The selection after a click: a secondary click clears it; otherwise a tile
/// hit by a primary click becomes selected, and a miss keeps the selection.
pub open spec fn next_selection(current: Option<usize>, hit: Option<nat>, secondary: bool) -> Option<usize> {
    if secondary {
        None
    } else {
        match hit {
            Some(i) => Some(i as usize),
            None => current,
        }
    }
}

/// The squares that draw the first `k` tiles of `tiles` at corners `ps`, in
/// tile order.
pub open spec fn all_tile_shapes(tiles: Seq<Tile>, ps: Seq<Point>, scale: nat, k: nat) -> Seq<FilledRect>
    decreases k,
{
    if k == 0 {
        Seq::empty()
    } else {
        all_tile_shapes(tiles, ps, scale, (k - 1) as nat) + tile_shapes(tiles[k - 1], ps[k - 1], scale)
    }
}

/// The selection rules, for tiles laid out by `tile_positions`: a secondary
/// click clears the selection; a primary click on no tile keeps it; a primary
/// click on the center or on the top-left corner of tile `i` selects tile `i`.
pub proof fn lemma_selection_rules(
    base: Point,
    draw: nat,
    max_width: nat,
    n: nat,
    current: Option<usize>,
    pointer: PointerEvent,
    i: nat,
)
    requires
        fits(base, draw, max_width, n),
        i < n,
        i <= usize::MAX,
    ensures
        pointer.secondary_clicked ==> next_selection(
            current,
            pointer_hit(positions(base, draw, max_width, n), draw, pointer),
            pointer.secondary_clicked,
        ) is None,
        !pointer.secondary_clicked && (forall|j: int|
            0 <= j < n ==> !contains(
                #[trigger] positions(base, draw, max_width, n)[j],
                draw,
                pointer.position->Some_0,
            )) ==> next_selection(
            current,
            pointer_hit(positions(base, draw, max_width, n), draw, pointer),
            pointer.secondary_clicked,
        ) == current,
        ({
            let pos = position_of(base, draw, max_width, i);
            let center = Point { x: (pos.x + draw / 2) as i64, y: (pos.y + draw / 2) as i64 };
            let on_center = PointerEvent { position: Some(center), primary_clicked: true, secondary_clicked: false };
            let on_corner = PointerEvent { position: Some(pos), primary_clicked: true, secondary_clicked: false };
            draw > 0 ==> {
                &&& next_selection(
                    current,
                    pointer_hit(positions(base, draw, max_width, n), draw, on_center),
                    false,
                ) == Some(i as usize)
                &&& next_selection(
                    current,
                    pointer_hit(positions(base, draw, max_width, n), draw, on_corner),
                    false,
                ) == Some(i as usize)
            }
        }),
{
    let ps = positions(base, draw, max_width, n);
    if let Some(p) = pointer.position {
        if forall|j: int| 0 <= j < n ==> !contains(#[trigger] ps[j], draw, p) {
            lemma_no_hit(ps, draw, p);
        }
    }
    if draw > 0 {
        lemma_center_selects_tile(base, draw, max_width, n, i);
        lemma_tile_edges(base, draw, max_width, n, i);
    }
}

/// With no square holding `p`, nothing is hit.
proof fn lemma_no_hit(corners: Seq<Point>, draw: nat, p: Point)
    requires
        forall|j: int| 0 <= j < corners.len() ==> !contains(#[trigger] corners[j], draw, p),
    ensures
        first_hit(corners, draw, p) is None,
    decreases corners.len(),
{
    if corners.len() > 0 {
        let rest = corners.drop_last();
        assert forall|j: int| 0 <= j < rest.len() implies !contains(#[trigger] rest[j], draw, p) by {
            assert(rest[j] == corners[j]);
        }
        lemma_no_hit(rest, draw, p);
        assert(corners.last() == corners[corners.len() - 1]);
    }
}

/// A tileset without tiles needs no room and draws no square.
pub proof fn lemma_empty_frame(tiles: Seq<Tile>, corners: Seq<Point>, draw: nat, max_width: nat, scale: nat)
    ensures
        needed_width(draw, max_width, 0) == 0,
        needed_height(draw, max_width, 0) == 0,
        all_tile_shapes(tiles, corners, scale, 0) == Seq::<FilledRect>::empty(),
{
    lemma_rows_used(draw, max_width, 0);
    lemma_mul_basics(draw as int);
}

/// Displays a tileset as a wrapping grid and lets the user select one tile.
pub struct TilesetWidget {
    size_factor: u64,
    selected_tile: Option<usize>,
}

impl TilesetWidget {
    /// Pixels per tile cell.
    pub closed spec fn scale(self) -> nat {
        self.size_factor as nat
    }

    /// The selected tile, if any.
    pub closed spec fn selection(self) -> Option<usize> {
        self.selected_tile
    }

    /// The widget can lay out `tileset` in a row `width` wide from `base`
    /// within the range of its integers.
    pub open spec fn can_show<T: Tileset>(self, tileset: &T, width: nat, base: Point) -> bool {
        &&& tileset.tile_edge() * self.scale() <= u64::MAX
        &&& fits(base, tileset.tile_edge() * self.scale(), width, tileset.tiles().len())
    }

    /// A widget that draws each tile cell `size_factor` pixels wide, with no
    /// tile selected.
    pub fn new(size_factor: u64) -> (r: Self)
        ensures
            r.scale() == size_factor,
            r.selection() is None,
    {
        Self { size_factor, selected_tile: None }
    }

    /// The selected tile, if any.
    pub fn get_selected(&self) -> (r: Option<usize>)
        ensures
            r == self.selection(),
    {
        self.selected_tile
    }

    /// Pixels per tile cell.
    pub fn size_factor(&self) -> (r: u64)
        ensures
            r == self.scale(),
    {
        self.size_factor
    }

    /// Applies a click: `hit` is the tile under a primary click, if any.
    pub fn update_selection(&mut self, hit: Option<usize>, secondary_clicked: bool)
        ensures
            final(self).scale() == old(self).scale(),
            final(self).selection() == next_selection(
                old(self).selection(),
                match hit {
                    Some(i) => Some(i as nat),
                    None => None,
                },
                secondary_clicked,
            ),
    {
        if let Some(tile_id) = hit {
            self.selected_tile = Some(tile_id);
        }
        if secondary_clicked {
            self.selected_tile = None;
        }
    }

    /// Whether `show_tiles` can lay out `tileset` for this width and anchor.
    pub fn can_show_tiles<T: Tileset>(&self, tileset: &T, widget_width: u64, base_position: Point) -> (r: bool)
        ensures
            r == self.can_show(tileset, widget_width as nat, base_position),
    {
        let edge = tileset.tile_size() as u64;
        if edge > 0 && self.size_factor > u64::MAX / edge {
            proof {
                lemma_fundamental_div_mod(u64::MAX as int, edge as int);
                lemma_mod_pos_bound(u64::MAX as int, edge as int);
                lemma_mul_inequality(
                    u64::MAX as int / edge as int + 1,
                    self.size_factor as int,
                    edge as int,
                );
                lemma_mul_is_commutative(edge as int, self.size_factor as int);
                lemma_mul_is_distributive_add_other_way(
                    edge as int,
                    u64::MAX as int / edge as int,
                    1,
                );
                lemma_mul_is_commutative(edge as int, u64::MAX as int / edge as int + 1);
            }
            return false;
        }
        proof {
            if edge > 0 {
                lemma_fundamental_div_mod(u64::MAX as int, edge as int);
                lemma_mod_pos_bound(u64::MAX as int, edge as int);
                lemma_mul_inequality(
                    self.size_factor as int,
                    u64::MAX as int / edge as int,
                    edge as int,
                );
                lemma_mul_is_commutative(edge as int, self.size_factor as int);
                lemma_mul_is_commutative(edge as int, u64::MAX as int / edge as int);
            } else {
                lemma_mul_basics(self.size_factor as int);
            }
        }
        layout_fits(base_position, edge * self.size_factor, widget_width, tileset.len())
    }

    /// One frame: lays out the tiles of `tileset` from `base_position` in rows
    /// no wider than `widget_width`, applies the pointer event to the
    /// selection, and returns the room needed, the squares of every cell and
    /// the outline of the selected tile. A tileset without tiles draws no
    /// outline; otherwise the selected tile is outlined wherever the grid
    /// would put it, also past the last tile, as long as that corner lies
    /// within the range of `i64`.
    pub fn show_tiles<T: Tileset>(
        &mut self,
        tileset: &T,
        widget_width: u64,
        base_position: Point,
        pointer: PointerEvent,
    ) -> (r: TilesFrame)
        requires
            is_homogeneous(tileset),
            old(self).can_show(tileset, widget_width as nat, base_position),
        ensures
            ({
                let draw = tileset.tile_edge() * old(self).scale();
                let n = tileset.tiles().len();
                let ps = positions(base_position, draw, widget_width as nat, n);
                &&& final(self).scale() == old(self).scale()
                &&& r.desired_size == (Size {
                    width: needed_width(draw, widget_width as nat, n) as u64,
                    height: needed_height(draw, widget_width as nat, n) as u64,
                })
                &&& r.shapes@ == all_tile_shapes(tileset.tiles(), ps, old(self).scale(), n)
                &&& final(self).selection() == next_selection(
                    old(self).selection(),
                    pointer_hit(ps, draw, pointer),
                    pointer.secondary_clicked,
                )
                &&& r.selection == match final(self).selection() {
                    Some(id) => if n > 0 && corner_fits(base_position, draw, widget_width as nat, id as nat) {
                        Some(
                            Outline {
                                min: position_of(base_position, draw, widget_width as nat, id as nat),
                                side: draw as u64,
                                stroke_width: OUTLINE_STROKE_WIDTH,
                                color: outline_color(),
                            },
                        )
                    } else {
                        None
                    },
                    None => None,
                }
            }),
    {
        let ghost scale = self.size_factor as nat;
        let ghost edge = tileset.tile_edge();
        let ghost tiles = tileset.tiles();
        let nb_tiles = tileset.len();
        let tile_draw_width = tileset.tile_size() as u64 * self.size_factor;
        let ghost draw = tile_draw_width as nat;
        proof {
            lemma_needed_size_is_bounding_box(base_position, draw, widget_width as nat, nb_tiles as nat);
        }
        let desired_size = needed_size(tile_draw_width, widget_width, nb_tiles);
        let corners = tile_positions(nb_tiles, tile_draw_width, base_position, widget_width);

        let mut shapes: Vec<FilledRect> = Vec::new();
        let mut tiles_left = tileset.iter();
        let mut id: usize = 0;
        while id < nb_tiles
            invariant
                id <= nb_tiles,
                nb_tiles == tiles.len(),
                tiles == tileset.tiles(),
                edge == tileset.tile_edge(),
                is_homogeneous(tileset),
                scale == self.size_factor,
                draw == edge * scale,
                tiles_left.source() == *tileset,
                tiles_left.index() == id,
                corners@ == positions(base_position, draw, widget_width as nat, nb_tiles as nat),
                fits(base_position, draw, widget_width as nat, nb_tiles as nat),
                forall|i: nat|
                    i < nb_tiles ==> {
                        let pos = #[trigger] position_of(base_position, draw, widget_width as nat, i);
                        &&& pos.x + draw <= base_position.x + needed_width(draw, widget_width as nat, nb_tiles as nat)
                        &&& pos.y + draw <= base_position.y + needed_height(draw, widget_width as nat, nb_tiles as nat)
                    },
                shapes@ == all_tile_shapes(tiles, corners@, scale, id as nat),
            decreases nb_tiles - id,
        {
            let next = tiles_left.next();
            if let Some(tile) = next {
                let pos = corners[id];
                proof {
                    assert(pos == position_of(base_position, draw, widget_width as nat, id as nat));
                    assert(tiles[id as int].edge() == edge);
                }
                let mut tile_shapes = get_tile_shapes(tile, pos, self.size_factor);
                shapes.append(&mut tile_shapes);
            }
            id = id + 1;
        }

        let hit = if pointer.primary_clicked {
            match pointer.position {
                Some(p) => tile_at(&corners, tile_draw_width, p),
                None => None,
            }
        } else {
            None
        };
        self.update_selection(hit, pointer.secondary_clicked);

        let selection = match self.selected_tile {
            Some(tile_id) => if nb_tiles > 0 && corner_in_range(
                base_position,
                tile_draw_width,
                widget_width,
                tile_id,
            ) {
                Some(selected_tile_shape(tile_id, widget_width, tile_draw_width, base_position))
            } else {
                None
            },
            None => None,
        };
        TilesFrame { desired_size, shapes, selection }
    }
}

impl Default for TilesetWidget {
    fn default() -> (r: Self)
        ensures
            r.scale() == 1,
            r.selection() is None,
    {
        Self { size_factor: 1, selected_tile: None }
    }
}

} // verus!
