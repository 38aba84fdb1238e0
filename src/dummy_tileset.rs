//! A placeholder tileset: eight uniform 8×8 tiles in the additive primary and
//! secondary colors, then white and black.
use crate::color::Color;
use crate::tile::Tile;
use crate::tileset::Tileset;
use vstd::prelude::*;

verus! {

/// Edge length of the placeholder tiles.
pub const DUMMY_TILE_SIZE: u16 = 8;

/// The sRGB bytes of the placeholder tile with index `i`: red, green, blue,
/// magenta, yellow, cyan, white, black.
pub open spec fn palette_rgb(i: int) -> (u8, u8, u8) {
    if i == 0 {
        (255, 0, 0)
    } else if i == 1 {
        (0, 255, 0)
    } else if i == 2 {
        (0, 0, 255)
    } else if i == 3 {
        (255, 0, 255)
    } else if i == 4 {
        (255, 255, 0)
    } else if i == 5 {
        (0, 255, 255)
    } else if i == 6 {
        (255, 255, 255)
    } else {
        (0, 0, 0)
    }
}

/// The opaque color of the placeholder tile with index `i`.
pub open spec fn palette_color(i: int) -> Color {
    Color { r: palette_rgb(i).0, g: palette_rgb(i).1, b: palette_rgb(i).2, a: 255 }
}

/// The tileset used when no other is loaded.
pub struct DummyTileset {
    tiles: Vec<Tile>,
}

/// An 8×8 tile whose every cell has color `color`.
pub fn new_tile(color: Color) -> (t: Tile)
    ensures
        t.edge() == DUMMY_TILE_SIZE,
        t.cells() == Seq::new(64, |k: int| color),
{
    let mut cells: Vec<Color> = Vec::new();
    let mut k: usize = 0;
    while k < 64
        invariant
            k <= 64,
            cells@ == Seq::new(k as nat, |j: int| color),
        decreases 64 - k,
    {
        cells.push(color);
        k = k + 1;
        proof {
            assert(cells@ =~= Seq::new(k as nat, |j: int| color));
        }
    }
    Tile::new(DUMMY_TILE_SIZE, cells)
}

impl Default for DummyTileset {
    fn default() -> (r: Self)
        ensures
            r.tiles().len() == 8,
            r.tile_edge() == DUMMY_TILE_SIZE,
            forall|i: int|
                0 <= i < 8 ==> (#[trigger] r.tiles()[i]).edge() == DUMMY_TILE_SIZE && r.tiles()[i].cells()
                    == Seq::new(64, |k: int| palette_color(i)),
    {
        let mut tiles: Vec<Tile> = Vec::new();
        tiles.push(new_tile(Color::from_rgb(255, 0, 0)));
        tiles.push(new_tile(Color::from_rgb(0, 255, 0)));
        tiles.push(new_tile(Color::from_rgb(0, 0, 255)));
        tiles.push(new_tile(Color::from_rgb(255, 0, 255)));
        tiles.push(new_tile(Color::from_rgb(255, 255, 0)));
        tiles.push(new_tile(Color::from_rgb(0, 255, 255)));
        tiles.push(new_tile(Color::from_rgb(255, 255, 255)));
        tiles.push(new_tile(Color::from_rgb(0, 0, 0)));
        DummyTileset { tiles }
    }
}

impl Tileset for DummyTileset {
    closed spec fn tiles(&self) -> Seq<Tile> {
        self.tiles@
    }

    closed spec fn tile_edge(&self) -> nat {
        DUMMY_TILE_SIZE as nat
    }

    fn tile_size(&self) -> (r: u16) {
        DUMMY_TILE_SIZE
    }

    fn len(&self) -> (r: usize) {
        self.tiles.len()
    }

    fn get(&self, tile_id: usize) -> (r: &Tile) {
        &self.tiles[tile_id]
    }
}

} // verus!
