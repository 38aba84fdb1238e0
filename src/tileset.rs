//! The tileset interface: an ordered collection of tiles of one edge length.
use crate::tile::Tile;
use vstd::prelude::*;

verus! {

/// An ordered collection of tiles that share one edge length.
pub trait Tileset {
    /// The tiles, in index order.
    spec fn tiles(&self) -> Seq<Tile>;

    /// The edge length that the tiles share.
    spec fn tile_edge(&self) -> nat;

    /// Edge length of the tiles (their width and their height).
    fn tile_size(&self) -> (r: u16)
        ensures
            r == self.tile_edge(),
    ;

    /// Number of tiles.
    fn len(&self) -> (r: usize)
        ensures
            r == self.tiles().len(),
    ;

    /// The tile with index `tile_id`.
    fn get(&self, tile_id: usize) -> (r: &Tile)
        requires
            tile_id < self.tiles().len(),
        ensures
            *r == self.tiles()[tile_id as int],
    ;

    /// A cursor over the tiles, starting at the first.
    fn iter(&self) -> (r: TilesetIterator<'_, Self>)
        where
            Self: Sized,
        ensures
            r.source() == *self,
            r.index() == 0,
    {
        TilesetIterator::new(self)
    }
}

/// Every tile of `t` has the tileset's edge length.
pub open spec fn is_homogeneous<T: Tileset>(t: &T) -> bool {
    forall|i: int| 0 <= i < t.tiles().len() ==> (#[trigger] t.tiles()[i]).edge() == t.tile_edge()
}

/// Whether every tile of `tileset` has the tileset's edge length.
pub fn tiles_share_size<T: Tileset>(tileset: &T) -> (r: bool)
    ensures
        r == is_homogeneous(tileset),
{
    let edge = tileset.tile_size();
    let n = tileset.len();
    let mut id: usize = 0;
    while id < n
        invariant
            id <= n,
            n == tileset.tiles().len(),
            edge == tileset.tile_edge(),
            forall|i: int| 0 <= i < id ==> (#[trigger] tileset.tiles()[i]).edge() == tileset.tile_edge(),
        decreases n - id,
    {
        if tileset.get(id).size() != edge {
            return false;
        }
        id = id + 1;
    }
    true
}

/// A cursor that hands out the tiles of a tileset one by one, in index order.
pub struct TilesetIterator<'a, T> {
    tileset: &'a T,
    next_value: usize,
}

impl<'a, T> TilesetIterator<'a, T> {
    /// The tileset walked through.
    pub closed spec fn source(self) -> T {
        *self.tileset
    }

    /// Index of the next tile to hand out.
    pub closed spec fn index(self) -> nat {
        self.next_value as nat
    }

    /// A cursor at the first tile of `tileset`.
    pub fn new(tileset: &'a T) -> (r: Self)
        ensures
            r.source() == *tileset,
            r.index() == 0,
    {
        TilesetIterator { tileset, next_value: 0 }
    }
}

impl<'a, T: Tileset> TilesetIterator<'a, T> {
    /// The next tile, or `None` once every tile was handed out.
    pub fn next(&mut self) -> (r: Option<&'a Tile>)
        ensures
            final(self).source() == old(self).source(),
            old(self).index() < old(self).source().tiles().len() ==> {
                &&& final(self).index() == old(self).index() + 1
                &&& match r {
                    Some(t) => *t == old(self).source().tiles()[old(self).index() as int],
                    None => false,
                }
            },
            old(self).index() >= old(self).source().tiles().len() ==> {
                &&& final(self).index() == old(self).index()
                &&& r is None
            },
    {
        if self.next_value < self.tileset.len() {
            let ret = self.tileset.get(self.next_value);
            self.next_value = self.next_value + 1;
            return Some(ret);
        }
        None
    }
}

} // verus!
