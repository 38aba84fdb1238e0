use layerloom::color::Color;
use layerloom::tile::Tile;

const GREEN: Color = Color { r: 0, g: 255, b: 0, a: 255 };
const BLUE: Color = Color { r: 0, g: 0, b: 255, a: 255 };
const RED: Color = Color { r: 255, g: 0, b: 0, a: 255 };
const BLACK: Color = Color { r: 0, g: 0, b: 0, a: 255 };

#[test]
fn get_position() {
    let tile = Tile::new(2, vec![GREEN, BLUE, RED, BLACK]);

    let pixel = tile[(0, 0)];
    assert_eq!(GREEN, pixel);
    let pixel = tile[(1, 0)];
    assert_eq!(BLUE, pixel);
    let pixel = tile[(0, 1)];
    assert_eq!(RED, pixel);
    let pixel = tile[(1, 1)];
    assert_eq!(BLACK, pixel);
}

#[test]
fn get_is_the_same_as_index() {
    let tile = Tile::new(2, vec![GREEN, BLUE, RED, BLACK]);

    assert_eq!(tile[(0, 0)], *tile.get(0, 0));
    assert_eq!(tile[(1, 0)], *tile.get(1, 0));
    assert_eq!(tile[(0, 1)], *tile.get(0, 1));
    assert_eq!(tile[(1, 1)], *tile.get(1, 1));
}

#[test]
fn size() {
    let tile = Tile::new(2, vec![GREEN, BLUE, RED, BLACK]);
    let _ = tile.size();
}

#[test]
fn size_is_edge_length() {
    let tile = Tile::new(2, vec![GREEN, BLUE, RED, BLACK]);
    assert_eq!(tile.size(), 2);
    let empty = Tile::new(0, vec![]);
    assert_eq!(empty.size(), 0);
}

#[test]
fn cells_are_row_major() {
    let cells: Vec<Color> = (0..9u8).map(|i| Color::from_rgb(i, 2 * i, 3 * i)).collect();
    let tile = Tile::new(3, cells.clone());
    for y in 0..3u16 {
        for x in 0..3u16 {
            assert_eq!(*tile.get(x, y), cells[(x + 3 * y) as usize]);
        }
    }
}
