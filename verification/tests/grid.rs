//! Tests of the flat row-major grid and of tileset tiles.

use game::tmx::layer::Grid;
use game::tmx::tileset::Tile;

#[test]
fn grid_set_get_round_trip() {
    // row = idx / width, col = idx % width address the flat offset idx
    let mut g = Grid::new(10, 5);
    assert_eq!(g.width(), 10);
    assert_eq!(g.height(), 5);
    for idx in 0..50usize {
        g.set(idx / 10, idx % 10, idx + 100);
    }
    for idx in 0..50usize {
        assert_eq!(g.get(idx / 10, idx % 10), idx + 100);
    }
}

#[test]
fn grid_starts_zeroed() {
    let g = Grid::new(3, 2);
    for r in 0..2 {
        for c in 0..3 {
            assert_eq!(g.get(r, c), 0);
        }
    }
}

#[test]
fn tile_new_is_empty() {
    let t = Tile::new(7);
    assert_eq!(t.id, 7);
    assert!(t.properties.is_empty());
}
