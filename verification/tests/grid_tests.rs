use mapgen::grid::{Grid, TileType};
use mapgen::rect::Rect;
use mapgen::text::u64_to_string;

#[test]
fn new_grid_is_all_wall() {
    let g = Grid::new(7, 5);
    assert_eq!(g.width, 7);
    assert_eq!(g.height, 5);
    assert_eq!(g.tiles.len(), 35);
    assert!(g.tiles.iter().all(|t| *t == TileType::Wall));
}

#[test]
fn get_in_bounds_and_out_of_bounds() {
    let g = Grid::new(4, 3);
    assert_eq!(g.get(0, 0), Some(TileType::Wall));
    assert_eq!(g.get(3, 2), Some(TileType::Wall));
    assert_eq!(g.get(4, 0), None);
    assert_eq!(g.get(0, 3), None);
    assert_eq!(g.get(100, 100), None);
}

#[test]
fn set_writes_in_place_and_reports_out_of_bounds() {
    let mut g = Grid::new(4, 4);
    assert!(g.set(TileType::Floor, 2, 1));
    assert_eq!(g.get(2, 1), Some(TileType::Floor));
    assert_eq!(g.tiles[1 * 4 + 2], TileType::Floor);
    let before = g.tiles.clone();
    assert!(!g.set(TileType::Floor, 4, 0));
    assert!(!g.set(TileType::Floor, 0, 4));
    assert_eq!(g.tiles, before);
}

#[test]
fn xy_idx_is_row_major() {
    let g = Grid::new(39, 39);
    assert_eq!(g.xy_idx(0, 0), 0);
    assert_eq!(g.xy_idx(5, 2), 2 * 39 + 5);
    assert_eq!(g.xy_idx(38, 38), 39 * 39 - 1);
}

#[test]
fn count_tiles_counts_exactly() {
    let mut g = Grid::new(3, 3);
    assert_eq!(g.count(TileType::Wall), 9);
    assert_eq!(g.count(TileType::Floor), 0);
    g.set(TileType::Floor, 0, 0);
    g.set(TileType::Floor, 2, 2);
    assert_eq!(g.count(TileType::Wall), 7);
    assert_eq!(g.count(TileType::Floor), 2);
}

#[test]
fn to_text_draws_each_cell_and_terminates_rows() {
    let mut g = Grid::new(2, 2);
    g.set(TileType::Floor, 1, 1);
    let s = g.to_text();
    assert_eq!(s, "■ ■ \n■   \n");
}

#[test]
fn duplicate_is_independent_copy() {
    let mut g = Grid::new(3, 3);
    g.set(TileType::Floor, 1, 1);
    let mut d = g.duplicate();
    assert_eq!(d.tiles, g.tiles);
    d.set(TileType::Wall, 1, 1);
    assert_eq!(g.get(1, 1), Some(TileType::Floor));
}

#[test]
fn rect_new_sets_corners() {
    let r = Rect::new(2, 3, 10, 4);
    assert_eq!(r.x1, 2);
    assert_eq!(r.y1, 3);
    assert_eq!(r.x2, 12);
    assert_eq!(r.y2, 7);
}

#[test]
fn rect_intersect_detects_overlap_and_separation() {
    let a = Rect::new(0, 0, 4, 4);
    let b = Rect::new(2, 2, 4, 4);
    let c = Rect::new(10, 10, 2, 2);
    assert!(a.intersect(&b));
    assert!(b.intersect(&a));
    assert!(!a.intersect(&c));
    // shared edges count as intersecting
    let d = Rect::new(4, 0, 3, 3);
    assert!(a.intersect(&d));
}

#[test]
fn rect_center_is_midpoint() {
    let r = Rect::new(2, 2, 6, 4);
    assert_eq!(r.center(), (5, 4));
}

#[test]
fn decimal_rendering_is_exact() {
    assert_eq!(u64_to_string(0), "0");
    assert_eq!(u64_to_string(7), "7");
    assert_eq!(u64_to_string(1234), "1234");
    assert_eq!(u64_to_string(1600), "1600");
    assert_eq!(u64_to_string(u64::MAX), "18446744073709551615");
}
