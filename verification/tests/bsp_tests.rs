use mapgen::bsp::BSPDungeonBuilder;
use mapgen::builder::MapBuilder;
use mapgen::grid::TileType;
use mapgen::rng::Lcg;

#[test]
fn bsp_places_separated_sorted_rooms() {
    for seed in 0..5u64 {
        let mut bs = BSPDungeonBuilder::new(39, 39, Lcg::new(seed));
        bs.build();
        let rooms = &bs.rooms;
        assert!(rooms.len() <= 240);
        for w in rooms.windows(2) {
            assert!(w[0].x1 <= w[1].x1);
        }
        for i in 0..rooms.len() {
            for j in 0..rooms.len() {
                if i != j {
                    let (a, b) = (&rooms[i], &rooms[j]);
                    // the 2-tile feasibility margin leaves the pair separated
                    assert!(
                        a.x2 + 2 <= b.x1 || b.x2 + 2 <= a.x1 || a.y2 + 2 <= b.y1
                            || b.y2 + 2 <= a.y1
                    );
                    assert!(!a.intersect(b));
                }
            }
        }
    }
}

#[test]
fn bsp_room_interiors_are_floor() {
    let mut bs = BSPDungeonBuilder::new(39, 39, Lcg::new(77));
    bs.build();
    assert!(!bs.rooms.is_empty());
    let m = bs.get_map();
    for r in &bs.rooms {
        for y in (r.y1 + 1)..=r.y2 {
            for x in (r.x1 + 1)..=r.x2 {
                assert_eq!(m.get(x as usize, y as usize), Some(TileType::Floor));
            }
        }
    }
}

#[test]
fn bsp_iterate_is_a_no_op() {
    let mut bs = BSPDungeonBuilder::new(39, 39, Lcg::new(3));
    bs.build();
    let before = bs.get_map();
    MapBuilder::iterate(&mut bs);
    assert_eq!(bs.get_map().tiles, before.tiles);
}

#[test]
fn bsp_stats_report_room_count() {
    let mut bs = BSPDungeonBuilder::new(39, 39, Lcg::new(21));
    bs.build();
    let mut data: Vec<(&str, String)> = Vec::new();
    bs.update_map_data(&mut data);
    assert_eq!(data.len(), 2);
    assert_eq!(data[0], ("Name", "Binary Space Partitioning".to_string()));
    assert_eq!(data[1].0, "Number of Rooms");
    assert_eq!(data[1].1, bs.rooms.len().to_string());
    assert_eq!(bs.notes(), "");
}

#[test]
fn bsp_border_ring_stays_wall() {
    let mut bs = BSPDungeonBuilder::new(39, 39, Lcg::new(5));
    bs.build();
    let m = bs.get_map();
    for k in 0..39 {
        assert_eq!(m.get(k, 0), Some(TileType::Wall));
        assert_eq!(m.get(k, 38), Some(TileType::Wall));
        assert_eq!(m.get(0, k), Some(TileType::Wall));
        assert_eq!(m.get(38, k), Some(TileType::Wall));
    }
}
