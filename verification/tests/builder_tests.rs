use mapgen::bsp::BSPDungeonBuilder;
use mapgen::builder::MapBuilder;
use mapgen::cellular::CellularAutomataBuilder;
use mapgen::df_aggregation::DiffusionLimitedAggregationBuilder;
use mapgen::drunkard::DrunkardBuilder;
use mapgen::grid::TileType;
use mapgen::rng::{rand_range, FastRandom, Lcg, RandomSource, ScriptedSource, ThreadRandom};

fn floors(tiles: &[TileType]) -> usize {
    tiles.iter().filter(|t| **t == TileType::Floor).count()
}

#[test]
fn area_invariant_after_build_and_iterate() {
    let mut ca = CellularAutomataBuilder::new(39, 39, Lcg::new(1));
    let mut dr = DrunkardBuilder::new(39, 39, Lcg::new(2));
    let mut da = DiffusionLimitedAggregationBuilder::new(39, 39, Lcg::new(3));
    let mut bs = BSPDungeonBuilder::new(39, 39, Lcg::new(4));
    ca.build();
    dr.build();
    da.build();
    bs.build();
    for _ in 0..3 {
        ca.iterate();
        dr.iterate();
        MapBuilder::iterate(&mut da);
        MapBuilder::iterate(&mut bs);
        for m in [ca.get_map(), dr.get_map(), da.get_map(), bs.get_map()] {
            assert_eq!(m.width * m.height, m.tiles.len());
        }
    }
}

#[test]
fn get_map_twice_is_bit_identical() {
    let mut dr = DrunkardBuilder::new(39, 39, Lcg::new(9));
    dr.build();
    dr.iterate();
    let a = dr.get_map();
    let b = dr.get_map();
    assert_eq!(a.width, b.width);
    assert_eq!(a.height, b.height);
    assert_eq!(a.tiles, b.tiles);
}

#[test]
fn drunkard_floor_count_never_decreases() {
    let mut dr = DrunkardBuilder::new(39, 39, Lcg::new(11));
    dr.build();
    let mut last = floors(&dr.get_map().tiles);
    assert_eq!(last, 5);
    for _ in 0..30 {
        dr.iterate();
        let now = floors(&dr.get_map().tiles);
        assert!(now >= last);
        last = now;
    }
}

#[test]
fn dla_floor_count_never_decreases() {
    let mut da = DiffusionLimitedAggregationBuilder::new(39, 39, Lcg::new(12));
    da.build();
    let mut last = floors(&da.get_map().tiles);
    assert_eq!(last, 5);
    for _ in 0..20 {
        MapBuilder::iterate(&mut da);
        let now = floors(&da.get_map().tiles);
        assert!(now >= last);
        last = now;
    }
}

#[test]
fn cellular_iteration_is_capped_at_sixteen() {
    let mut ca = CellularAutomataBuilder::new(20, 20, Lcg::new(5));
    ca.build();
    for _ in 0..25 {
        ca.iterate();
    }
    assert_eq!(ca.iterations, 16);
    let frozen = ca.get_map();
    ca.iterate();
    assert_eq!(ca.get_map().tiles, frozen.tiles);
}

#[test]
fn drunkard_iteration_is_capped_at_twenty_four() {
    let mut dr = DrunkardBuilder::new(39, 39, Lcg::new(6));
    dr.build();
    for _ in 0..40 {
        dr.iterate();
    }
    assert_eq!(dr.iterations, 24);
}

#[test]
fn dla_iteration_is_capped_at_sixteen() {
    let mut da = DiffusionLimitedAggregationBuilder::new(39, 39, Lcg::new(7));
    da.build();
    for _ in 0..25 {
        MapBuilder::iterate(&mut da);
    }
    assert_eq!(da.iterations, 16);
}

#[test]
fn builds_seed_the_center_cross() {
    let mut dr = DrunkardBuilder::new(39, 39, Lcg::new(8));
    dr.build();
    let m = dr.get_map();
    for (x, y) in [(19, 18), (18, 19), (19, 19), (20, 19), (19, 20)] {
        assert_eq!(m.get(x, y), Some(TileType::Floor));
    }
    assert_eq!(floors(&m.tiles), 5);
    let mut da = DiffusionLimitedAggregationBuilder::new(39, 39, Lcg::new(8));
    da.build();
    assert_eq!(da.get_map().tiles, m.tiles);
}

#[test]
fn cellular_stats_report_name_and_iteration() {
    let mut ca = CellularAutomataBuilder::new(39, 39, Lcg::new(13));
    ca.build();
    ca.iterate();
    ca.iterate();
    let mut data: Vec<(&str, String)> = vec![("stale", "stale".to_string())];
    ca.update_map_data(&mut data);
    assert_eq!(data.len(), 3);
    assert_eq!(data[0], ("Name", "Cellular Automata".to_string()));
    assert_eq!(data[1], ("Max Iterations", "16".to_string()));
    assert_eq!(data[2], ("Iteration", "2".to_string()));
}

#[test]
fn drunkard_stats_report_counts() {
    let mut dr = DrunkardBuilder::new(39, 39, Lcg::new(14));
    dr.build();
    let mut data: Vec<(&str, String)> = Vec::new();
    dr.update_map_data(&mut data);
    assert_eq!(data.len(), 7);
    assert_eq!(data[0], ("Name", "Drunkard's Walk".to_string()));
    assert_eq!(data[1], ("Max Iterations", "24".to_string()));
    assert_eq!(data[2], ("Steps Per Iteration", "100".to_string()));
    assert_eq!(data[3], ("Iteration", "0".to_string()));
    // 39*39 = 1521 cells, 5 of them the seed cross
    assert_eq!(data[4], ("Total Number of Walls", "1516".to_string()));
    assert_eq!(data[5], ("Total Empty Space", "5".to_string()));
    assert_eq!(data[6], ("% Occupied", "99".to_string()));
}

#[test]
fn dla_stats_and_notes() {
    let mut da = DiffusionLimitedAggregationBuilder::new(39, 39, Lcg::new(15));
    da.build();
    let mut data: Vec<(&str, String)> = Vec::new();
    da.update_map_data(&mut data);
    assert_eq!(data.len(), 6);
    assert_eq!(data[0], ("Name", "Diffusion-Limited Aggregation".to_string()));
    assert!(da.notes().starts_with("The intense generation time"));
    let mut ca = CellularAutomataBuilder::new(39, 39, Lcg::new(15));
    assert_eq!(ca.notes(), "");
    ca.build();
}

#[test]
fn thread_random_stays_below_bound() {
    let mut r = ThreadRandom::new();
    for _ in 0..200 {
        assert!(r.next_below(7) < 7);
    }
    assert_eq!(r.next_below(1), 0);
}

#[test]
fn fast_random_stays_below_bound() {
    let mut r = FastRandom::new();
    for _ in 0..200 {
        assert!(r.next_below(5) < 5);
    }
    assert_eq!(r.next_below(1), 0);
}

#[test]
fn rand_range_stays_in_range() {
    let mut r = Lcg::new(42);
    for _ in 0..100 {
        let v = rand_range(&mut r, 10, 29);
        assert!((10..29).contains(&v));
    }
}

#[test]
fn scripted_source_replays_and_cycles() {
    let mut s = ScriptedSource::new(vec![3, 7, 12]);
    assert_eq!(s.next_below(10), 3);
    assert_eq!(s.next_below(10), 7);
    assert_eq!(s.next_below(10), 2);
    assert_eq!(s.next_below(10), 3);
    let mut e = ScriptedSource::new(Vec::new());
    assert_eq!(e.next_below(100), 0);
}
