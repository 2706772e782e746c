use mapgen::builder::MapBuilder;
use mapgen::cellular::CellularAutomataBuilder;
use mapgen::drunkard::DrunkardBuilder;
use mapgen::grid::TileType;
use mapgen::rng::{Lcg, ScriptedSource};

fn parse(rows: &[&str]) -> Vec<TileType> {
    rows.iter()
        .flat_map(|r| r.chars())
        .map(|c| if c == 'W' { TileType::Wall } else { TileType::Floor })
        .collect()
}

/// A 5x5 grid seeded by a fixed draw sequence: the scramble and one
/// Moore-neighbor smoothing pass are fully determined by that sequence.
#[test]
fn cellular_toy_grid_is_fully_determined() {
    let script = vec![
        0, 1, 1, 0, 0, 1, 0, 0, 1, 0, 0, 1, 0, 1, 1, 1, 0, 0, 0, 1, 0, 1, 1, 0, 0,
    ];
    let mut ca = CellularAutomataBuilder::new(5, 5, ScriptedSource::new(script));
    ca.build();
    let after_build = parse(&["FWWFF", "WFFWF", "FWFWW", "WFFFW", "FWWFF"]);
    assert_eq!(ca.get_map().tiles, after_build);
    ca.iterate();
    let after_iterate = parse(&["FFFFF", "FFWFF", "FFFFF", "FFFFF", "FFFFF"]);
    assert_eq!(ca.get_map().tiles, after_iterate);
}

/// A 10x10 drunkard's walk with a fixed draw sequence: the seed cross stays
/// floor and the walk carves a deterministic set of new floor tiles.
#[test]
fn drunkard_toy_grid_is_fully_determined() {
    let mut dr = DrunkardBuilder::new(10, 10, ScriptedSource::new(vec![1, 1, 0, 3, 3, 2, 1, 0]));
    dr.build();
    dr.iterate();
    let m = dr.get_map();
    let expected: Vec<(usize, usize)> = vec![
        (4, 5),
        (5, 4),
        (5, 5),
        (5, 6),
        (6, 4),
        (6, 5),
        (6, 6),
        (7, 4),
        (7, 5),
        (7, 6),
        (7, 7),
        (8, 5),
        (8, 6),
        (9, 6),
    ];
    let mut got: Vec<(usize, usize)> = Vec::new();
    for y in 0..10 {
        for x in 0..10 {
            if m.get(x, y) == Some(TileType::Floor) {
                got.push((x, y));
            }
        }
    }
    got.sort();
    assert_eq!(got, expected);
    // the five seed-cross tiles are untouched
    for p in [(5, 4), (4, 5), (5, 5), (6, 5), (5, 6)] {
        assert!(expected.contains(&p));
    }
}

/// With a seeded generator the smoothing settles down: over 50 seeds, the
/// change in wall count between passes 15 and 16 is no larger than the
/// change between passes 0 and 1 in at least 80% of runs.
#[test]
fn cellular_wall_counts_converge() {
    let mut converged = 0;
    let runs = 50u64;
    for seed in 0..runs {
        let mut ca = CellularAutomataBuilder::new(20, 20, Lcg::new(seed));
        ca.build();
        let mut walls: Vec<usize> = vec![ca.get_map().count(TileType::Wall)];
        for _ in 0..16 {
            ca.iterate();
            walls.push(ca.get_map().count(TileType::Wall));
        }
        let early = walls[1].abs_diff(walls[0]);
        let late = walls[16].abs_diff(walls[15]);
        if late <= early {
            converged += 1;
        }
    }
    assert!(converged * 10 >= runs * 8, "{converged}/{runs} runs converged");
}
