use rustlike::geometry::Rect;
use rustlike::mapgen::{
    ConfigError, MapGenConfig, RoomPlacer, generate, generate_from, make_map, MAP_H, MAP_W,
};
use rustlike::tile::Grid;

#[test]
fn config_rejects_non_positive_min() {
    assert_eq!(
        MapGenConfig::new(0, 6, 5, 999),
        Err(ConfigError::RoomSizeNotPositive)
    );
}

#[test]
fn config_rejects_empty_size_range() {
    assert_eq!(
        MapGenConfig::new(6, 6, 5, 999),
        Err(ConfigError::EmptyRoomSizeRange)
    );
    assert_eq!(
        MapGenConfig::new(7, 6, 5, 999),
        Err(ConfigError::EmptyRoomSizeRange)
    );
}

#[test]
fn config_rejects_negative_attempts() {
    assert_eq!(
        MapGenConfig::new(3, 6, -1, 999),
        Err(ConfigError::NegativeAttemptBudget)
    );
}

#[test]
fn config_accepts_valid_input() {
    let c = MapGenConfig::new(3, 6, 5, 999).unwrap();
    assert_eq!(c.min_room_size, 3);
    assert_eq!(c.max_room_size, 6);
    assert_eq!(c.max_room_attempts, 5);
    assert_eq!(c.max_connection_distance, 999);
    assert!(c.fits_grid(20, 20));
    assert!(!c.fits_grid(5, 20));
}

/// Breadth-first search over floor cells.
fn reachable(grid: &Grid, from: (i32, i32), to: (i32, i32)) -> bool {
    let w = grid.len() as i32;
    let h = grid[0].len() as i32;
    let mut seen = vec![vec![false; h as usize]; w as usize];
    let mut queue = vec![from];
    seen[from.0 as usize][from.1 as usize] = true;
    while let Some((x, y)) = queue.pop() {
        if (x, y) == to {
            return true;
        }
        for (dx, dy) in [(1, 0), (-1, 0), (0, 1), (0, -1)] {
            let (nx, ny) = (x + dx, y + dy);
            if nx >= 0 && nx < w && ny >= 0 && ny < h && !seen[nx as usize][ny as usize]
                && !grid[nx as usize][ny as usize].blocks
            {
                seen[nx as usize][ny as usize] = true;
                queue.push((nx, ny));
            }
        }
    }
    false
}

fn scenario_two_rooms(coin: bool) {
    let mut placer = RoomPlacer::new(20, 20);

    // First candidate is accepted unconditionally and fixes the start.
    assert!(placer.try_place(Rect::new(2, 2, 5, 5), coin, 999));
    assert_eq!(placer.rooms.len(), 1);
    assert_eq!(placer.start, (4, 4));

    // Second candidate: no overlap, distance below the threshold.
    assert!(placer.try_place(Rect::new(10, 10, 4, 4), coin, 999));
    assert_eq!(placer.rooms.len(), 2);
    assert_eq!(placer.start, (4, 4));

    // Both interiors are fully carved.
    for x in 2..7usize {
        for y in 2..7usize {
            assert!(!placer.grid[x][y].blocks);
        }
    }
    for x in 10..14usize {
        for y in 10..14usize {
            assert!(!placer.grid[x][y].blocks);
        }
    }

    // A corridor of floor cells connects the two room interiors.
    assert!(reachable(&placer.grid, (4, 4), (12, 12)));
}

#[test]
fn scenario_two_rooms_horizontal_first() {
    scenario_two_rooms(true);
}

#[test]
fn scenario_two_rooms_vertical_first() {
    scenario_two_rooms(false);
}

#[test]
fn overlapping_candidate_is_rejected() {
    let mut placer = RoomPlacer::new(20, 20);
    assert!(placer.try_place(Rect::new(2, 2, 5, 5), true, 999));
    assert!(!placer.try_place(Rect::new(4, 4, 5, 5), true, 999));
    assert_eq!(placer.rooms.len(), 1);
}

#[test]
fn edge_touching_candidate_is_rejected() {
    let mut placer = RoomPlacer::new(20, 20);
    assert!(placer.try_place(Rect::new(2, 2, 3, 3), true, 999));
    // Shares the edge x = 5 with the accepted room: counts as overlap.
    assert!(!placer.try_place(Rect::new(5, 2, 3, 3), true, 999));
    assert_eq!(placer.rooms.len(), 1);
}

#[test]
fn distant_candidate_is_rejected() {
    let mut placer = RoomPlacer::new(40, 40);
    assert!(placer.try_place(Rect::new(0, 0, 3, 3), true, 5));
    // Centers (1, 1) and (31, 31): distance 42, beyond the threshold 5.
    assert!(!placer.try_place(Rect::new(30, 30, 3, 3), true, 5));
    assert_eq!(placer.rooms.len(), 1);
    // The same candidate is fine under a generous threshold.
    assert!(placer.try_place(Rect::new(30, 30, 3, 3), true, 999));
    assert_eq!(placer.rooms.len(), 2);
}

#[test]
fn rejection_changes_nothing() {
    let mut placer = RoomPlacer::new(20, 20);
    assert!(placer.try_place(Rect::new(2, 2, 5, 5), true, 999));
    let grid_before: Vec<Vec<_>> = placer.grid.clone();
    let rooms_before = placer.rooms.clone();
    assert!(!placer.try_place(Rect::new(3, 3, 5, 5), false, 999));
    assert_eq!(placer.rooms, rooms_before);
    for x in 0..20usize {
        for y in 0..20usize {
            assert_eq!(placer.grid[x][y], grid_before[x][y]);
        }
    }
}

#[test]
fn placement_is_deterministic_in_its_draws() {
    // Two placers fed the same candidates and coins end in identical states.
    let draws = [
        (Rect::new(1, 1, 4, 4), true),
        (Rect::new(8, 2, 5, 5), false),
        (Rect::new(3, 9, 4, 6), true),
        (Rect::new(2, 2, 4, 4), false), // rejected: overlaps the first room
    ];
    let mut a = RoomPlacer::new(18, 18);
    let mut b = RoomPlacer::new(18, 18);
    for (cand, coin) in draws {
        let ra = a.try_place(cand, coin, 999);
        let rb = b.try_place(cand, coin, 999);
        assert_eq!(ra, rb);
    }
    assert_eq!(a.start, b.start);
    assert_eq!(a.rooms, b.rooms);
    for x in 0..18usize {
        for y in 0..18usize {
            assert_eq!(a.grid[x][y], b.grid[x][y]);
        }
    }
}

#[test]
fn generate_from_is_deterministic() {
    // Replaying one fixed draw sequence twice gives identical dungeons.
    let cands = vec![
        Rect::new(1, 1, 4, 4),
        Rect::new(8, 2, 5, 5),
        Rect::new(2, 2, 4, 4), // rejected: overlaps the first room
        Rect::new(3, 9, 4, 6),
    ];
    let coins = vec![true, false, true, false];
    let (grid_a, start_a) = generate_from(18, 18, 999, &cands, &coins);
    let (grid_b, start_b) = generate_from(18, 18, 999, &cands, &coins);
    assert_eq!(start_a, start_b);
    for x in 0..18usize {
        for y in 0..18usize {
            assert_eq!(grid_a[x][y], grid_b[x][y]);
        }
    }
}

#[test]
fn generate_from_matches_manual_replay() {
    let cands = vec![Rect::new(2, 2, 5, 5), Rect::new(10, 10, 4, 4)];
    let coins = vec![true, true];
    let (grid, start) = generate_from(20, 20, 999, &cands, &coins);

    let mut placer = RoomPlacer::new(20, 20);
    for k in 0..cands.len() {
        placer.try_place(cands[k], coins[k], 999);
    }
    assert_eq!(start, placer.start);
    for x in 0..20usize {
        for y in 0..20usize {
            assert_eq!(grid[x][y], placer.grid[x][y]);
        }
    }
}

#[test]
fn generate_from_no_draws_is_all_wall() {
    let cands: Vec<Rect> = vec![];
    let coins: Vec<bool> = vec![];
    let (grid, start) = generate_from(6, 6, 999, &cands, &coins);
    assert_eq!(start, (0, 0));
    for x in 0..6usize {
        for y in 0..6usize {
            assert!(grid[x][y].blocks);
        }
    }
}

#[test]
fn accepted_rooms_never_overlap() {
    let cfg = MapGenConfig::new(3, 6, 25, 999).unwrap();
    let (_, _) = generate(30, 30, &cfg);
    // The non-overlap invariant is proved; here we just re-check it on a
    // placer driven by hand with a mix of accepted and rejected candidates.
    let mut placer = RoomPlacer::new(30, 30);
    let candidates = [
        Rect::new(1, 1, 4, 4),
        Rect::new(3, 3, 4, 4),
        Rect::new(10, 1, 5, 5),
        Rect::new(12, 3, 4, 4),
        Rect::new(1, 10, 6, 6),
        Rect::new(20, 20, 5, 5),
    ];
    for cand in candidates {
        placer.try_place(cand, true, 999);
    }
    for i in 0..placer.rooms.len() {
        for j in 0..placer.rooms.len() {
            if i != j {
                assert!(!placer.rooms[i].intersect_with(&placer.rooms[j]));
            }
        }
    }
}

#[test]
fn generate_start_is_floor() {
    let cfg = MapGenConfig::new(3, 6, 5, 999).unwrap();
    for _ in 0..20 {
        let (grid, (sx, sy)) = generate(20, 20, &cfg);
        assert_eq!(grid.len(), 20);
        assert!(grid.iter().all(|col| col.len() == 20));
        assert!(sx >= 0 && sx < 20 && sy >= 0 && sy < 20);
        assert!(!grid[sx as usize][sy as usize].blocks);
    }
}

#[test]
fn make_map_dimensions_and_start() {
    let (grid, (sx, sy)) = make_map();
    assert_eq!(grid.len(), MAP_W as usize);
    assert!(grid.iter().all(|col| col.len() == MAP_H as usize));
    assert!(sx >= 0 && sx < MAP_W && sy >= 0 && sy < MAP_H);
    assert!(!grid[sx as usize][sy as usize].blocks);
}
