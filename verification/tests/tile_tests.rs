use rustlike::geometry::Rect;
use rustlike::tile::{Grid, Tile, create_room, is_blocked, make_h_tunnel, make_v_tunnel};

fn all_wall(w: usize, h: usize) -> Grid {
    vec![vec![Tile::wall(); h]; w]
}

#[test]
fn tile_constructors() {
    let f = Tile::empty();
    assert_eq!(f.ch, '.');
    assert!(!f.blocks);
    assert!(!f.block_sight);
    let w = Tile::wall();
    assert_eq!(w.ch, '#');
    assert!(w.blocks);
    assert!(w.block_sight);
}

#[test]
fn create_room_carves_half_open_interior() {
    let mut grid = all_wall(10, 10);
    create_room(Rect::new(2, 3, 4, 3), &mut grid);
    for x in 0..10i32 {
        for y in 0..10i32 {
            let carved = (2..6).contains(&x) && (3..6).contains(&y);
            assert_eq!(grid[x as usize][y as usize].blocks, !carved, "cell ({x}, {y})");
        }
    }
}

#[test]
fn h_tunnel_half_open_either_order() {
    let mut grid = all_wall(10, 10);
    make_h_tunnel(4, 2, 7, &mut grid);
    let mut grid2 = all_wall(10, 10);
    make_h_tunnel(4, 7, 2, &mut grid2);
    for x in 0..10usize {
        for y in 0..10usize {
            let carved = y == 4 && (2..7).contains(&x);
            assert_eq!(grid[x][y].blocks, !carved);
            assert_eq!(grid2[x][y].blocks, !carved);
        }
    }
}

#[test]
fn v_tunnel_half_open_either_order() {
    let mut grid = all_wall(10, 10);
    make_v_tunnel(3, 1, 6, &mut grid);
    let mut grid2 = all_wall(10, 10);
    make_v_tunnel(3, 6, 1, &mut grid2);
    for x in 0..10usize {
        for y in 0..10usize {
            let carved = x == 3 && (1..6).contains(&y);
            assert_eq!(grid[x][y].blocks, !carved);
            assert_eq!(grid2[x][y].blocks, !carved);
        }
    }
}

#[test]
fn is_blocked_rejects_out_of_bounds() {
    let grid = all_wall(5, 5);
    assert!(is_blocked(&grid, -1, 0));
    assert!(is_blocked(&grid, 0, -1));
    assert!(is_blocked(&grid, 5, 0));
    assert!(is_blocked(&grid, 0, 5));
}

#[test]
fn is_blocked_reads_the_tile() {
    let mut grid = all_wall(5, 5);
    assert!(is_blocked(&grid, 2, 2));
    create_room(Rect::new(2, 2, 1, 1), &mut grid);
    assert!(!is_blocked(&grid, 2, 2));
}
