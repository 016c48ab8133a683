use rustlike::geometry::Rect;
use rustlike::object::{Color, Object};
use rustlike::tile::{Grid, Tile, create_room};

fn all_wall(w: usize, h: usize) -> Grid {
    vec![vec![Tile::wall(); h]; w]
}

const WHITE: Color = Color { r: 255, g: 255, b: 255 };

#[test]
fn object_new_stores_fields() {
    let o = Object::new(3, 4, '@', WHITE);
    assert_eq!(o.x, 3);
    assert_eq!(o.y, 4);
    assert_eq!(o.ch, '@');
    assert_eq!(o.color, WHITE);
}

#[test]
fn move_by_moves_onto_floor() {
    let mut grid = all_wall(10, 10);
    create_room(Rect::new(2, 2, 4, 4), &mut grid);
    let mut o = Object::new(3, 3, '@', WHITE);
    o.move_by(1, 0, &grid);
    assert_eq!((o.x, o.y), (4, 3));
    o.move_by(0, 1, &grid);
    assert_eq!((o.x, o.y), (4, 4));
}

#[test]
fn move_by_stays_at_walls() {
    let mut grid = all_wall(10, 10);
    create_room(Rect::new(2, 2, 2, 2), &mut grid);
    let mut o = Object::new(2, 2, '@', WHITE);
    o.move_by(-1, 0, &grid); // (1, 2) is wall
    assert_eq!((o.x, o.y), (2, 2));
}

#[test]
fn move_by_stays_inside_the_grid() {
    let mut grid = all_wall(4, 4);
    create_room(Rect::new(0, 0, 4, 4), &mut grid); // everything floor
    let mut o = Object::new(0, 0, '@', WHITE);
    o.move_by(-1, 0, &grid);
    assert_eq!((o.x, o.y), (0, 0));
    o.move_by(0, -1, &grid);
    assert_eq!((o.x, o.y), (0, 0));
    let mut p = Object::new(3, 3, 'z', WHITE);
    p.move_by(1, 0, &grid);
    assert_eq!((p.x, p.y), (3, 3));
    p.move_by(0, 1, &grid);
    assert_eq!((p.x, p.y), (3, 3));
}
