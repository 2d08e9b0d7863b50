use alex_lib::types::Coord2d;
use alex_lib::types::Coord2dMap;

#[test]
fn test_coord2d_add() {
    let coord = Coord2d { x: 1, y: 2 };
    let res = coord.add(&Coord2d { x: 3, y: 4 });
    assert_eq!(res, Coord2d { x: 4, y: 6 });

    let res = coord.add(&Coord2d { x: -3, y: -5 });
    assert_eq!(res, Coord2d { x: -2, y: -3 });
}

#[test]
fn test_coord2d_up() {
    let coord = Coord2d { x: 1, y: 2 };
    let res = coord.up();
    assert_eq!(res, Coord2d { x: 1, y: 1 });

    let res = coord.up_n(5);
    assert_eq!(res, Coord2d { x: 1, y: -3 });
}

#[test]
fn test_coord2d_down() {
    let coord = Coord2d { x: 1, y: 2 };
    let res = coord.down();
    assert_eq!(res, Coord2d { x: 1, y: 3 });

    let res = coord.down_n(5);
    assert_eq!(res, Coord2d { x: 1, y: 7 });
}

#[test]
fn test_coord2d_left() {
    let coord = Coord2d { x: 1, y: 2 };
    let res = coord.left();
    assert_eq!(res, Coord2d { x: 0, y: 2 });

    let res = coord.left_n(5);
    assert_eq!(res, Coord2d { x: -4, y: 2 });
}

#[test]
fn test_coord2d_right() {
    let coord = Coord2d { x: 1, y: 2 };
    let res = coord.right();
    assert_eq!(res, Coord2d { x: 2, y: 2 });

    let res = coord.right_n(5);
    assert_eq!(res, Coord2d { x: 6, y: 2 });
}

#[test]
fn test_coord2d_manhattan_dist() {
    let coord = Coord2d { x: 1, y: 2 };
    let coord2 = Coord2d { x: 5, y: 2 };
    let res = coord.manhattan_dist(&coord2);
    assert_eq!(res, 4);

    let coord2 = Coord2d { x: 1, y: -3 };
    let res = coord.manhattan_dist(&coord2);
    assert_eq!(res, 5);

    let coord2 = Coord2d { x: -8, y: 3 };
    let res = coord.manhattan_dist(&coord2);
    assert_eq!(res, 10);
}

#[test]
fn test_coord2d_map_insert_get_remove() {
    let mut m: Coord2dMap<char> = Coord2dMap::new();
    assert_eq!(m.insert(Coord2d { x: 1, y: 2 }, 'a'), None);
    assert_eq!(m.insert(Coord2d { x: 1, y: 2 }, 'b'), Some('a'));
    assert_eq!(m.insert(Coord2d { x: 3, y: 4 }, 'c'), None);
    assert_eq!(m.get(&Coord2d { x: 1, y: 2 }), Some(&'b'));
    assert_eq!(m.get(&Coord2d { x: 0, y: 0 }), None);
    assert!(m.contains_key(&Coord2d { x: 3, y: 4 }));
    assert!(!m.contains_key(&Coord2d { x: 0, y: 0 }));
    assert_eq!(m.iter().len(), 2);
    assert_eq!(m.remove(&Coord2d { x: 1, y: 2 }), Some('b'));
    assert_eq!(m.remove(&Coord2d { x: 1, y: 2 }), None);
    assert_eq!(m.iter().len(), 1);
}

#[test]
fn test_coord2d_map_bounds() {
    let mut m: Coord2dMap<i32> = Coord2dMap::new();
    assert_eq!(m.width(), 0);
    assert_eq!(m.height(), 0);
    m.insert(Coord2d { x: -2, y: 1 }, 1);
    m.insert(Coord2d { x: 3, y: 4 }, 2);
    assert_eq!(m.min_x(), -2);
    assert_eq!(m.max_x(), 3);
    assert_eq!(m.min_y(), 1);
    assert_eq!(m.max_y(), 4);
    assert_eq!(m.width(), 6);
    assert_eq!(m.height(), 4);
    m.remove(&Coord2d { x: -2, y: 1 });
    assert_eq!(m.width(), 6);
    assert_eq!(m.height(), 4);
}
