use windy::{Grid, Int, Ip, SPACE};

#[test]
fn grid_missing_cell_is_space() {
    let g = Grid::new();
    assert_eq!(g.get(7, -3), Int::from_u32(SPACE));
}

#[test]
fn grid_put_and_get_roundtrip() {
    let mut g = Grid::new();
    g.put(2, 5, Int::from_u32(b'@' as u32));
    assert_eq!(g.get(2, 5), Int::from_u32(b'@' as u32));
}

#[test]
fn grid_put_space_is_sparse() {
    let mut g = Grid::new();
    g.put(0, 0, Int::from_u32(b'@' as u32));
    g.put(0, 0, Int::from_u32(SPACE));
    assert!(!g.contains(0, 0));
    assert_eq!(g.get(0, 0), Int::from_u32(SPACE));
}

#[test]
fn ip_advances_by_direction() {
    let mut ip = Ip::default();
    ip.advance();
    assert_eq!((ip.x, ip.y), (1, 0));
    ip.set_dir(0, 1);
    ip.advance();
    assert_eq!((ip.x, ip.y), (1, 1));
}

#[test]
fn grid_write_leaves_other_cells() {
    let mut g = Grid::new();
    g.put(-4, 9, Int::from_u32(65));
    g.put(9, -4, Int::from_u32(66));
    assert_eq!(g.get(-4, 9), Int::from_u32(65));
    assert_eq!(g.get(9, -4), Int::from_u32(66));
    assert_eq!(g.len(), 2);
    g.put(-4, 9, Int::from_i64(-7));
    assert_eq!(g.get(-4, 9), Int::from_i64(-7));
    assert_eq!(g.get(9, -4), Int::from_u32(66));
    assert_eq!(g.len(), 2);
}

#[test]
fn grid_extreme_coordinates_are_distinct() {
    let mut g = Grid::new();
    g.put(i64::MIN, i64::MAX, Int::from_u32(1));
    g.put(i64::MAX, i64::MIN, Int::from_u32(2));
    g.put(-1, 0, Int::from_u32(3));
    g.put(0, -1, Int::from_u32(4));
    assert_eq!(g.get(i64::MIN, i64::MAX), Int::from_u32(1));
    assert_eq!(g.get(i64::MAX, i64::MIN), Int::from_u32(2));
    assert_eq!(g.get(-1, 0), Int::from_u32(3));
    assert_eq!(g.get(0, -1), Int::from_u32(4));
    assert_eq!(g.len(), 4);
}

#[test]
fn ip_wraps_at_the_coordinate_range() {
    let mut ip = Ip { x: i64::MAX, y: i64::MIN, dx: 1, dy: -1 };
    ip.advance();
    assert_eq!((ip.x, ip.y), (i64::MIN, i64::MAX));
}
