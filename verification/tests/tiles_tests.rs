use snake_web_client::tiles::{
    stage_height_px, stage_width_px, tile_offset_px, TileKind, TileUpdate, Tiles, CELLS, COLS, ROWS,
};

fn snake(c: &str) -> TileKind {
    TileKind::Snake(c.to_string())
}

fn apply(tiles: &mut Tiles, updates: &[TileUpdate]) {
    for u in updates {
        assert!(tiles.set_tile_kind(u.x, u.y, u.kind.clone()));
    }
}

fn same_grid(a: &Tiles, b: &Tiles) -> bool {
    for x in 0..COLS {
        for y in 0..ROWS {
            if a.tile_at(x, y) != b.tile_at(x, y) {
                return false;
            }
        }
    }
    true
}

#[test]
fn new_grid_is_empty() {
    let t = Tiles::new();
    assert_eq!(t.len(), CELLS);
    assert_eq!(CELLS, 2048);
    for x in 0..COLS {
        for y in 0..ROWS {
            assert_eq!(t.tile_at(x, y), TileKind::Empty);
        }
    }
}

#[test]
fn set_tile_kind_in_and_out_of_bounds() {
    let mut t = Tiles::new();
    assert!(t.set_tile_kind(63, 31, TileKind::Food));
    assert_eq!(t.tile_at(63, 31), TileKind::Food);
    assert!(!t.set_tile_kind(64, 0, TileKind::Food));
    assert!(!t.set_tile_kind(0, 32, TileKind::Food));
    assert!(!t.set_tile_kind(usize::MAX, usize::MAX, TileKind::Food));
    assert!(same_grid(&t, &{
        let mut u = Tiles::new();
        u.set_tile_kind(63, 31, TileKind::Food);
        u
    }));
}

#[test]
fn clear_empties_everything() {
    let mut t = Tiles::new();
    t.set_tile_kind(1, 2, snake("#F00"));
    t.set_tile_kind(3, 4, TileKind::Food);
    t.clear();
    assert!(same_grid(&t, &Tiles::new()));
}

#[test]
fn refresh_lists_changed_tiles_in_scan_order() {
    let prev = {
        let mut p = Tiles::new();
        p.set_tile_kind(5, 5, snake("#111"));
        p.set_tile_kind(7, 1, TileKind::Food);
        p
    };
    let mut next = Tiles::new();
    next.set_tile_kind(5, 5, snake("#111"));
    next.set_tile_kind(2, 9, snake("#222"));
    next.set_tile_kind(2, 3, TileKind::Food);
    let updates = next.refresh(&prev);
    assert_eq!(
        updates,
        vec![
            TileUpdate { x: 2, y: 3, kind: TileKind::Food },
            TileUpdate { x: 2, y: 9, kind: snake("#222") },
            TileUpdate { x: 7, y: 1, kind: TileKind::Empty },
        ]
    );
}

#[test]
fn refresh_of_identical_grids_is_empty() {
    let mut a = Tiles::new();
    a.set_tile_kind(10, 10, snake("#abc"));
    let mut b = Tiles::new();
    b.set_tile_kind(10, 10, snake("#abc"));
    assert!(a.refresh(&b).is_empty());
}

#[test]
fn refresh_color_change_is_reported() {
    let mut a = Tiles::new();
    a.set_tile_kind(0, 0, snake("#abc"));
    let mut b = Tiles::new();
    b.set_tile_kind(0, 0, snake("#abd"));
    assert_eq!(a.refresh(&b), vec![TileUpdate { x: 0, y: 0, kind: snake("#abc") }]);
}

#[test]
fn applying_refresh_restores_new_grid() {
    let mut prev = Tiles::new();
    for i in 0..20 {
        prev.set_tile_kind(i * 3 % COLS, i * 7 % ROWS, snake("#123"));
    }
    let mut next = Tiles::new();
    for i in 0..25 {
        next.set_tile_kind(i * 5 % COLS, i * 11 % ROWS, if i % 2 == 0 { TileKind::Food } else { snake("#999") });
    }
    let updates = next.refresh(&prev);
    let mut replay = prev;
    apply(&mut replay, &updates);
    assert!(same_grid(&replay, &next));
}

#[test]
fn backgrounds() {
    assert_eq!(TileKind::Empty.background(), None);
    assert_eq!(TileKind::Food.background(), Some("#00FF00".to_string()));
    assert_eq!(snake("#F24").background(), Some("#F24".to_string()));
    assert_eq!(TileKind::default(), TileKind::Empty);
}

#[test]
fn same_as_compares_kinds() {
    assert!(snake("#1").same_as(&snake("#1")));
    assert!(!snake("#1").same_as(&snake("#2")));
    assert!(!TileKind::Food.same_as(&TileKind::Empty));
    assert!(TileKind::Empty.same_as(&TileKind::Empty));
    assert_eq!(snake("#7").duplicate(), snake("#7"));
}

#[test]
fn geometry() {
    assert_eq!(tile_offset_px(0), 0);
    assert_eq!(tile_offset_px(3), 33);
    assert_eq!(tile_offset_px(63), 693);
    assert_eq!(stage_width_px(), 704);
    assert_eq!(stage_height_px(), 352);
}
