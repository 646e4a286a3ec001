use snake_web_client::board::{Board, Direction, LeaderboardRow, SOCKET_OPEN};
use snake_web_client::protocol::{encode_join, encode_turn, LeaderboardEntry, SnakeData};
use snake_web_client::tiles::{TileKind, TileUpdate, Tiles, COLS, ROWS};

fn worm(name: &str, color: &str, body: Vec<[u16; 2]>) -> SnakeData {
    SnakeData { name: name.to_string(), body, dir: 1, crowns: 0, color: color.to_string() }
}

#[test]
fn create_is_empty() {
    let b = Board::create();
    assert!(b.username.is_none());
    assert!(b.state.pending_join.is_none());
    assert!(b.tiles.refresh(&Tiles::new()).is_empty());
}

#[test]
fn join_sends_when_open() {
    let mut b = Board::create();
    let sent = b.join("alice".to_string(), SOCKET_OPEN);
    assert_eq!(sent, Some(encode_join(&"alice".to_string())));
    assert_eq!(b.username.as_deref(), Some("alice"));
    assert!(b.state.pending_join.is_none());
}

#[test]
fn join_queues_while_connecting() {
    let mut b = Board::create();
    let sent = b.join("bob".to_string(), 0);
    assert_eq!(sent, None);
    assert_eq!(b.username.as_deref(), Some("bob"));
    let queued = b.state.take_pending_join();
    assert_eq!(queued, Some(encode_join(&"bob".to_string())));
    assert_eq!(b.state.take_pending_join(), None);
}

#[test]
fn turn_messages() {
    let b = Board::create();
    assert_eq!(b.turn(Direction::Up), Some(encode_turn(0)));
    assert_eq!(b.turn(Direction::Right), Some(encode_turn(1)));
    assert_eq!(b.turn(Direction::Down), Some(encode_turn(2)));
    assert_eq!(b.turn(Direction::Left), Some(encode_turn(3)));
    assert_eq!(Direction::Left.code(), 3);
    assert_eq!(*b.turn(Direction::Down).unwrap().last().unwrap(), 2);
}

fn heading(name: &str, dir: u8) -> SnakeData {
    SnakeData { name: name.to_string(), body: vec![[1, 1]], dir, crowns: 0, color: "#123".to_string() }
}

#[test]
fn turn_refuses_reversing_own_worm() {
    let mut b = Board::create();
    b.join("me".to_string(), SOCKET_OPEN);
    // Own worm heads Up (0): Down reverses it, the others do not.
    b.state.apply_state([0, 0], vec![heading("other", 1), heading("me", 0), heading("me", 1)]);
    assert_eq!(b.turn(Direction::Down), None);
    assert_eq!(b.turn(Direction::Up), Some(encode_turn(0)));
    assert_eq!(b.turn(Direction::Left), Some(encode_turn(3)));
    // Another player's heading does not matter: Left reverses only a worm heading Right.
    assert_eq!(b.turn(Direction::Left), Some(encode_turn(3)));
    // Own worm heads Left (3): Right reverses it.
    b.state.apply_state([0, 0], vec![heading("me", 3)]);
    assert_eq!(b.turn(Direction::Right), None);
    assert_eq!(b.turn(Direction::Down), Some(encode_turn(2)));
}

#[test]
fn turn_without_own_worm_is_always_sent() {
    let mut b = Board::create();
    b.state.apply_state([0, 0], vec![heading("me", 0)]);
    // Not joined yet: no worm is the player's own.
    assert_eq!(b.turn(Direction::Down), Some(encode_turn(2)));
    b.join("someone".to_string(), SOCKET_OPEN);
    assert_eq!(b.turn(Direction::Down), Some(encode_turn(2)));
}

#[test]
fn draw_paints_worms_and_food() {
    let mut b = Board::create();
    b.join("me".to_string(), SOCKET_OPEN);
    b.state.apply_state(
        [10, 10],
        vec![worm("me", "#F24", vec![[0, 0], [0, 1]]), worm("you", "#0AF", vec![[5, 5], [70, 3]])],
    );
    let updates = b.draw();
    assert_eq!(
        updates,
        vec![
            TileUpdate { x: 0, y: 0, kind: TileKind::Snake("#FFFFFF".to_string()) },
            TileUpdate { x: 0, y: 1, kind: TileKind::Snake("#FFFFFF".to_string()) },
            TileUpdate { x: 5, y: 5, kind: TileKind::Snake("#0AF".to_string()) },
            TileUpdate { x: 10, y: 10, kind: TileKind::Food },
        ]
    );
    assert_eq!(b.tiles.tile_at(5, 5), TileKind::Snake("#0AF".to_string()));
    // Nothing moved: the next frame changes nothing.
    assert!(b.draw().is_empty());
    // The worm moves one step: the old tail clears, the new head paints.
    b.state.apply_state([10, 10], vec![worm("me", "#F24", vec![[0, 1], [0, 2]])]);
    let updates = b.draw();
    assert_eq!(
        updates,
        vec![
            TileUpdate { x: 0, y: 0, kind: TileKind::Empty },
            TileUpdate { x: 0, y: 2, kind: TileKind::Snake("#FFFFFF".to_string()) },
            TileUpdate { x: 5, y: 5, kind: TileKind::Empty },
        ]
    );
}

#[test]
fn food_paints_over_worms_and_later_worms_over_earlier() {
    let mut b = Board::create();
    b.state.apply_state([2, 2], vec![worm("a", "#111", vec![[2, 2], [3, 3]]), worm("b", "#222", vec![[3, 3]])]);
    b.draw();
    assert_eq!(b.tiles.tile_at(2, 2), TileKind::Food);
    assert_eq!(b.tiles.tile_at(3, 3), TileKind::Snake("#222".to_string()));
    assert_eq!(b.tiles.tile_at(COLS - 1, ROWS - 1), TileKind::Empty);
}

#[test]
fn crowns_json() {
    let mut b = Board::create();
    assert_eq!(b.crowns(), "[]");
    b.state.apply_crown("alice".to_string(), 5);
    b.state.apply_crown("bob \"b\"".to_string(), 7);
    assert_eq!(b.crowns(), "[[\"bob \\\"b\\\"\",7],[\"alice\",5]]");
}

#[test]
fn leaderboard_joins_worm_colors() {
    let mut b = Board::create();
    b.state.apply_state([0, 0], vec![worm("a", "#AAA", vec![]), worm("b", "#BBB", vec![]), worm("a", "#CCC", vec![])]);
    b.state.apply_leaderboard(vec![
        LeaderboardEntry { name: "b".to_string(), crowns: 2, length: 4, alive: true },
        LeaderboardEntry { name: "a".to_string(), crowns: 1, length: 3, alive: false },
        LeaderboardEntry { name: "ghost".to_string(), crowns: 0, length: 0, alive: false },
    ]);
    assert_eq!(
        b.leaderboard(),
        vec![
            LeaderboardRow { name: "b".to_string(), crowns: 2, length: 4, alive: true, color: "#BBB".to_string() },
            LeaderboardRow { name: "a".to_string(), crowns: 1, length: 3, alive: false, color: "#AAA".to_string() },
            LeaderboardRow { name: "ghost".to_string(), crowns: 0, length: 0, alive: false, color: String::new() },
        ]
    );
}
