use snake_web_client::game::GameState;
use snake_web_client::protocol::{LeaderboardEntry, ServerMessage, SnakeData};

fn crowns_of(state: &GameState) -> Vec<(&str, u32)> {
    state.crowns.iter().map(|(n, c)| (n.as_str(), *c)).collect()
}

fn entry(name: &str, crowns: u32) -> LeaderboardEntry {
    LeaderboardEntry { name: name.to_string(), crowns, length: 3, alive: true }
}

fn worm(name: &str) -> SnakeData {
    SnakeData { name: name.to_string(), body: vec![[1, 1]], dir: 0, crowns: 0, color: "#F24".to_string() }
}

#[test]
fn default_state_is_empty() {
    let s = GameState::default();
    assert!(s.food.is_none());
    assert!(s.snakes.is_empty());
    assert!(s.crowns.is_empty());
    assert!(s.leaderboard.is_empty());
    assert!(s.pending_join.is_none());
}

#[test]
fn apply_crown_inserts_and_sorts() {
    let mut s = GameState::default();
    s.apply_crown("alice".to_string(), 2);
    s.apply_crown("bob".to_string(), 5);
    s.apply_crown("carol".to_string(), 3);
    assert_eq!(crowns_of(&s), vec![("bob", 5), ("carol", 3), ("alice", 2)]);
}

#[test]
fn apply_crown_updates_existing_player() {
    let mut s = GameState::default();
    s.apply_crown("alice".to_string(), 2);
    s.apply_crown("bob".to_string(), 5);
    s.apply_crown("alice".to_string(), 9);
    assert_eq!(crowns_of(&s), vec![("alice", 9), ("bob", 5)]);
    s.apply_crown("alice".to_string(), 9);
    assert_eq!(crowns_of(&s), vec![("alice", 9), ("bob", 5)]);
}

#[test]
fn equal_crowns_keep_their_order() {
    let mut s = GameState::default();
    s.apply_crown("a".to_string(), 1);
    s.apply_crown("b".to_string(), 1);
    s.apply_crown("c".to_string(), 1);
    assert_eq!(crowns_of(&s), vec![("a", 1), ("b", 1), ("c", 1)]);
    s.apply_crown("b".to_string(), 1);
    assert_eq!(crowns_of(&s), vec![("a", 1), ("b", 1), ("c", 1)]);
    s.apply_crown("c".to_string(), 2);
    assert_eq!(crowns_of(&s), vec![("c", 2), ("a", 1), ("b", 1)]);
}

#[test]
fn apply_leaderboard_replaces_and_sorts() {
    let mut s = GameState::default();
    s.apply_crown("zed".to_string(), 100);
    let players = vec![entry("x", 1), entry("y", 4), entry("z", 4), entry("w", 0)];
    s.apply_leaderboard(players.clone());
    assert_eq!(crowns_of(&s), vec![("y", 4), ("z", 4), ("x", 1), ("w", 0)]);
    assert_eq!(s.leaderboard, players);
}

#[test]
fn apply_state_sets_food_and_snakes() {
    let mut s = GameState::default();
    s.apply_crown("alice".to_string(), 1);
    s.apply_state([3, 4], vec![worm("alice")]);
    assert_eq!(s.food, Some([3, 4]));
    assert_eq!(s.snakes, vec![worm("alice")]);
    assert_eq!(crowns_of(&s), vec![("alice", 1)]);
}

#[test]
fn apply_message_dispatches() {
    let mut s = GameState::default();
    s.apply_message(ServerMessage::State { tick: 7, food: [1, 2], snakes: vec![worm("a")] });
    assert_eq!(s.food, Some([1, 2]));
    s.apply_message(ServerMessage::Crown { name: "a".to_string(), crowns: 3 });
    assert_eq!(crowns_of(&s), vec![("a", 3)]);
    s.apply_message(ServerMessage::Leaderboard { players: vec![entry("b", 1), entry("a", 3)] });
    assert_eq!(crowns_of(&s), vec![("a", 3), ("b", 1)]);
    s.apply_message(ServerMessage::Error { msg: "oops".to_string() });
    assert_eq!(crowns_of(&s), vec![("a", 3), ("b", 1)]);
    assert_eq!(s.food, Some([1, 2]));
    assert_eq!(s.leaderboard.len(), 2);
}

#[test]
fn pending_join_is_taken_once() {
    let mut s = GameState::default();
    s.pending_join = Some(vec![1, 2, 3]);
    assert_eq!(s.take_pending_join(), Some(vec![1, 2, 3]));
    assert_eq!(s.take_pending_join(), None);
}
