use vstd::prelude::*;

use crate::game::{crowns_view, GameState};
use crate::protocol::{join_frame, turn_frame, LeaderboardEntry, SnakeData};
use crate::tiles::{
    cell_index, empty_grid, in_grid, set_cell, tile_diff, tile_diff_upto, update_views, TileKind,
    TileUpdate, TileView, Tiles, CELLS,
};

verus! {

/// The WebSocket `readyState` of a socket that is open.
pub const SOCKET_OPEN: u16 = 1;

/// A direction change; the server numbers them 0=Up, 1=Right, 2=Down, 3=Left.
#[derive(Clone, Copy, Debug, PartialEq, Eq)]
pub enum Direction {
    Up,
    Right,
    Down,
    Left,
}

/// The protocol number of a direction.
pub open spec fn direction_code(dir: Direction) -> u8 {
    match dir {
        Direction::Up => 0,
        Direction::Right => 1,
        Direction::Down => 2,
        Direction::Left => 3,
    }
}

impl Direction {
    /// The protocol number of this direction.
    pub fn code(self) -> (code: u8)
        ensures
            code == direction_code(self),
    {
        match self {
            Direction::Up => 0,
            Direction::Right => 1,
            Direction::Down => 2,
            Direction::Left => 3,
        }
    }
}

/// Whether the worm named `name` belongs to the player logged in as `username`.
pub open spec fn is_own(username: Option<String>, name: Seq<char>) -> bool {
    match username {
        Some(u) => u@ == name,
        None => false,
    }
}

/// How a worm's tiles look: the player's own worm is always white, the
/// others take the colour the server assigned them.
pub open spec fn snake_tile(username: Option<String>, snake: SnakeData) -> TileView {
    if is_own(username, snake.name@) {
        TileView::Snake("#FFFFFF"@)
    } else {
        TileView::Snake(snake.color@)
    }
}

/// `g` with the tiles of `body` painted `t`, in order; cells off the board are skipped.
pub open spec fn paint_body(g: Seq<TileView>, body: Seq<[u16; 2]>, t: TileView) -> Seq<TileView>
    decreases body.len(),
{
    if body.len() == 0 {
        g
    } else {
        let cell = body.last();
        set_cell(paint_body(g, body.drop_last(), t), cell[0] as int, cell[1] as int, t)
    }
}

/// `g` with every worm painted in turn, later worms over earlier ones.
pub open spec fn paint_snakes(g: Seq<TileView>, snakes: Seq<SnakeData>, username: Option<String>) -> Seq<
    TileView,
>
    decreases snakes.len(),
{
    if snakes.len() == 0 {
        g
    } else {
        let snake = snakes.last();
        paint_body(
            paint_snakes(g, snakes.drop_last(), username),
            snake.body@,
            snake_tile(username, snake),
        )
    }
}

/// `g` with the food tile painted, if there is food.
pub open spec fn paint_food(g: Seq<TileView>, food: Option<[u16; 2]>) -> Seq<TileView> {
    match food {
        Some(f) => set_cell(g, f[0] as int, f[1] as int, TileView::Food),
        None => g,
    }
}

/// The board that the game state shows: an empty grid, then the worms,
/// then the food.
pub open spec fn scene(state: GameState, username: Option<String>) -> Seq<TileView> {
    paint_food(paint_snakes(empty_grid(), state.snakes@, username), state.food)
}

proof fn lemma_paint_body_covers(g: Seq<TileView>, body: Seq<[u16; 2]>, t: TileView)
    requires
        g.len() == CELLS,
    ensures
        paint_body(g, body, t).len() == CELLS,
        forall|k: int|
            0 <= k < body.len() && in_grid(#[trigger] body[k][0] as int, body[k][1] as int)
                ==> paint_body(g, body, t)[cell_index(body[k][0] as int, body[k][1] as int)] == t,
    decreases body.len(),
{
    if body.len() > 0 {
        let rest = body.drop_last();
        lemma_paint_body_covers(g, rest, t);
        assert forall|k: int|
            0 <= k < body.len() && in_grid(#[trigger] body[k][0] as int, body[k][1] as int)
                implies paint_body(g, body, t)[cell_index(body[k][0] as int, body[k][1] as int)]
            == t by {
            if k < body.len() - 1 {
                assert(body[k] == rest[k]);
                let c = body.last();
                let i = cell_index(body[k][0] as int, body[k][1] as int);
                assert(0 <= i < CELLS) by (nonlinear_arith)
                    requires
                        i == body[k][0] * 32 + body[k][1],
                        0 <= body[k][0] < 64,
                        0 <= body[k][1] < 32,
                ;
            }
        }
    }
}

proof fn lemma_cell_index_distinct(x1: int, y1: int, x2: int, y2: int)
    requires
        in_grid(x1, y1),
        in_grid(x2, y2),
        x1 != x2 || y1 != y2,
    ensures
        cell_index(x1, y1) != cell_index(x2, y2),
        0 <= cell_index(x1, y1) < CELLS,
{
    assert(x1 * 32 + y1 != x2 * 32 + y2 && 0 <= x1 * 32 + y1 < 2048) by (nonlinear_arith)
        requires
            0 <= x1 < 64,
            0 <= y1 < 32,
            0 <= x2 < 64,
            0 <= y2 < 32,
            x1 != x2 || y1 != y2,
    ;
}

/// The last worm in the server's list is drawn on top: each of its body
/// cells on the board, other than the food cell, shows white when the worm
/// is the player's own (its name is the joined username) and the worm's
/// server-assigned colour otherwise.
pub proof fn lemma_last_worm_on_top(state: GameState, username: Option<String>)
    requires
        state.snakes@.len() > 0,
    ensures
        ({
            let s = state.snakes@.last();
            let own = match username {
                Some(u) => u@ == s.name@,
                None => false,
            };
            forall|k: int|
                0 <= k < s.body@.len() && in_grid(
                    #[trigger] s.body@[k][0] as int,
                    s.body@[k][1] as int,
                ) && !(state.food matches Some(f) && f[0] == s.body@[k][0] && f[1]
                    == s.body@[k][1]) ==> scene(state, username)[cell_index(
                    s.body@[k][0] as int,
                    s.body@[k][1] as int,
                )] == if own {
                    TileView::Snake("#FFFFFF"@)
                } else {
                    TileView::Snake(s.color@)
                }
        }),
{
    let snakes = state.snakes@;
    let s = snakes.last();
    lemma_worms_paint_no_food(snakes.drop_last(), username);
    let before = paint_snakes(empty_grid(), snakes.drop_last(), username);
    lemma_paint_body_covers(before, s.body@, snake_tile(username, s));
    assert forall|k: int|
        0 <= k < s.body@.len() && in_grid(#[trigger] s.body@[k][0] as int, s.body@[k][1] as int)
            && !(state.food matches Some(f) && f[0] == s.body@[k][0] && f[1] == s.body@[k][1])
            implies scene(state, username)[cell_index(s.body@[k][0] as int, s.body@[k][1] as int)]
        == snake_tile(username, s) by {
        match state.food {
            Some(f) => {
                if in_grid(f[0] as int, f[1] as int) {
                    lemma_cell_index_distinct(
                        f[0] as int,
                        f[1] as int,
                        s.body@[k][0] as int,
                        s.body@[k][1] as int,
                    );
                }
            },
            None => {},
        }
    }
}

/// Whether no tile of `g` shows food.
pub open spec fn no_food(g: Seq<TileView>) -> bool {
    forall|i: int| 0 <= i < g.len() ==> g[i] != TileView::Food
}

proof fn lemma_paint_body_no_food(g: Seq<TileView>, body: Seq<[u16; 2]>, t: TileView)
    requires
        g.len() == CELLS,
        no_food(g),
        t != TileView::Food,
    ensures
        paint_body(g, body, t).len() == CELLS,
        no_food(paint_body(g, body, t)),
    decreases body.len(),
{
    if body.len() > 0 {
        lemma_paint_body_no_food(g, body.drop_last(), t);
    }
}

/// Worms never paint food: drawing any worms on an empty board leaves a
/// full-size board on which no tile shows food.
pub proof fn lemma_worms_paint_no_food(snakes: Seq<SnakeData>, username: Option<String>)
    ensures
        paint_snakes(empty_grid(), snakes, username).len() == CELLS,
        no_food(paint_snakes(empty_grid(), snakes, username)),
    decreases snakes.len(),
{
    if snakes.len() > 0 {
        lemma_worms_paint_no_food(snakes.drop_last(), username);
        lemma_paint_body_no_food(
            paint_snakes(empty_grid(), snakes.drop_last(), username),
            snakes.last().body@,
            snake_tile(username, snakes.last()),
        );
    }
}

/// Food is drawn where the state puts it and nowhere else: with food at
/// column `fx`, row `fy` on the board, that tile shows food (over any worm);
/// with no food, no tile shows food.
pub proof fn lemma_food_is_drawn(state: GameState, username: Option<String>)
    ensures
        scene(state, username).len() == CELLS,
        match state.food {
            Some(f) => in_grid(f[0] as int, f[1] as int) ==> scene(state, username)[cell_index(
                f[0] as int,
                f[1] as int,
            )] == TileView::Food,
            None => no_food(scene(state, username)),
        },
{
    lemma_worms_paint_no_food(state.snakes@, username);
}

/// A state with no worms and no food draws an empty board, so drawing it
/// over an empty board reports no change.
pub proof fn lemma_empty_state_draws_nothing(state: GameState, username: Option<String>)
    requires
        state.snakes@.len() == 0,
        state.food is None,
    ensures
        scene(state, username) == empty_grid(),
        tile_diff(scene(state, username), empty_grid()).len() == 0,
{
    lemma_no_change_no_updates(empty_grid(), CELLS as int);
}

proof fn lemma_no_change_no_updates(g: Seq<TileView>, k: int)
    ensures
        tile_diff_upto(g, g, k).len() == 0,
    decreases k,
{
    if k > 0 {
        lemma_no_change_no_updates(g, k - 1);
    }
}

/// The first worm of player `name`, if any.
pub open spec fn first_snake_from(snakes: Seq<SnakeData>, name: Seq<char>, i: int) -> Option<int>
    decreases snakes.len() - i,
{
    if i < 0 || i >= snakes.len() {
        None
    } else if snakes[i].name@ == name {
        Some(i)
    } else {
        first_snake_from(snakes, name, i + 1)
    }
}

/// The colour of the first worm of player `name`, or the empty string.
pub open spec fn color_of(snakes: Seq<SnakeData>, name: Seq<char>) -> Seq<char> {
    match first_snake_from(snakes, name, 0) {
        Some(j) => snakes[j].color@,
        None => Seq::empty(),
    }
}

proof fn lemma_first_snake_from(snakes: Seq<SnakeData>, name: Seq<char>, i: int)
    requires
        0 <= i,
    ensures
        first_snake_from(snakes, name, i) matches Some(j) ==> i <= j < snakes.len()
            && snakes[j].name@ == name && forall|k: int| i <= k < j ==> snakes[k].name@ != name,
    decreases snakes.len() - i,
{
    if i < snakes.len() && snakes[i].name@ != name {
        lemma_first_snake_from(snakes, name, i + 1);
    }
}

/// The heading of the player's own worm: the first worm named `username`.
pub open spec fn own_dir(snakes: Seq<SnakeData>, username: Option<String>) -> Option<u8> {
    match username {
        Some(u) => match first_snake_from(snakes, u@, 0) {
            Some(j) => Some(snakes[j].dir),
            None => None,
        },
        None => None,
    }
}

/// Whether turning to `dir` would reverse a worm heading `own` (a heading
/// number `o` is reversed by `(o + 2) % 4`).
pub open spec fn reverses(own: Option<u8>, dir: Direction) -> bool {
    match own {
        Some(o) => (o + 2) % 4 == direction_code(dir) as int,
        None => false,
    }
}

/// Only a reversal is refused: with no own worm nothing is refused; for a
/// worm heading `h`, a turn to the current heading or to either side is
/// never refused, and a refused turn points exactly opposite the heading,
/// so at most one of the four directions is refused.
pub proof fn lemma_turn_refuses_only_reversal(h: u8, d: Direction, e: Direction)
    ensures
        !reverses(None, d),
        (direction_code(d) as int == h % 4 || direction_code(d) as int == (h + 1) % 4
            || direction_code(d) as int == (h + 3) % 4) ==> !reverses(Some(h), d),
        reverses(Some(h), d) ==> (direction_code(d) as int + 2) % 4 == h % 4,
        reverses(Some(h), d) && reverses(Some(h), e) ==> d == e,
{
    assert((h + 2) % 4 != h % 4 && (h + 2) % 4 != (h + 1) % 4 && (h + 2) % 4 != (h + 3) % 4
        && ((h + 2) % 4 + 2) % 4 == h % 4) by (nonlinear_arith);
}

/// JSON text for a crown list as `serde_json` writes it, if it writes one.
pub uninterp spec fn crowns_json(crowns: Seq<(Seq<char>, u32)>) -> Option<Seq<char>>;

/// Calls `serde_json::to_string` on the crown list; the contract says only
/// that the text returned is the one that the named function `crowns_json`
/// gives for the list (by names' characters and counts), and that `None`
/// stands for a serialisation error.
#[verifier::external_body]
fn crowns_to_json(crowns: &Vec<(String, u32)>) -> (json: Option<String>)
    ensures
        match json {
            Some(text) => crowns_json(crowns_view(crowns@)) == Some(text@),
            None => crowns_json(crowns_view(crowns@)) is None,
        },
{
    serde_json::to_string(crowns).ok()
}

/// One leaderboard line joined with the colour of the player's worm.
#[derive(Clone, Debug, PartialEq, Eq)]
pub struct LeaderboardRow {
    pub name: String,
    pub crowns: u32,
    pub length: u16,
    pub alive: bool,
    pub color: String,
}

/// Position of the first worm of player `name`, by scanning.
fn first_snake(snakes: &Vec<SnakeData>, name: &String) -> (found: Option<usize>)
    ensures
        match found {
            Some(j) => first_snake_from(snakes@, name@, 0) == Some(j as int) && j < snakes@.len(),
            None => first_snake_from(snakes@, name@, 0) is None,
        },
{
    let mut i: usize = 0;
    while i < snakes.len()
        invariant
            i <= snakes@.len(),
            first_snake_from(snakes@, name@, 0) == first_snake_from(snakes@, name@, i as int),
        decreases snakes@.len() - i,
    {
        if snakes[i].name == *name {
            return Some(i);
        }
        i = i + 1;
    }
    None
}

/// The colour of the first worm of player `name`, or the empty string.
fn snake_color(snakes: &Vec<SnakeData>, name: &String) -> (color: String)
    ensures
        color@ == color_of(snakes@, name@),
{
    match first_snake(snakes, name) {
        Some(j) => snakes[j].color.clone(),
        None => String::new(),
    }
}

/// The client's view of a game: the tile grid, the player's name once
/// joined, and the game state that server messages update.
pub struct Board {
    pub tiles: Tiles,
    pub username: Option<String>,
    pub state: GameState,
}

impl Board {
    /// Initialise the board: an empty tile grid, no player and no game yet.
    pub fn create() -> (board: Board)
        ensures
            board.tiles@ == empty_grid(),
            board.username is None,
            board.state.food is None,
            board.state.snakes@.len() == 0,
            board.state.crowns@.len() == 0,
            board.state.leaderboard@.len() == 0,
            board.state.pending_join is None,
    {
        Board { tiles: Tiles::new(), username: None, state: GameState::default() }
    }

    /// Register as a player. Returns the join message to send now when the
    /// socket is open (`ready_state` is `SOCKET_OPEN`); otherwise queues it
    /// for the socket's open handler and returns `None`.
    pub fn join(&mut self, username: String, ready_state: u16) -> (send: Option<Vec<u8>>)
        ensures
            final(self).username == Some(username),
            final(self).tiles == old(self).tiles,
            ready_state == SOCKET_OPEN ==> {
                &&& send matches Some(bytes) && bytes@ == join_frame(username@)
                &&& final(self).state == old(self).state
            },
            ready_state != SOCKET_OPEN ==> {
                &&& send is None
                &&& final(self).state.pending_join matches Some(bytes) && bytes@ == join_frame(
                    username@,
                )
                &&& final(self).state.food == old(self).state.food
                &&& final(self).state.snakes == old(self).state.snakes
                &&& final(self).state.crowns == old(self).state.crowns
                &&& final(self).state.leaderboard == old(self).state.leaderboard
            },
    {
        let name = username.clone();
        self.username = Some(username);
        let bytes = crate::protocol::encode_join(&name);
        if ready_state == SOCKET_OPEN {
            Some(bytes)
        } else {
            self.state.pending_join = Some(bytes);
            None
        }
    }

    /// The message that sends a direction change to the server, or `None`
    /// when the change would reverse the player's own worm (the first worm
    /// named after the player), which is refused before it reaches the server.
    pub fn turn(&self, dir: Direction) -> (bytes: Option<Vec<u8>>)
        ensures
            reverses(own_dir(self.state.snakes@, self.username), dir) ==> bytes is None,
            !reverses(own_dir(self.state.snakes@, self.username), dir) ==> (bytes matches Some(
                b,
            ) && b@ == turn_frame(direction_code(dir))),
            bytes matches Some(b) ==> b@ == turn_frame(direction_code(dir)),
            bytes is None ==> exists|j: int|
                #![trigger self.state.snakes@[j]]
                0 <= j < self.state.snakes@.len() && (self.username matches Some(u) && u@
                    == self.state.snakes@[j].name@) && (forall|k: int|
                    0 <= k < j ==> self.state.snakes@[k].name@ != self.state.snakes@[j].name@) && (
                self.state.snakes@[j].dir + 2) % 4 == direction_code(dir) as int,
    {
        let code = dir.code();
        match &self.username {
            Some(u) => {
                match first_snake(&self.state.snakes, u) {
                    Some(j) => {
                        let heading: u8 = self.state.snakes[j].dir;
                        let opposite: u16 = (heading as u16 + 2) % 4;
                        if opposite == code as u16 {
                            proof {
                                lemma_first_snake_from(self.state.snakes@, u@, 0);
                                assert(self.state.snakes@[j as int].name@ == u@);
                            }
                            return None;
                        }
                    },
                    None => {},
                }
            },
            None => {},
        }
        Some(crate::protocol::encode_turn(code))
    }

    /// Render the current game state into the tile grid and return the
    /// tiles that changed since the previous frame, for the page to repaint.
    pub fn draw(&mut self) -> (updates: Vec<TileUpdate>)
        ensures
            final(self).tiles@ == scene(old(self).state, old(self).username),
            update_views(updates@) == tile_diff(final(self).tiles@, old(self).tiles@),
            final(self).tiles@.len() == CELLS,
            match old(self).state.food {
                Some(f) => in_grid(f[0] as int, f[1] as int) ==> final(self).tiles@[cell_index(
                    f[0] as int,
                    f[1] as int,
                )] == TileView::Food,
                None => forall|i: int|
                    0 <= i < final(self).tiles@.len() ==> final(self).tiles@[i] != TileView::Food,
            },
            final(self).state == old(self).state,
            final(self).username == old(self).username,
    {
        let mut next = Tiles::new();
        let mut s: usize = 0;
        while s < self.state.snakes.len()
            invariant
                s <= self.state.snakes@.len(),
                next@ == paint_snakes(empty_grid(), self.state.snakes@.take(s as int), self.username),
            decreases self.state.snakes@.len() - s,
        {
            let snake = &self.state.snakes[s];
            let own = match &self.username {
                Some(u) => *u == snake.name,
                None => false,
            };
            let color: String = if own {
                "#FFFFFF".to_owned()
            } else {
                snake.color.clone()
            };
            let ghost tile = snake_tile(self.username, *snake);
            assert(TileView::Snake(color@) == tile);
            let ghost start = next@;
            let mut b: usize = 0;
            while b < snake.body.len()
                invariant
                    b <= snake.body@.len(),
                    TileView::Snake(color@) == tile,
                    next@ == paint_body(start, snake.body@.take(b as int), tile),
                decreases snake.body@.len() - b,
            {
                let cell = snake.body[b];
                next.set_tile_kind(cell[0] as usize, cell[1] as usize, TileKind::Snake(color.clone()));
                assert(snake.body@.take(b + 1).drop_last() =~= snake.body@.take(b as int));
                b = b + 1;
            }
            assert(snake.body@.take(b as int) =~= snake.body@);
            assert(self.state.snakes@.take(s + 1).drop_last() =~= self.state.snakes@.take(s as int));
            s = s + 1;
        }
        assert(self.state.snakes@.take(s as int) =~= self.state.snakes@);
        match self.state.food {
            Some(f) => {
                next.set_tile_kind(f[0] as usize, f[1] as usize, TileKind::Food);
            },
            None => {},
        }
        proof {
            lemma_food_is_drawn(self.state, self.username);
        }
        let updates = next.refresh(&self.tiles);
        self.tiles = next;
        updates
    }

    /// Crown counts as JSON, sorted by crowns descending; `[]` when the list
    /// cannot be serialised.
    pub fn crowns(&self) -> (json: String)
        ensures
            json@ == match crowns_json(crowns_view(self.state.crowns@)) {
                Some(text) => text,
                None => "[]"@,
            },
    {
        match crowns_to_json(&self.state.crowns) {
            Some(text) => text,
            None => "[]".to_owned(),
        }
    }

    /// The leaderboard with each player's worm colour: one row per
    /// leaderboard entry, in order, the colour taken from the first worm of
    /// that player or empty when the player has none on the board.
    pub fn leaderboard(&self) -> (rows: Vec<LeaderboardRow>)
        ensures
            rows@.len() == self.state.leaderboard@.len(),
            forall|i: int|
                0 <= i < rows@.len() ==> {
                    let p = #[trigger] self.state.leaderboard@[i];
                    let r = rows@[i];
                    &&& r.name@ == p.name@
                    &&& r.crowns == p.crowns
                    &&& r.length == p.length
                    &&& r.alive == p.alive
                    &&& r.color@ == color_of(self.state.snakes@, p.name@)
                },
    {
        let mut rows: Vec<LeaderboardRow> = Vec::new();
        let mut i: usize = 0;
        while i < self.state.leaderboard.len()
            invariant
                i <= self.state.leaderboard@.len(),
                rows@.len() == i,
                forall|k: int|
                    0 <= k < i ==> {
                        let p = #[trigger] self.state.leaderboard@[k];
                        let r = rows@[k];
                        &&& r.name@ == p.name@
                        &&& r.crowns == p.crowns
                        &&& r.length == p.length
                        &&& r.alive == p.alive
                        &&& r.color@ == color_of(self.state.snakes@, p.name@)
                    },
            decreases self.state.leaderboard@.len() - i,
        {
            let p: &LeaderboardEntry = &self.state.leaderboard[i];
            let color = snake_color(&self.state.snakes, &p.name);
            rows.push(
                LeaderboardRow {
                    name: p.name.clone(),
                    crowns: p.crowns,
                    length: p.length,
                    alive: p.alive,
                    color,
                },
            );
            i = i + 1;
        }
        rows
    }
}

} // verus!
