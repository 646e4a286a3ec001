use vstd::prelude::*;

verus! {

/// Number of tile columns on the board.
pub const COLS: usize = 64;

/// Number of tile rows on the board.
pub const ROWS: usize = 32;

/// Number of tiles on the board.
pub const CELLS: usize = COLS * ROWS;

/// Side of a tile, in CSS pixels.
pub const TILES_SIZE: usize = 10;

/// Gap between neighbouring tiles, in CSS pixels.
pub const TILES_MARGIN: usize = 1;

/// What a tile shows, as seen by the specifications.
pub enum TileView {
    Empty,
    Snake(Seq<char>),
    Food,
}

/// What a tile shows.
#[derive(Clone, Debug, PartialEq, Eq)]
pub enum TileKind {
    Empty,
    /// Pre-computed hex color for this segment.
    Snake(String),
    Food,
}

impl View for TileKind {
    type V = TileView;

    open spec fn view(&self) -> TileView {
        match self {
            TileKind::Empty => TileView::Empty,
            TileKind::Snake(color) => TileView::Snake(color@),
            TileKind::Food => TileView::Food,
        }
    }
}

impl Default for TileKind {
    fn default() -> (kind: TileKind)
        ensures
            kind@ == TileView::Empty,
    {
        TileKind::Empty
    }
}

/// The background colour that a tile of this kind is painted with.
pub open spec fn background_of(t: TileView) -> Option<Seq<char>> {
    match t {
        TileView::Empty => None,
        TileView::Snake(color) => Some(color),
        TileView::Food => Some("#00FF00"@),
    }
}

impl TileKind {
    /// Whether two tile kinds show the same thing.
    pub fn same_as(&self, other: &TileKind) -> (same: bool)
        ensures
            same == (self@ == other@),
    {
        let same = match self {
            TileKind::Empty => {
                if let TileKind::Empty = other {
                    true
                } else {
                    false
                }
            },
            TileKind::Food => {
                if let TileKind::Food = other {
                    true
                } else {
                    false
                }
            },
            TileKind::Snake(a) => {
                if let TileKind::Snake(b) = other {
                    *a == *b
                } else {
                    false
                }
            },
        };
        same
    }

    /// A copy of this tile kind.
    pub fn duplicate(&self) -> (copy: TileKind)
        ensures
            copy@ == self@,
    {
        match self {
            TileKind::Empty => TileKind::Empty,
            TileKind::Snake(color) => TileKind::Snake(color.clone()),
            TileKind::Food => TileKind::Food,
        }
    }

    /// The CSS background colour of a tile of this kind: `None` means that
    /// the tile has no background colour; food is painted `#00FF00`.
    pub fn background(&self) -> (color: Option<String>)
        ensures
            match (color, background_of(self@)) {
                (Some(c), Some(s)) => c@ == s,
                (None, None) => true,
                _ => false,
            },
    {
        match self {
            TileKind::Empty => None,
            TileKind::Snake(color) => Some(color.clone()),
            TileKind::Food => Some("#00FF00".to_owned()),
        }
    }
}

/// Position in the flat grid of the tile at column `x`, row `y`.
pub open spec fn cell_index(x: int, y: int) -> int {
    x * ROWS + y
}

/// Whether column `x`, row `y` lies on the board.
pub open spec fn in_grid(x: int, y: int) -> bool {
    0 <= x < COLS && 0 <= y < ROWS
}

/// The board with every tile empty.
pub open spec fn empty_grid() -> Seq<TileView> {
    Seq::new(CELLS as nat, |i: int| TileView::Empty)
}

/// The grid with the tile at (`x`, `y`) set to `t`; off the board, the grid unchanged.
pub open spec fn set_cell(g: Seq<TileView>, x: int, y: int, t: TileView) -> Seq<TileView> {
    if in_grid(x, y) {
        g.update(cell_index(x, y), t)
    } else {
        g
    }
}

/// The changes that turn `prev` into `new` over the first `k` tiles, in
/// column-major scan order: one `(x, y, tile)` for each tile that differs.
pub open spec fn tile_diff_upto(new: Seq<TileView>, prev: Seq<TileView>, k: int) -> Seq<
    (int, int, TileView),
>
    decreases k,
{
    if k <= 0 {
        Seq::empty()
    } else {
        let i = k - 1;
        let before = tile_diff_upto(new, prev, i);
        if new[i] != prev[i] {
            before.push((i / ROWS as int, i % ROWS as int, new[i]))
        } else {
            before
        }
    }
}

/// The changes that turn `prev` into `new`, one per differing tile, in scan order.
pub open spec fn tile_diff(new: Seq<TileView>, prev: Seq<TileView>) -> Seq<(int, int, TileView)> {
    tile_diff_upto(new, prev, CELLS as int)
}

/// The grid after applying `updates` to `g` in order.
pub open spec fn apply_updates(g: Seq<TileView>, updates: Seq<(int, int, TileView)>) -> Seq<
    TileView,
>
    decreases updates.len(),
{
    if updates.len() == 0 {
        g
    } else {
        let u = updates.last();
        set_cell(apply_updates(g, updates.drop_last()), u.0, u.1, u.2)
    }
}

/// One tile that changed: its column, its row and what it now shows.
#[derive(Clone, Debug, PartialEq, Eq)]
pub struct TileUpdate {
    pub x: usize,
    pub y: usize,
    pub kind: TileKind,
}

/// The updates as `(x, y, tile)` triples.
pub open spec fn update_views(us: Seq<TileUpdate>) -> Seq<(int, int, TileView)> {
    us.map_values(|u: TileUpdate| (u.x as int, u.y as int, u.kind@))
}

/// The tile grid: what each of the `COLS` x `ROWS` tiles shows, stored
/// column after column.
pub struct Tiles {
    cells: Vec<TileKind>,
}

impl View for Tiles {
    type V = Seq<TileView>;

    closed spec fn view(&self) -> Seq<TileView> {
        self.cells@.map_values(|k: TileKind| k@)
    }
}

proof fn lemma_index_parts(x: int, y: int)
    requires
        0 <= x,
        0 <= y < ROWS,
    ensures
        (x * ROWS + y) / ROWS as int == x,
        (x * ROWS + y) % ROWS as int == y,
{
    assert((x * 32 + y) / 32 == x && (x * 32 + y) % 32 == y) by (nonlinear_arith)
        requires
            0 <= x,
            0 <= y < 32,
    ;
}

impl Tiles {
    /// The grid always holds exactly one entry per tile.
    #[verifier::type_invariant]
    spec fn one_entry_per_tile(&self) -> bool {
        self.cells@.len() == CELLS
    }

    /// A grid of `COLS` x `ROWS` empty tiles.
    pub fn new() -> (tiles: Tiles)
        ensures
            tiles@ == empty_grid(),
    {
        let mut cells: Vec<TileKind> = Vec::new();
        let mut i: usize = 0;
        while i < CELLS
            invariant
                i <= CELLS,
                cells@.len() == i,
                forall|j: int| 0 <= j < i ==> (#[trigger] cells@[j])@ == TileView::Empty,
            decreases CELLS - i,
        {
            cells.push(TileKind::Empty);
            i = i + 1;
        }
        let tiles = Tiles { cells };
        assert(tiles@ =~= empty_grid());
        tiles
    }

    /// Sets the tile at column `x`, row `y` to `tile_kind` and returns
    /// `true`; off the board, changes nothing and returns `false`.
    pub fn set_tile_kind(&mut self, x: usize, y: usize, tile_kind: TileKind) -> (placed: bool)
        ensures
            placed == in_grid(x as int, y as int),
            final(self)@ == set_cell(old(self)@, x as int, y as int, tile_kind@),
    {
        proof {
            use_type_invariant(&*self);
        }
        if x < COLS && y < ROWS {
            let i = x * ROWS + y;
            self.cells[i] = tile_kind;
            proof {
                assert(self@ =~= set_cell(old(self)@, x as int, y as int, tile_kind@));
            }
            true
        } else {
            false
        }
    }

    /// Resets all tiles to empty.
    pub fn clear(&mut self)
        ensures
            final(self)@ == empty_grid(),
    {
        proof {
            use_type_invariant(&*self);
        }
        let mut i: usize = 0;
        while i < CELLS
            invariant
                i <= CELLS,
                self.cells@.len() == CELLS,
                forall|j: int| 0 <= j < i ==> (#[trigger] self.cells@[j])@ == TileView::Empty,
            decreases CELLS - i,
        {
            self.cells[i] = TileKind::Empty;
            i = i + 1;
        }
        assert(self@ =~= empty_grid());
    }

    /// Number of entries in the grid: one per tile.
    pub fn len(&self) -> (n: usize)
        ensures
            n == self@.len(),
            n == CELLS,
    {
        proof {
            use_type_invariant(self);
        }
        self.cells.len()
    }

    /// What the tile at column `x`, row `y` shows.
    pub fn tile_at(&self, x: usize, y: usize) -> (kind: TileKind)
        requires
            in_grid(x as int, y as int),
        ensures
            kind@ == self@[cell_index(x as int, y as int)],
    {
        proof {
            use_type_invariant(self);
        }
        self.cells[x * ROWS + y].duplicate()
    }

    /// The tiles that differ between `prev` and this grid, with what they
    /// show now, column after column: the changes a renderer applies.
    pub fn refresh(&self, prev: &Tiles) -> (updates: Vec<TileUpdate>)
        ensures
            update_views(updates@) == tile_diff(self@, prev@),
            self@.len() == CELLS,
            prev@.len() == CELLS,
    {
        proof {
            use_type_invariant(self);
            use_type_invariant(prev);
        }
        let mut updates: Vec<TileUpdate> = Vec::new();
        let mut x: usize = 0;
        while x < COLS
            invariant
                x <= COLS,
                self.cells@.len() == CELLS,
                prev.cells@.len() == CELLS,
                update_views(updates@) == tile_diff_upto(self@, prev@, x * ROWS as int),
            decreases COLS - x,
        {
            let mut y: usize = 0;
            while y < ROWS
                invariant
                    x < COLS,
                    y <= ROWS,
                    self.cells@.len() == CELLS,
                    prev.cells@.len() == CELLS,
                    update_views(updates@) == tile_diff_upto(self@, prev@, x * ROWS + y),
                decreases ROWS - y,
            {
                let i = x * ROWS + y;
                proof {
                    lemma_index_parts(x as int, y as int);
                }
                let ghost before = updates@;
                if !self.cells[i].same_as(&prev.cells[i]) {
                    let kind = self.cells[i].duplicate();
                    updates.push(TileUpdate { x, y, kind });
                    assert(update_views(updates@) =~= update_views(before).push(
                        (x as int, y as int, self@[i as int]),
                    ));
                }
                y = y + 1;
            }
            x = x + 1;
        }
        updates
    }
}

proof fn lemma_split_index(k: int)
    requires
        0 <= k < CELLS,
    ensures
        in_grid(k / ROWS as int, k % ROWS as int),
        cell_index(k / ROWS as int, k % ROWS as int) == k,
{
    assert(0 <= k / 32 < 64 && 0 <= k % 32 < 32 && (k / 32) * 32 + k % 32 == k) by (nonlinear_arith)
        requires
            0 <= k < 2048,
    ;
}

/// The grid whose first `k` tiles come from `new` and whose others come from `prev`.
spec fn blend(new: Seq<TileView>, prev: Seq<TileView>, k: int) -> Seq<TileView> {
    Seq::new(CELLS as nat, |i: int| if i < k { new[i] } else { prev[i] })
}

proof fn lemma_apply_diff_upto(new: Seq<TileView>, prev: Seq<TileView>, k: int)
    requires
        new.len() == CELLS,
        prev.len() == CELLS,
        0 <= k <= CELLS,
    ensures
        apply_updates(prev, tile_diff_upto(new, prev, k)) == blend(new, prev, k),
    decreases k,
{
    if k == 0 {
        assert(blend(new, prev, 0) =~= prev);
    } else {
        let i = k - 1;
        lemma_apply_diff_upto(new, prev, i);
        lemma_split_index(i);
        let before = tile_diff_upto(new, prev, i);
        if new[i] != prev[i] {
            let u = (i / ROWS as int, i % ROWS as int, new[i]);
            assert(before.push(u).drop_last() =~= before);
            assert(blend(new, prev, i).update(i, new[i]) =~= blend(new, prev, k));
        } else {
            assert(blend(new, prev, i) =~= blend(new, prev, k));
        }
    }
}

/// Applying, in order, the changes that `Tiles::refresh` reports for `new`
/// against `prev` turns `prev` into `new`.
pub proof fn lemma_refresh_restores(new: Seq<TileView>, prev: Seq<TileView>)
    requires
        new.len() == CELLS,
        prev.len() == CELLS,
    ensures
        apply_updates(prev, tile_diff(new, prev)) == new,
{
    lemma_apply_diff_upto(new, prev, CELLS as int);
    assert(blend(new, prev, CELLS as int) =~= new);
}

proof fn lemma_diff_upto_changed_only(new: Seq<TileView>, prev: Seq<TileView>, k: int)
    requires
        new.len() == CELLS,
        prev.len() == CELLS,
        0 <= k <= CELLS,
    ensures
        forall|j: int|
            0 <= j < tile_diff_upto(new, prev, k).len() ==> {
                let u = #[trigger] tile_diff_upto(new, prev, k)[j];
                &&& in_grid(u.0, u.1)
                &&& cell_index(u.0, u.1) < k
                &&& new[cell_index(u.0, u.1)] == u.2
                &&& prev[cell_index(u.0, u.1)] != u.2
            },
    decreases k,
{
    if k > 0 {
        lemma_diff_upto_changed_only(new, prev, k - 1);
        lemma_split_index(k - 1);
        let before = tile_diff_upto(new, prev, k - 1);
        let after = tile_diff_upto(new, prev, k);
        assert forall|j: int| 0 <= j < before.len() implies #[trigger] after[j] == before[j] by {}
        assert forall|j: int| 0 <= j < after.len() implies {
            let u = #[trigger] after[j];
            &&& in_grid(u.0, u.1)
            &&& cell_index(u.0, u.1) < k
            &&& new[cell_index(u.0, u.1)] == u.2
            &&& prev[cell_index(u.0, u.1)] != u.2
        } by {
            if j < before.len() {
                assert(after[j] == before[j]);
            }
        }
    }
}

/// Every change that `Tiles::refresh` reports names a tile on the board that
/// differs between the two grids, and carries what the new grid shows there.
pub proof fn lemma_refresh_changed_only(new: Seq<TileView>, prev: Seq<TileView>)
    requires
        new.len() == CELLS,
        prev.len() == CELLS,
    ensures
        forall|j: int|
            0 <= j < tile_diff(new, prev).len() ==> {
                let u = #[trigger] tile_diff(new, prev)[j];
                &&& in_grid(u.0, u.1)
                &&& new[cell_index(u.0, u.1)] == u.2
                &&& prev[cell_index(u.0, u.1)] != u.2
            },
{
    lemma_diff_upto_changed_only(new, prev, CELLS as int);
}

/// Horizontal (or vertical) offset of the tile in column (or row) `i`, in CSS pixels.
pub fn tile_offset_px(i: usize) -> (px: usize)
    requires
        i * (TILES_SIZE + TILES_MARGIN) <= usize::MAX,
    ensures
        px == i * (TILES_SIZE + TILES_MARGIN),
{
    i * (TILES_SIZE + TILES_MARGIN)
}

/// Width of the stage that holds the grid, in CSS pixels.
pub fn stage_width_px() -> (px: usize)
    ensures
        px == COLS * (TILES_SIZE + TILES_MARGIN),
{
    COLS * (TILES_SIZE + TILES_MARGIN)
}

/// Height of the stage that holds the grid, in CSS pixels.
pub fn stage_height_px() -> (px: usize)
    ensures
        px == ROWS * (TILES_SIZE + TILES_MARGIN),
{
    ROWS * (TILES_SIZE + TILES_MARGIN)
}

} // verus!
