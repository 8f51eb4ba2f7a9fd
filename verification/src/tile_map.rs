//! The tile grid and the enemy path carved through it.

use crate::random::{pick_one, random_below};
use vstd::prelude::*;

verus! {

/// Out of `KEEP_HEADING_OUT_OF` steps on which the path can go straight on,
/// it does so on `KEEP_HEADING_CHANCES` on average; on the others it turns
/// to an open direction drawn anew.
pub const KEEP_HEADING_CHANCES: i32 = 6;

/// The number of equally likely draws of which `KEEP_HEADING_CHANCES` keep
/// the heading.
pub const KEEP_HEADING_OUT_OF: i32 = 10;

/// The shortest enemy path that a map of the game is played on.
pub const MIN_PATH_LENGTH: usize = 80;

/// What a cell of the grid holds: `Grass` can be walked and built on,
/// `Rock` is a cell of the enemy path.
#[derive(Copy, Clone, Debug, PartialEq, Eq, Structural)]
pub enum TileType {
    Grass,
    Rock,
}

/// A compass direction on the grid. `Up` increases `y`, `Right` increases `x`.
#[derive(Copy, Clone, Debug, PartialEq, Eq, Structural)]
pub enum Direction {
    Up,
    Down,
    Right,
    Left,
}

/// The unit step that a direction stands for.
pub open spec fn delta(dir: Direction) -> (int, int) {
    match dir {
        Direction::Up => (0, 1),
        Direction::Down => (0, -1),
        Direction::Right => (1, 0),
        Direction::Left => (-1, 0),
    }
}

/// The unit step of `dir` as a coordinate offset.
pub fn direction_to_coord(dir: Direction) -> (offset: (i32, i32))
    ensures
        (offset.0 as int, offset.1 as int) == delta(dir),
{
    match dir {
        Direction::Up => (0, 1),
        Direction::Down => (0, -1),
        Direction::Right => (1, 0),
        Direction::Left => (-1, 0),
    }
}

/// The tile that `grid` holds at `coord`, if it covers that coordinate.
pub open spec fn tile_in(grid: Map<(int, int), TileType>, coord: (int, int)) -> Option<TileType> {
    if grid.dom().contains(coord) {
        Some(grid[coord])
    } else {
        None
    }
}

/// A tile as a sequence of one, an absent tile as the empty sequence.
pub open spec fn present(tile: Option<TileType>) -> Seq<TileType> {
    match tile {
        Some(t) => seq![t],
        None => Seq::empty(),
    }
}

/// The tiles that `grid` holds around `coord`: to the right, above, to the
/// left and below, in that order, leaving out what the grid does not cover.
pub open spec fn neighbors_of(grid: Map<(int, int), TileType>, coord: (int, int)) -> Seq<TileType> {
    present(tile_in(grid, (coord.0 + 1, coord.1))) + present(tile_in(grid, (coord.0, coord.1 + 1)))
        + present(tile_in(grid, (coord.0 - 1, coord.1))) + present(
        tile_in(grid, (coord.0, coord.1 - 1)),
    )
}

/// How many tiles of `tiles` are of the given kind.
pub open spec fn tally(tiles: Seq<TileType>, kind: TileType) -> nat
    decreases tiles.len(),
{
    if tiles.len() == 0 {
        0
    } else {
        tally(tiles.drop_last(), kind) + if tiles.last() == kind {
            1nat
        } else {
            0nat
        }
    }
}

/// Counting over a concatenation adds the counts of its parts.
pub proof fn lemma_tally_add(a: Seq<TileType>, b: Seq<TileType>, kind: TileType)
    ensures
        tally(a + b, kind) == tally(a, kind) + tally(b, kind),
    decreases b.len(),
{
    if b.len() == 0 {
        assert(a + b =~= a);
    } else {
        assert((a + b).drop_last() =~= a + b.drop_last());
        lemma_tally_add(a, b.drop_last(), kind);
    }
}

/// Replacing one tile moves one unit between the counts of the two kinds
/// involved.
pub proof fn lemma_tally_update(tiles: Seq<TileType>, index: int, tile: TileType, kind: TileType)
    requires
        0 <= index < tiles.len(),
    ensures
        tally(tiles.update(index, tile), kind) + (if tiles[index] == kind {
            1nat
        } else {
            0nat
        }) == tally(tiles, kind) + (if tile == kind {
            1nat
        } else {
            0nat
        }),
    decreases tiles.len(),
{
    let last = tiles.len() - 1;
    if index == last {
        assert(tiles.update(index, tile).drop_last() =~= tiles.drop_last());
        if last > 0 {
            lemma_tally_update(tiles.drop_last(), 0, tiles[0], kind);
            assert(tiles.drop_last().update(0, tiles[0]) =~= tiles.drop_last());
        } else {
            assert(tally(tiles.drop_last(), kind) == 0);
        }
    } else {
        assert(tiles.update(index, tile).drop_last() =~= tiles.drop_last().update(index, tile));
        lemma_tally_update(tiles.drop_last(), index, tile, kind);
    }
}

/// In a sequence that holds one tile throughout, that tile's kind counts
/// every position and the other kind none.
pub proof fn lemma_tally_uniform(tiles: Seq<TileType>, tile: TileType, kind: TileType)
    requires
        forall|i: int| 0 <= i < tiles.len() ==> tiles[i] == tile,
    ensures
        tally(tiles, kind) == if tile == kind {
            tiles.len()
        } else {
            0
        },
    decreases tiles.len(),
{
    if tiles.len() > 0 {
        lemma_tally_uniform(tiles.drop_last(), tile, kind);
    }
}

/// A fixed-size grid of tiles, addressed by `(x, y)` with `0 <= x < width`
/// and `0 <= y < height`. Coordinates outside that range name no tile.
pub struct TileMap {
    tiles: Vec<TileType>,
    width: i32,
    height: i32,
}

/// The position of `coord` in a row-major array of rows of length `width`.
pub open spec fn index_of(coord: (int, int), width: int) -> int {
    coord.0 + coord.1 * width
}

/// Inside a `width` by `height` grid every coordinate has an index of its
/// own, below `width * height`.
pub proof fn lemma_index_of(a: (int, int), b: (int, int), width: int, height: int)
    requires
        0 <= a.0 < width,
        0 <= a.1 < height,
        0 <= b.0 < width,
        0 <= b.1 < height,
    ensures
        0 <= a.1 * width <= index_of(a, width) < width * height,
        index_of(a, width) == index_of(b, width) ==> a == b,
{
    assert(0 <= a.1 * width && a.1 * width + width <= width * height) by (nonlinear_arith)
        requires
            0 <= a.1 < height,
            0 < width,
    ;
    if a.1 < b.1 {
        assert(a.1 * width + width <= b.1 * width) by (nonlinear_arith)
            requires
                a.1 < b.1,
                0 < width,
        ;
    }
    if b.1 < a.1 {
        assert(b.1 * width + width <= a.1 * width) by (nonlinear_arith)
            requires
                b.1 < a.1,
                0 < width,
        ;
    }
}

/// The position of `coord` in a row-major array of rows of length `width`.
pub fn coord_to_index(coord: (i32, i32), width: i32) -> (index: usize)
    requires
        i32::MIN <= coord.1 * width <= i32::MAX,
        0 <= index_of((coord.0 as int, coord.1 as int), width as int) <= i32::MAX,
    ensures
        index == index_of((coord.0 as int, coord.1 as int), width as int),
{
    (coord.0 + coord.1 * width) as usize
}

/// Appends `tile` to `tiles` if there is one.
fn push_present(tiles: &mut Vec<TileType>, tile: Option<TileType>)
    ensures
        final(tiles)@ == old(tiles)@ + present(tile),
{
    if let Some(t) = tile {
        tiles.push(t);
    }
    assert(tiles@ =~= old(tiles)@ + present(tile));
}

impl View for TileMap {
    type V = Map<(int, int), TileType>;

    /// The grid as a map from the coordinates it covers to their tiles.
    closed spec fn view(&self) -> Map<(int, int), TileType> {
        Map::new(
            |c: (int, int)| 0 <= c.0 < self.width && 0 <= c.1 < self.height,
            |c: (int, int)| self.tiles@[index_of(c, self.width as int)],
        )
    }
}

impl TileMap {
    #[verifier::type_invariant]
    closed spec fn well_formed(&self) -> bool {
        &&& 0 <= self.width
        &&& 0 <= self.height
        &&& self.width * self.height <= i32::MAX
        &&& self.tiles@.len() == self.width * self.height
    }

    /// Number of columns.
    pub closed spec fn cols(&self) -> int {
        self.width as int
    }

    /// Number of rows.
    pub closed spec fn rows(&self) -> int {
        self.height as int
    }

    /// How many tiles of the grid are of the given kind.
    pub closed spec fn count(&self, kind: TileType) -> nat {
        tally(self.tiles@, kind)
    }

    /// Whether `coord` names a tile of a `cols` by `rows` grid.
    pub open spec fn in_bounds(coord: (int, int), cols: int, rows: int) -> bool {
        0 <= coord.0 < cols && 0 <= coord.1 < rows
    }

    /// The tile at `coord`, if the grid covers it.
    pub open spec fn tile_at(&self, coord: (int, int)) -> Option<TileType> {
        tile_in(self@, coord)
    }

    /// Whether this grid is `before` with `tile` put at `coord`: the same
    /// grid where `before` does not cover `coord`, and otherwise one that
    /// differs in that cell alone, with the counts of the kinds moved to match.
    pub open spec fn is_update_of(&self, before: &TileMap, coord: (int, int), tile: TileType) -> bool {
        &&& self.cols() == before.cols()
        &&& self.rows() == before.rows()
        &&& before@.dom().contains(coord) ==> self@ == before@.insert(coord, tile)
        &&& !before@.dom().contains(coord) ==> self@ == before@
        &&& forall|kind: TileType|
            #![auto]
            self.count(kind) + (if before.tile_at(coord) == Some(kind) {
                1nat
            } else {
                0nat
            }) == before.count(kind) + (if before@.dom().contains(coord) && tile == kind {
                1nat
            } else {
                0nat
            })
    }

    /// The grid covers exactly the coordinates inside its bounds.
    pub proof fn lemma_domain(&self)
        ensures
            forall|c: (int, int)|
                self@.dom().contains(c) <==> Self::in_bounds(c, self.cols(), self.rows()),
    {
    }

    /// A `width` by `height` grid with `tile` in every cell.
    pub fn new(width: i32, height: i32, tile: TileType) -> (grid: Self)
        requires
            0 <= width,
            0 <= height,
            width * height <= i32::MAX,
        ensures
            grid.cols() == width,
            grid.rows() == height,
            grid@ == Map::new(
                |c: (int, int)| Self::in_bounds(c, width as int, height as int),
                |c: (int, int)| tile,
            ),
            forall|kind: TileType|
                #![auto]
                grid.count(kind) == if kind == tile {
                    width * height
                } else {
                    0
                },
    {
        assert(0 <= width * height) by (nonlinear_arith)
            requires
                0 <= width,
                0 <= height,
        ;
        let tiles = vec![tile; (width * height) as usize];
        let grid = TileMap { tiles, width, height };
        proof {
            assert forall|c: (int, int)| Self::in_bounds(c, width as int, height as int) implies #[trigger]
                grid@[c] == tile by {
                lemma_index_of(c, c, width as int, height as int);
            }
            assert(grid@ =~= Map::new(
                |c: (int, int)| Self::in_bounds(c, width as int, height as int),
                |c: (int, int)| tile,
            ));
            assert forall|kind: TileType| #![auto] grid.count(kind) == if kind == tile {
                width * height
            } else {
                0
            } by {
                lemma_tally_uniform(grid.tiles@, tile, kind);
            }
        }
        grid
    }

    /// Number of columns.
    pub fn width(&self) -> (w: i32)
        ensures
            w == self.cols(),
            0 <= w,
    {
        proof {
            use_type_invariant(self);
        }
        self.width
    }

    /// Number of rows.
    pub fn height(&self) -> (h: i32)
        ensures
            h == self.rows(),
            0 <= h,
    {
        proof {
            use_type_invariant(self);
        }
        self.height
    }

    /// Whether the grid covers `coord`.
    pub fn is_within(&self, coord: (i32, i32)) -> (within: bool)
        ensures
            within == self@.dom().contains((coord.0 as int, coord.1 as int)),
    {
        coord.0 >= 0 && coord.0 < self.width && coord.1 >= 0 && coord.1 < self.height
    }

    /// The tile at `coord`, or `None` where the grid does not cover it.
    pub fn get(&self, coord: (i32, i32)) -> (tile: Option<TileType>)
        ensures
            tile == self.tile_at((coord.0 as int, coord.1 as int)),
    {
        if self.is_within(coord) {
            proof {
                use_type_invariant(self);
                let c = (coord.0 as int, coord.1 as int);
                lemma_index_of(c, c, self.width as int, self.height as int);
            }
            Some(self.tiles[coord_to_index(coord, self.width)])
        } else {
            None
        }
    }

    /// The tile at `(x, y)`, for coordinates that may lie outside the range
    /// of the grid's own coordinate type.
    fn peek(&self, x: i64, y: i64) -> (tile: Option<TileType>)
        ensures
            tile == self.tile_at((x as int, y as int)),
    {
        proof {
            use_type_invariant(self);
        }
        if 0 <= x && x <= i32::MAX as i64 && 0 <= y && y <= i32::MAX as i64 {
            self.get((x as i32, y as i32))
        } else {
            None
        }
    }

    /// The tiles around `coord`: to the right, above, to the left and below,
    /// in that order. There are fewer than four where `coord` lies on an
    /// edge or outside the grid.
    pub fn get_neighbors(&self, coord: (i32, i32)) -> (neighbors: Vec<TileType>)
        ensures
            neighbors@ == neighbors_of(self@, (coord.0 as int, coord.1 as int)),
    {
        let x = coord.0 as i64;
        let y = coord.1 as i64;
        let mut neighbors = Vec::new();
        push_present(&mut neighbors, self.peek(x + 1, y));
        push_present(&mut neighbors, self.peek(x, y + 1));
        push_present(&mut neighbors, self.peek(x - 1, y));
        push_present(&mut neighbors, self.peek(x, y - 1));
        neighbors
    }

    /// Puts `tile` at `coord` and returns it, or returns `None` and leaves
    /// the grid as it is where it does not cover `coord`.
    pub fn set(&mut self, coord: (i32, i32), tile: TileType) -> (placed: Option<TileType>)
        ensures
            placed == if old(self)@.dom().contains((coord.0 as int, coord.1 as int)) {
                Some(tile)
            } else {
                None
            },
            final(self).is_update_of(old(self), (coord.0 as int, coord.1 as int), tile),
    {
        if self.is_within(coord) {
            let ghost c = (coord.0 as int, coord.1 as int);
            proof {
                use_type_invariant(&*self);
                lemma_index_of(c, c, self.width as int, self.height as int);
            }
            let index = coord_to_index(coord, self.width);
            self.tiles[index] = tile;
            proof {
                assert forall|d: (int, int)| old(self)@.dom().contains(d) && d != c implies (
                #[trigger] self@[d]) == old(self)@[d] by {
                    lemma_index_of(d, c, self.width as int, self.height as int);
                }
                assert(self@ =~= old(self)@.insert(c, tile));
                assert forall|kind: TileType| #![auto] self.count(kind) + (if old(self).tile_at(c)
                    == Some(kind) {
                    1nat
                } else {
                    0nat
                }) == old(self).count(kind) + (if tile == kind {
                    1nat
                } else {
                    0nat
                }) by {
                    lemma_tally_update(old(self).tiles@, index as int, tile, kind);
                }
            }
            Some(tile)
        } else {
            None
        }
    }
}

/// The four directions, in the order in which the generator tries them.
pub open spec fn compass() -> Seq<Direction> {
    seq![Direction::Up, Direction::Down, Direction::Right, Direction::Left]
}

/// The coordinate one step from `coord` in direction `dir`.
pub open spec fn moved(coord: (int, int), dir: Direction) -> (int, int) {
    (coord.0 + delta(dir).0, coord.1 + delta(dir).1)
}

/// The cells visited when walking `steps` from `start`, the start included.
pub open spec fn trace(start: (int, int), steps: Seq<Direction>) -> Seq<(int, int)>
    decreases steps.len(),
{
    if steps.len() == 0 {
        seq![start]
    } else {
        let before = trace(start, steps.drop_last());
        before.push(moved(before.last(), steps.last()))
    }
}

/// Whether two cells share an edge.
pub open spec fn adjacent(a: (int, int), b: (int, int)) -> bool {
    ||| a.0 == b.0 && (a.1 == b.1 + 1 || a.1 == b.1 - 1)
    ||| a.1 == b.1 && (a.0 == b.0 + 1 || a.0 == b.0 - 1)
}

/// Whether `grid` holds a rock at `coord`.
pub open spec fn is_rock(grid: Map<(int, int), TileType>, coord: (int, int)) -> bool {
    tile_in(grid, coord) == Some(TileType::Rock)
}

/// How many of the tiles around `coord` are rock.
pub open spec fn rock_neighbors(grid: Map<(int, int), TileType>, coord: (int, int)) -> nat {
    tally(neighbors_of(grid, coord), TileType::Rock)
}

/// Whether the path may grow onto `coord`: the grid covers the cell, the
/// cell is not rock yet, and at most one of the tiles around it is rock.
pub open spec fn can_enter(grid: Map<(int, int), TileType>, coord: (int, int)) -> bool {
    &&& grid.dom().contains(coord)
    &&& grid[coord] != TileType::Rock
    &&& rock_neighbors(grid, coord) <= 1
}

/// The test of `can_enter` on the cell one step from `cursor`, as a
/// predicate on the direction of the step.
pub open spec fn enterable_from(grid: Map<(int, int), TileType>, cursor: (int, int)) -> spec_fn(
    Direction,
) -> bool {
    |dir: Direction| can_enter(grid, moved(cursor, dir))
}

/// The directions in which the path may grow from `cursor`, in compass order.
pub open spec fn open_directions(grid: Map<(int, int), TileType>, cursor: (int, int)) -> Seq<
    Direction,
> {
    compass().filter(enterable_from(grid, cursor))
}

/// Whether `cells` is a corridor carved into `grid`: every cell of it is
/// rock, every rock of the grid is a cell of it, no cell occurs twice, and
/// only cells that follow one another share an edge.
pub open spec fn is_corridor(grid: Map<(int, int), TileType>, cells: Seq<(int, int)>) -> bool {
    &&& cells.len() > 0
    &&& forall|k: int| 0 <= k < cells.len() ==> is_rock(grid, #[trigger] cells[k])
    &&& forall|c: (int, int)| #[trigger] is_rock(grid, c) ==> cells.contains(c)
    &&& forall|i: int, j: int| 0 <= i < j < cells.len() ==> cells[i] != cells[j]
    &&& forall|i: int, j: int|
        0 <= i && i + 1 < j < cells.len() ==> !adjacent(#[trigger] cells[i], #[trigger] cells[j])
}

/// An enemy path: where it starts and the steps it takes from there.
pub struct EnemyPath {
    pub starting_coord: (i32, i32),
    pub path: Vec<Direction>,
}

impl View for EnemyPath {
    type V = Seq<(int, int)>;

    /// The cells of the path in the order in which it visits them.
    open spec fn view(&self) -> Seq<(int, int)> {
        trace((self.starting_coord.0 as int, self.starting_coord.1 as int), self.path@)
    }
}

/// A walk visits one cell more than it takes steps, begins at its start, and
/// goes from each cell to the next by the step recorded for it.
pub proof fn lemma_trace(start: (int, int), steps: Seq<Direction>)
    ensures
        trace(start, steps).len() == steps.len() + 1,
        trace(start, steps)[0] == start,
        forall|k: int|
            0 <= k < steps.len() ==> #[trigger] trace(start, steps)[k + 1] == moved(
                trace(start, steps)[k],
                steps[k],
            ),
        forall|k: int|
            0 <= k < steps.len() ==> adjacent(
                trace(start, steps)[k],
                #[trigger] trace(start, steps)[k + 1],
            ),
    decreases steps.len(),
{
    if steps.len() > 0 {
        lemma_trace(start, steps.drop_last());
        let before = trace(start, steps.drop_last());
        let all = trace(start, steps);
        assert forall|k: int| 0 <= k < steps.len() implies #[trigger] all[k + 1] == moved(
            all[k],
            steps[k],
        ) by {
            if k < steps.len() - 1 {
                assert(before[k + 1] == moved(before[k], steps.drop_last()[k]));
            }
        }
    }
}

/// The rock count around a cell is the number of its four neighbours that
/// the grid holds as rock.
pub proof fn lemma_rock_neighbors(grid: Map<(int, int), TileType>, coord: (int, int))
    ensures
        rock_neighbors(grid, coord) == (if is_rock(grid, (coord.0 + 1, coord.1)) {
            1nat
        } else {
            0nat
        }) + (if is_rock(grid, (coord.0, coord.1 + 1)) {
            1nat
        } else {
            0nat
        }) + (if is_rock(grid, (coord.0 - 1, coord.1)) {
            1nat
        } else {
            0nat
        }) + (if is_rock(grid, (coord.0, coord.1 - 1)) {
            1nat
        } else {
            0nat
        }),
{
    let right = present(tile_in(grid, (coord.0 + 1, coord.1)));
    let above = present(tile_in(grid, (coord.0, coord.1 + 1)));
    let left = present(tile_in(grid, (coord.0 - 1, coord.1)));
    let below = present(tile_in(grid, (coord.0, coord.1 - 1)));
    lemma_tally_present(tile_in(grid, (coord.0 + 1, coord.1)));
    lemma_tally_present(tile_in(grid, (coord.0, coord.1 + 1)));
    lemma_tally_present(tile_in(grid, (coord.0 - 1, coord.1)));
    lemma_tally_present(tile_in(grid, (coord.0, coord.1 - 1)));
    lemma_tally_add(right, above, TileType::Rock);
    lemma_tally_add(right + above, left, TileType::Rock);
    lemma_tally_add(right + above + left, below, TileType::Rock);
}

/// An optional tile counts as one rock exactly if it is a rock.
pub proof fn lemma_tally_present(tile: Option<TileType>)
    ensures
        tally(present(tile), TileType::Rock) == if tile == Some(TileType::Rock) {
            1nat
        } else {
            0nat
        },
{
    reveal_with_fuel(tally, 2);
    if let Some(t) = tile {
        assert(seq![t].drop_last() =~= Seq::<TileType>::empty());
        assert(seq![t].last() == t);
    }
}

/// A direction is open from `cursor` exactly if the path may enter the cell
/// one step that way.
pub proof fn lemma_open_directions(grid: Map<(int, int), TileType>, cursor: (int, int))
    ensures
        forall|dir: Direction|
            #![auto]
            open_directions(grid, cursor).contains(dir) <==> can_enter(grid, moved(cursor, dir)),
{
    let open = enterable_from(grid, cursor);
    let found = open_directions(grid, cursor);
    assert forall|dir: Direction| #![auto] found.contains(dir) <==> can_enter(
        grid,
        moved(cursor, dir),
    ) by {
        if can_enter(grid, moved(cursor, dir)) {
            assert(open(dir));
            let at = match dir {
                Direction::Up => 0int,
                Direction::Down => 1int,
                Direction::Right => 2int,
                Direction::Left => 3int,
            };
            assert(compass()[at] == dir);
            compass().lemma_filter_contains(open, at);
        }
        if found.contains(dir) {
            let at = choose|at: int| 0 <= at < found.len() && found[at] == dir;
            compass().lemma_filter_pred(open, at);
        }
    }
}

/// Growing a corridor by one cell that the path may enter, next to its last
/// cell, gives a corridor again.
pub proof fn lemma_extend_corridor(
    grid: Map<(int, int), TileType>,
    cells: Seq<(int, int)>,
    next: (int, int),
)
    requires
        is_corridor(grid, cells),
        adjacent(cells.last(), next),
        can_enter(grid, next),
    ensures
        is_corridor(grid.insert(next, TileType::Rock), cells.push(next)),
{
    let grown = grid.insert(next, TileType::Rock);
    let longer = cells.push(next);
    let end = cells.len() - 1;
    lemma_rock_neighbors(grid, next);
    assert(is_rock(grid, cells[end]));
    assert forall|k: int| 0 <= k < longer.len() implies is_rock(grown, #[trigger] longer[k]) by {
        if k < cells.len() {
            assert(is_rock(grid, cells[k]));
        }
    }
    assert forall|c: (int, int)| #[trigger] is_rock(grown, c) implies longer.contains(c) by {
        if c == next {
            assert(longer[cells.len() as int] == c);
        } else {
            assert(is_rock(grid, c));
            let k = choose|k: int| 0 <= k < cells.len() && cells[k] == c;
            assert(longer[k] == c);
        }
    }
    assert forall|i: int, j: int| 0 <= i < j < longer.len() implies longer[i] != longer[j] by {
        assert(is_rock(grid, cells[i]));
    }
    assert forall|i: int, j: int| 0 <= i && i + 1 < j < longer.len() implies !adjacent(
        #[trigger] longer[i],
        #[trigger] longer[j],
    ) by {
        if j == cells.len() {
            assert(is_rock(grid, cells[i]));
            assert(cells[i] != cells[end]);
        } else {
            assert(!adjacent(cells[i], cells[j]));
        }
    }
}

/// The four directions, in the order in which the generator tries them.
pub fn all_directions() -> (all: Vec<Direction>)
    ensures
        all@ == compass(),
{
    let mut all = Vec::new();
    all.push(Direction::Up);
    all.push(Direction::Down);
    all.push(Direction::Right);
    all.push(Direction::Left);
    assert(all@ =~= compass());
    all
}

/// Whether `dir` is among `dirs`.
pub fn contains_direction(dirs: &Vec<Direction>, dir: Direction) -> (found: bool)
    ensures
        found == dirs@.contains(dir),
{
    let mut i: usize = 0;
    while i < dirs.len()
        invariant
            i <= dirs.len(),
            forall|k: int| 0 <= k < i ==> dirs@[k] != dir,
        decreases dirs.len() - i,
    {
        if dirs[i] == dir {
            return true;
        }
        i += 1;
    }
    false
}

/// How many of `tiles` are rock.
pub fn count_rock(tiles: &Vec<TileType>) -> (rocks: usize)
    ensures
        rocks == tally(tiles@, TileType::Rock),
{
    let mut rocks: usize = 0;
    let mut i: usize = 0;
    while i < tiles.len()
        invariant
            i <= tiles.len(),
            rocks == tally(tiles@.take(i as int), TileType::Rock),
            rocks <= i,
        decreases tiles.len() - i,
    {
        assert(tiles@.take(i + 1).drop_last() =~= tiles@.take(i as int));
        if tiles[i] == TileType::Rock {
            rocks += 1;
        }
        i += 1;
    }
    assert(tiles@.take(tiles.len() as int) =~= tiles@);
    rocks
}

/// Whether the path may grow from `cursor` one step in direction `dir`.
pub fn can_step(tile_map: &TileMap, cursor: (i32, i32), dir: Direction) -> (open: bool)
    ensures
        open == can_enter(tile_map@, moved((cursor.0 as int, cursor.1 as int), dir)),
{
    let offset = direction_to_coord(dir);
    let ghost target = moved((cursor.0 as int, cursor.1 as int), dir);
    match (cursor.0.checked_add(offset.0), cursor.1.checked_add(offset.1)) {
        (Some(x), Some(y)) => {
            let test_coord = (x, y);
            // Make sure we aren't overlapping a previous part of the path
            let is_not_rock = match tile_map.get(test_coord) {
                Some(tile) => tile != TileType::Rock,
                None => false,
            };
            // Make sure we aren't touching a previous part of the path
            let is_not_rock_adjacent = count_rock(&tile_map.get_neighbors(test_coord)) <= 1;
            is_not_rock && is_not_rock_adjacent
        },
        _ => {
            proof {
                use_type_invariant(tile_map);
                assert(!tile_map@.dom().contains(target));
            }
            false
        },
    }
}

/// The directions in which the path may grow from `cursor`, in compass order.
pub fn valid_directions(tile_map: &TileMap, cursor: (i32, i32)) -> (valid: Vec<Direction>)
    ensures
        valid@ == open_directions(tile_map@, (cursor.0 as int, cursor.1 as int)),
{
    let all = all_directions();
    let ghost open = enterable_from(tile_map@, (cursor.0 as int, cursor.1 as int));
    let mut valid = Vec::new();
    let mut i: usize = 0;
    proof {
        reveal(Seq::filter);
    }
    while i < all.len()
        invariant
            i <= all.len(),
            all@ == compass(),
            open == enterable_from(tile_map@, (cursor.0 as int, cursor.1 as int)),
            valid@ == all@.take(i as int).filter(open),
        decreases all.len() - i,
    {
        let dir = all[i];
        proof {
            reveal(Seq::filter);
            assert(all@.take(i + 1).drop_last() =~= all@.take(i as int));
        }
        if can_step(tile_map, cursor, dir) {
            valid.push(dir);
        }
        i += 1;
    }
    assert(all@.take(all.len() as int) =~= all@);
    valid
}

/// Moves `cursor_coord` one step in `direction`, records the step in `path`
/// and turns the cell that the cursor now stands on into rock, if the grid
/// covers it.
pub fn add_path_tile(
    direction: &Direction,
    cursor_coord: &mut (i32, i32),
    path: &mut Vec<Direction>,
    tile_map: &mut TileMap,
)
    requires
        i32::MIN <= old(cursor_coord).0 + delta(*direction).0 <= i32::MAX,
        i32::MIN <= old(cursor_coord).1 + delta(*direction).1 <= i32::MAX,
    ensures
        (final(cursor_coord).0 as int, final(cursor_coord).1 as int) == moved(
            (old(cursor_coord).0 as int, old(cursor_coord).1 as int),
            *direction,
        ),
        final(path)@ == old(path)@.push(*direction),
        final(tile_map).is_update_of(
            old(tile_map),
            moved((old(cursor_coord).0 as int, old(cursor_coord).1 as int), *direction),
            TileType::Rock,
        ),
{
    let movement_coord = direction_to_coord(*direction);
    *cursor_coord = ((*cursor_coord).0 + movement_coord.0, (*cursor_coord).1 + movement_coord.1);
    path.push(*direction);
    tile_map.set(*cursor_coord, TileType::Rock);
}

/// Whether `grid` and `path` are what a finished run of the generator
/// leaves: the path is a corridor carved into the grid and cannot grow from
/// its last cell.
pub open spec fn is_carved(grid: Map<(int, int), TileType>, cells: Seq<(int, int)>) -> bool {
    &&& is_corridor(grid, cells)
    &&& forall|dir: Direction| #![auto] !can_enter(grid, moved(cells.last(), dir))
}

/// Carves a random enemy path into a fresh `width` by `height` grid of grass.
///
/// The path starts on a random cell with a random heading. At each step it
/// keeps its heading, if the cell ahead can be entered, with the chance set
/// by `KEEP_HEADING_CHANCES`; otherwise it turns to a random direction among
/// those that can be entered. It ends where none can.
pub fn generate_map(width: i32, height: i32) -> (generated: (TileMap, EnemyPath))
    requires
        0 < width,
        0 < height,
        width * height <= i32::MAX,
    ensures
        generated.0.cols() == width,
        generated.0.rows() == height,
        is_carved(generated.0@, generated.1@),
        generated.1@.len() == generated.1.path@.len() + 1,
        generated.1.path@.len() < width * height,
        generated.0.count(TileType::Rock) == generated.1@.len(),
{
    let mut tile_map = TileMap::new(width, height, TileType::Grass);
    let mut path: Vec<Direction> = Vec::new();
    let starting_coord = (random_below(width), random_below(height));
    let mut cursor_coord = starting_coord;
    let all = all_directions();
    let mut current_direction = pick_one(&all).unwrap();
    let ghost start = (starting_coord.0 as int, starting_coord.1 as int);
    let ghost blank = tile_map@;
    // place first tile
    tile_map.set(cursor_coord, TileType::Rock);
    proof {
        assert(blank.dom().contains(start));
        assert forall|c: (int, int)| #[trigger] is_rock(tile_map@, c) implies seq![start].contains(
            c,
        ) by {
            assert(seq![start][0] == c);
        }
    }

    loop
        invariant
            0 < width,
            0 < height,
            width * height <= i32::MAX,
            tile_map.cols() == width,
            tile_map.rows() == height,
            start == (starting_coord.0 as int, starting_coord.1 as int),
            trace(start, path@).len() == path@.len() + 1,
            trace(start, path@).last() == (cursor_coord.0 as int, cursor_coord.1 as int),
            is_corridor(tile_map@, trace(start, path@)),
            tile_map.count(TileType::Rock) == path@.len() + 1,
            tile_map.count(TileType::Grass) + tile_map.count(TileType::Rock) == width * height,
        ensures
            is_carved(tile_map@, trace(start, path@)),
        decreases tile_map.count(TileType::Grass),
    {
        let ghost cursor = (cursor_coord.0 as int, cursor_coord.1 as int);
        let ghost cells = trace(start, path@);
        let ghost steps = path@;
        let ghost grid = tile_map@;
        // Filter out the directions we can't move in
        let valid_directions = valid_directions(&tile_map, cursor_coord);
        proof {
            lemma_open_directions(grid, cursor);
            assert(is_rock(grid, cells[cells.len() - 1]));
        }
        let can_move_forward = contains_direction(&valid_directions, current_direction);
        let roll = random_below(KEEP_HEADING_OUT_OF);
        if can_move_forward && roll < KEEP_HEADING_CHANCES {
            // Keep moving forward
        } else {
            // Pivot to a random (valid) direction
            match pick_one(&valid_directions) {
                Some(random_direction) => {
                    current_direction = random_direction;
                },
                None => {
                    // No more valid directions; end the path
                    proof {
                        assert forall|dir: Direction| #![auto] !can_enter(
                            grid,
                            moved(cells.last(), dir),
                        ) by {
                            if can_enter(grid, moved(cursor, dir)) {
                                assert(valid_directions@.contains(dir));
                            }
                        }
                    }
                    break ;
                },
            }
        }
        add_path_tile(&current_direction, &mut cursor_coord, &mut path, &mut tile_map);
        proof {
            let next = moved(cursor, current_direction);
            assert(can_enter(grid, next));
            assert(path@.drop_last() =~= steps);
            assert(trace(start, path@) == cells.push(next));
            lemma_extend_corridor(grid, cells, next);
        }
    }
    (tile_map, EnemyPath { starting_coord, path })
}

/// Why `build_map` returned no map.
#[derive(Copy, Clone, Debug, PartialEq, Eq, Structural)]
pub enum MapError {
    /// The grid has too few cells for any path of the length asked for.
    GridTooSmall,
    /// Every attempt allowed gave a path shorter than asked for.
    OutOfAttempts,
}

/// Whether the path takes at least `min_path_length` steps.
pub fn is_long_enough(enemy_path: &EnemyPath, min_path_length: usize) -> (long_enough: bool)
    ensures
        long_enough == (enemy_path.path@.len() >= min_path_length),
{
    enemy_path.path.len() >= min_path_length
}

/// Generates maps until one has a path of at least `min_path_length` steps,
/// and returns that one. Each attempt is a fresh run of `generate_map`.
///
/// A path visits no cell twice, so it takes fewer steps than the grid has
/// cells: where `min_path_length` asks for more, the answer is
/// `GridTooSmall` and nothing is generated. After `max_attempts` paths that
/// were too short the answer is `OutOfAttempts`.
pub fn build_map(width: i32, height: i32, min_path_length: usize, max_attempts: u32) -> (built:
    Result<(TileMap, EnemyPath), MapError>)
    requires
        0 < width,
        0 < height,
        width * height <= i32::MAX,
    ensures
        match built {
            Ok(map) => {
                &&& map.0.cols() == width
                &&& map.0.rows() == height
                &&& is_carved(map.0@, map.1@)
                &&& map.1.path@.len() >= min_path_length
                &&& map.1.path@.len() < width * height
            },
            Err(MapError::GridTooSmall) => min_path_length >= width * height,
            Err(MapError::OutOfAttempts) => min_path_length < width * height && (max_attempts == 0
                || min_path_length > 0),
        },
        min_path_length >= width * height ==> built == Err::<(TileMap, EnemyPath), MapError>(
            MapError::GridTooSmall,
        ),
        min_path_length == 0 && max_attempts > 0 ==> built.is_ok(),
        min_path_length < width * height && max_attempts == 0 ==> built == Err::<
            (TileMap, EnemyPath),
            MapError,
        >(MapError::OutOfAttempts),
{
    assert(0 < width * height) by (nonlinear_arith)
        requires
            0 < width,
            0 < height,
    ;
    if min_path_length >= (width * height) as usize {
        return Err(MapError::GridTooSmall);
    }
    let mut attempts: u32 = 0;
    while attempts < max_attempts
        invariant
            0 < width,
            0 < height,
            width * height <= i32::MAX,
            min_path_length < width * height,
            attempts <= max_attempts,
            attempts > 0 ==> min_path_length > 0,
        decreases max_attempts - attempts,
    {
        let generated = generate_map(width, height);
        if is_long_enough(&generated.1, min_path_length) {
            return Ok(generated);
        }
        attempts += 1;
    }
    Err(MapError::OutOfAttempts)
}

/// The direction that stands for a draw from `0..4`: `Up` for 0, `Down` for
/// 1, `Left` for 2 and `Right` for anything else.
pub fn direction_from_draw(draw: i32) -> (dir: Direction)
    ensures
        dir == if draw == 0 {
            Direction::Up
        } else if draw == 1 {
            Direction::Down
        } else if draw == 2 {
            Direction::Left
        } else {
            Direction::Right
        },
{
    match draw {
        0 => Direction::Up,
        1 => Direction::Down,
        2 => Direction::Left,
        _ => Direction::Right,
    }
}

} // verus!
