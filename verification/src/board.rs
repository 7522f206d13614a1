//! The 8x8 Othello board: cell states, scores, legal-move computation and
//! disc flipping.
//!
//! The board is a pure grid: it has no notion of turn order. A cell is
//! addressed by `(column, row)` with both in `0..8`, or by the linear index
//! `row * 8 + column`.

use vstd::prelude::*;
use vstd::arithmetic::div_mod::lemma_fundamental_div_mod_converse;

use crate::bits::{has_bit, lemma_empty_mask, lemma_or_masks, lemma_set_bit, lemma_zero_mask_iff};
use crate::codec::Move;
use crate::error::OthelloError;

verus! {

/// The column offset of compass direction `d`; directions are numbered 0..8.
pub open spec fn dir_dx(d: int) -> int {
    if d == 0 || d == 3 || d == 5 {
        -1
    } else if d == 1 || d == 6 {
        0
    } else {
        1
    }
}

/// The row offset of compass direction `d`.
pub open spec fn dir_dy(d: int) -> int {
    if d == 0 || d == 1 || d == 2 {
        -1
    } else if d == 3 || d == 4 {
        0
    } else {
        1
    }
}

/// The column reached after `j` steps from column `x` in direction `d`.
pub open spec fn ray_x(x: int, d: int, j: int) -> int
    decreases j,
{
    if j <= 0 {
        x
    } else {
        ray_x(x, d, j - 1) + dir_dx(d)
    }
}

/// The row reached after `j` steps from row `y` in direction `d`.
pub open spec fn ray_y(y: int, d: int, j: int) -> int
    decreases j,
{
    if j <= 0 {
        y
    } else {
        ray_y(y, d, j - 1) + dir_dy(d)
    }
}

/// The disc on the cell reached after `j` steps from `(x, y)` in direction `d`.
pub open spec fn ray_cell(b: Seq<Disc>, x: int, y: int, d: int, j: int) -> Disc {
    b[cell_index(ray_x(x, d, j), ray_y(y, d, j))]
}

/// Walking a ray is walking the one moving coordinate step by step.
proof fn lemma_ray_steps(x: int, y: int, d: int, j: int)
    requires
        0 <= j,
    ensures
        dir_dx(d) == 1 ==> ray_x(x, d, j) == x + j,
        dir_dx(d) == -1 ==> ray_x(x, d, j) == x - j,
        dir_dx(d) == 0 ==> ray_x(x, d, j) == x,
        dir_dy(d) == 1 ==> ray_y(y, d, j) == y + j,
        dir_dy(d) == -1 ==> ray_y(y, d, j) == y - j,
        dir_dy(d) == 0 ==> ray_y(y, d, j) == y,
    decreases j,
{
    if j > 0 {
        lemma_ray_steps(x, y, d, j - 1);
    }
}

/// A sandwich in direction `d` from `(x, y)`: a run of exactly `k` discs of
/// the opponent's colour, every one on the board, closed off by a disc of
/// `player`'s own colour with no empty gap.
pub open spec fn direction_sandwich(
    b: Seq<Disc>,
    player: Disc,
    x: int,
    y: int,
    d: int,
    k: int,
) -> bool {
    &&& 1 <= k
    &&& forall|j: int| 1 <= j <= k ==> in_board(#[trigger] ray_x(x, d, j), ray_y(y, d, j))
    &&& forall|j: int| 1 <= j <= k ==> #[trigger] ray_cell(b, x, y, d, j)
        == player.opposite_spec()
    &&& in_board(ray_x(x, d, k + 1), ray_y(y, d, k + 1))
    &&& ray_cell(b, x, y, d, k + 1) == player
}

/// A cell is a legal move for `player` exactly when it is an empty board
/// cell and some compass direction holds a sandwich.
pub open spec fn cell_is_legal(b: Seq<Disc>, player: Disc, x: int, y: int) -> bool {
    &&& in_board(x, y)
    &&& b[cell_index(x, y)] == Disc::Empty
    &&& exists|d: int, k: int| 0 <= d < 8 && #[trigger] direction_sandwich(b, player, x, y, d, k)
}

/// `player` has at least one legal move somewhere on the board.
pub open spec fn has_any_legal_move(b: Seq<Disc>, player: Disc) -> bool {
    exists|x: int, y: int| #[trigger] cell_is_legal(b, player, x, y)
}

/// The cell with linear index `i` lies strictly inside a sandwich of one of
/// the directions numbered below `dmax`.
pub open spec fn outflanked_upto(
    b: Seq<Disc>,
    player: Disc,
    x: int,
    y: int,
    dmax: int,
    i: int,
) -> bool {
    exists|d: int, k: int, j: int|
        #![trigger direction_sandwich(b, player, x, y, d, k), ray_x(x, d, j)]
        0 <= d < dmax && direction_sandwich(b, player, x, y, d, k) && 1 <= j <= k && i
            == cell_index(ray_x(x, d, j), ray_y(y, d, j))
}

/// The cell with linear index `i` is captured when `player` plays `(x, y)`:
/// it lies strictly between the played cell and a closing disc of `player`'s
/// colour in some direction, with no empty gap in between.
pub open spec fn cell_outflanked(b: Seq<Disc>, player: Disc, x: int, y: int, i: int) -> bool {
    outflanked_upto(b, player, x, y, 8, i)
}

/// A direction holds at most one sandwich: the run length is determined.
proof fn lemma_sandwich_unique(b: Seq<Disc>, player: Disc, x: int, y: int, d: int, k1: int, k2: int)
    requires
        player != Disc::Empty,
        direction_sandwich(b, player, x, y, d, k1),
        direction_sandwich(b, player, x, y, d, k2),
    ensures
        k1 == k2,
{
    if k1 < k2 {
        assert(ray_cell(b, x, y, d, k1 + 1) == player.opposite_spec());
        assert(false);
    }
    if k2 < k1 {
        assert(ray_cell(b, x, y, d, k2 + 1) == player.opposite_spec());
        assert(false);
    }
}

/// If a ray scan runs into an empty cell, the board edge, or a disc of the
/// player's own colour with no opposing disc before it, the direction holds
/// no sandwich at all.
proof fn lemma_ray_blocked(b: Seq<Disc>, player: Disc, x: int, y: int, d: int, s: int)
    requires
        player != Disc::Empty,
        1 <= s,
        forall|m: int| 1 <= m < s ==> in_board(#[trigger] ray_x(x, d, m), ray_y(y, d, m)),
        forall|m: int| 1 <= m < s ==> #[trigger] ray_cell(b, x, y, d, m)
            == player.opposite_spec(),
        !in_board(ray_x(x, d, s), ray_y(y, d, s)) || ray_cell(b, x, y, d, s) == Disc::Empty || (
        ray_cell(b, x, y, d, s) == player && s == 1),
    ensures
        forall|k: int| !direction_sandwich(b, player, x, y, d, k),
{
    assert forall|k: int| !direction_sandwich(b, player, x, y, d, k) by {
        if direction_sandwich(b, player, x, y, d, k) {
            if k + 1 < s {
                assert(ray_cell(b, x, y, d, k + 1) == player.opposite_spec());
                assert(false);
            } else if k + 1 == s {
                assert(in_board(ray_x(x, d, s), ray_y(y, d, s)));
                assert(ray_cell(b, x, y, d, s) == player);
                assert(false);
            } else {
                assert(in_board(ray_x(x, d, s), ray_y(y, d, s)));
                assert(ray_cell(b, x, y, d, s) == player.opposite_spec());
                assert(false);
            }
        }
    }
}

/// A mask that matches cell legality bit for bit is nonzero exactly when
/// the player has a legal move at all.
pub proof fn lemma_mask_nonzero_iff_any(mask: u64, b: Seq<Disc>, player: Disc)
    requires
        forall|i: u64|
            i < 64 ==> (#[trigger] has_bit(mask, i) <==> cell_is_legal(
                b,
                player,
                (i % 8) as int,
                (i / 8) as int,
            )),
    ensures
        (mask != 0) <==> has_any_legal_move(b, player),
{
    lemma_zero_mask_iff(mask);
    if mask != 0 {
        let i = choose|i: u64| i < 64 && has_bit(mask, i);
        assert(cell_is_legal(b, player, (i % 8) as int, (i / 8) as int));
    }
    if has_any_legal_move(b, player) {
        let (x, y) = choose|x: int, y: int| #[trigger] cell_is_legal(b, player, x, y);
        lemma_fundamental_div_mod_converse(8 * y + x, 8, y, x);
        let i = (8 * y + x) as u64;
        assert(has_bit(mask, i));
    }
}

/// The `(column, row)` offsets of compass direction `d`.
fn direction(d: u8) -> (r: (i8, i8))
    requires
        d < 8,
    ensures
        r.0 as int == dir_dx(d as int),
        r.1 as int == dir_dy(d as int),
{
    match d {
        0 => (-1, -1),
        1 => (0, -1),
        2 => (1, -1),
        3 => (-1, 0),
        4 => (1, 0),
        5 => (-1, 1),
        6 => (0, 1),
        _ => (1, 1),
    }
}

/// The bits of the cells reached after 1 to `k` steps from `(x, y)` in
/// direction `d`.
fn ray_bits(x: u8, y: u8, d: u8, k: u8) -> (r: u64)
    requires
        x < 8,
        y < 8,
        d < 8,
        1 <= k <= 7,
        forall|m: int|
            1 <= m <= k ==> in_board(
                #[trigger] ray_x(x as int, d as int, m),
                ray_y(y as int, d as int, m),
            ),
    ensures
        forall|i: u64|
            i < 64 ==> (#[trigger] has_bit(r, i) <==> exists|j: int|
                1 <= j <= k && i == cell_index(
                    #[trigger] ray_x(x as int, d as int, j),
                    ray_y(y as int, d as int, j),
                )),
{
    let (dx, dy) = direction(d);
    let mut bitfield: u64 = 0;
    proof {
        lemma_empty_mask();
    }
    let mut nx: i16 = x as i16 + dx as i16;
    let mut ny: i16 = y as i16 + dy as i16;
    proof {
        assert(ray_x(x as int, d as int, 0) == x as int);
        assert(ray_y(y as int, d as int, 0) == y as int);
        assert(ray_x(x as int, d as int, 1) == x as int + dir_dx(d as int));
        assert(ray_y(y as int, d as int, 1) == y as int + dir_dy(d as int));
    }
    let mut j: u8 = 1;
    while j <= k
        invariant
            x < 8,
            y < 8,
            d < 8,
            1 <= k <= 7,
            1 <= j <= k + 1,
            dx as int == dir_dx(d as int),
            dy as int == dir_dy(d as int),
            nx as int == ray_x(x as int, d as int, j as int),
            ny as int == ray_y(y as int, d as int, j as int),
            forall|m: int|
                1 <= m <= k ==> in_board(
                    #[trigger] ray_x(x as int, d as int, m),
                    ray_y(y as int, d as int, m),
                ),
            forall|i: u64|
                i < 64 ==> (#[trigger] has_bit(bitfield, i) <==> exists|m: int|
                    1 <= m < j && i == cell_index(
                        #[trigger] ray_x(x as int, d as int, m),
                        ray_y(y as int, d as int, m),
                    )),
        decreases k + 1 - j,
    {
        assert(in_board(nx as int, ny as int));
        let n_idx: u64 = (ny * 8 + nx) as u64;
        let ghost before = bitfield;
        proof {
            lemma_set_bit(bitfield, n_idx);
        }
        bitfield = bitfield | (1u64 << n_idx);
        proof {
            assert forall|i: u64|
                i < 64 implies (#[trigger] has_bit(bitfield, i) <==> exists|m: int|
                    1 <= m < j + 1 && i == cell_index(
                        #[trigger] ray_x(x as int, d as int, m),
                        ray_y(y as int, d as int, m),
                    )) by {
                if has_bit(bitfield, i) {
                    if i == n_idx {
                        assert(i == cell_index(
                            ray_x(x as int, d as int, j as int),
                            ray_y(y as int, d as int, j as int),
                        ));
                    } else {
                        assert(has_bit(before, i));
                    }
                } else {
                    assert(!has_bit(before, i));
                    assert forall|m: int|
                        1 <= m < j + 1 implies i != cell_index(
                            #[trigger] ray_x(x as int, d as int, m),
                            ray_y(y as int, d as int, m),
                        ) by {
                        if m < j {
                            assert(!(exists|mm: int|
                                1 <= mm < j && i == cell_index(
                                    #[trigger] ray_x(x as int, d as int, mm),
                                    ray_y(y as int, d as int, mm),
                                )));
                        } else {
                            assert(i != n_idx);
                        }
                    }
                }
            }
        }
        nx += dx as i16;
        ny += dy as i16;
        j += 1;
    }
    bitfield
}

/// The state of one board cell.
#[derive(Debug, Clone, Copy, PartialEq, Eq, Structural)]
pub enum Disc {
    White,
    Black,
    Empty,
}

impl Disc {
    /// The opponent's colour; `Empty` has no opponent and is left unchanged.
    pub open spec fn opposite_spec(self) -> Disc {
        match self {
            Disc::White => Disc::Black,
            Disc::Black => Disc::White,
            Disc::Empty => Disc::Empty,
        }
    }

    /// Toggle to the opponent's colour; a no-op on `Empty`.
    pub fn opposite(self) -> (r: Disc)
        ensures
            r == self.opposite_spec(),
    {
        match self {
            Disc::White => Disc::Black,
            Disc::Black => Disc::White,
            Disc::Empty => Disc::Empty,
        }
    }
}

/// The linear index of the cell at column `x`, row `y`.
pub open spec fn cell_index(x: int, y: int) -> int {
    y * 8 + x
}

/// Whether `(x, y)` is a coordinate pair on the board.
pub open spec fn in_board(x: int, y: int) -> bool {
    0 <= x < 8 && 0 <= y < 8
}

/// The starting layout: the centre four cells split diagonally between the
/// two colours, all other cells empty.
pub open spec fn initial_board() -> Seq<Disc> {
    Seq::new(
        64,
        |i: int|
            if i == 27 || i == 36 {
                Disc::White
            } else if i == 28 || i == 35 {
                Disc::Black
            } else {
                Disc::Empty
            },
    )
}

/// How many cells of `s` hold the disc `d`.
pub open spec fn count_discs(s: Seq<Disc>, d: Disc) -> int
    decreases s.len(),
{
    if s.len() == 0 {
        0
    } else {
        count_discs(s.drop_last(), d) + if s.last() == d {
            1int
        } else {
            0int
        }
    }
}

/// Every cell holds exactly one of the three states, so the three counts
/// always sum to the number of cells.
pub proof fn lemma_count_sum(s: Seq<Disc>)
    ensures
        count_discs(s, Disc::White) + count_discs(s, Disc::Black) + count_discs(s, Disc::Empty)
            == s.len(),
    decreases s.len(),
{
    if s.len() > 0 {
        lemma_count_sum(s.drop_last());
    }
}

/// Whether `c` names a cell state in board notation: `-` for an empty cell,
/// `O` for a white disc, `X` for a black one.
pub open spec fn is_notation_char(c: char) -> bool {
    c == '-' || c == 'O' || c == 'X'
}

/// The cell state a board-notation character names.
pub open spec fn notation_disc(c: char) -> Disc {
    if c == 'O' {
        Disc::White
    } else if c == 'X' {
        Disc::Black
    } else {
        Disc::Empty
    }
}

/// How `player` playing at `mov` changes a board: the played cell takes the
/// player's colour, and then so does every cell the move outflanks.
pub open spec fn apply_move_spec(b: Seq<Disc>, player: Disc, m: Move) -> Seq<Disc> {
    let placed = b.update(cell_index(m.col as int, m.row as int), player);
    Seq::new(
        placed.len(),
        |i: int|
            if cell_outflanked(placed, player, m.col as int, m.row as int, i) {
                player
            } else {
                placed[i]
            },
    )
}

pub struct Board {
    squares: Vec<Disc>,
}

impl View for Board {
    type V = Seq<Disc>;

    closed spec fn view(&self) -> Seq<Disc> {
        self.squares@
    }
}

impl Board {
    /// A board always holds exactly 64 cells.
    pub open spec fn wf(&self) -> bool {
        self@.len() == 64
    }

    /// Create a new board with the starting layout.
    pub fn new() -> (r: Board)
        ensures
            r.wf(),
            r@ == initial_board(),
    {
        let mut squares: Vec<Disc> = Vec::new();
        let mut i: usize = 0;
        while i < 64
            invariant
                i <= 64,
                squares@.len() == i,
                forall|j: int| 0 <= j < i ==> squares@[j] == Disc::Empty,
            decreases 64 - i,
        {
            squares.push(Disc::Empty);
            i += 1;
        }
        squares[27] = Disc::White;
        squares[28] = Disc::Black;
        squares[35] = Disc::Black;
        squares[36] = Disc::White;
        let board = Board { squares };
        proof {
            assert(board@ =~= initial_board());
        }
        board
    }

    /// Get the disc located at those column and row coordinates.
    pub fn get_disc(&self, pos: (u8, u8)) -> (r: Disc)
        requires
            self.wf(),
            pos.0 < 8,
            pos.1 < 8,
        ensures
            r == self@[cell_index(pos.0 as int, pos.1 as int)],
    {
        let idx: usize = pos.1 as usize * 8 + pos.0 as usize;
        self.squares[idx]
    }

    /// Change the disc at those coordinates; no legality check is made, that
    /// is the state machine's job.
    pub fn change_disc(&mut self, mov: Move, disc: Disc)
        requires
            old(self).wf(),
            mov.col < 8,
            mov.row < 8,
        ensures
            final(self).wf(),
            final(self)@ == old(self)@.update(
                cell_index(mov.col as int, mov.row as int),
                disc,
            ),
    {
        let idx: usize = mov.row as usize * 8 + mov.col as usize;
        self.squares[idx] = disc;
    }

    /// The scores of the current board: white's count first, black's second,
    /// and the number of empty cells third. The three always sum to 64.
    pub fn scores(&self) -> (r: (u8, u8, u8))
        requires
            self.wf(),
        ensures
            r.0 == count_discs(self@, Disc::White),
            r.1 == count_discs(self@, Disc::Black),
            r.2 == count_discs(self@, Disc::Empty),
            r.0 + r.1 + r.2 == 64,
    {
        let mut white: u8 = 0;
        let mut black: u8 = 0;
        let mut empty: u8 = 0;
        let mut i: usize = 0;
        while i < 64
            invariant
                self.wf(),
                i <= 64,
                white == count_discs(self@.subrange(0, i as int), Disc::White),
                black == count_discs(self@.subrange(0, i as int), Disc::Black),
                empty == count_discs(self@.subrange(0, i as int), Disc::Empty),
                white + black + empty == i,
            decreases 64 - i,
        {
            proof {
                let t = self@.subrange(0, i + 1);
                assert(t.drop_last() =~= self@.subrange(0, i as int));
                lemma_count_sum(self@.subrange(0, i as int));
            }
            match self.squares[i] {
                Disc::White => white += 1,
                Disc::Black => black += 1,
                Disc::Empty => empty += 1,
            }
            i += 1;
        }
        proof {
            assert(self@.subrange(0, 64) =~= self@);
        }
        (white, black, empty)
    }

    /// Scan outward from `(x, y)` in direction `d` and return the run length
    /// of the sandwich there, if the direction holds one.
    fn scan_run(&self, player: Disc, x: u8, y: u8, d: u8) -> (r: Option<u8>)
        requires
            self.wf(),
            player != Disc::Empty,
            x < 8,
            y < 8,
            d < 8,
        ensures
            match r {
                Some(k) => 1 <= k <= 7 && direction_sandwich(
                    self@,
                    player,
                    x as int,
                    y as int,
                    d as int,
                    k as int,
                ),
                None => forall|k: int|
                    !direction_sandwich(self@, player, x as int, y as int, d as int, k),
            },
    {
        let (dx, dy) = direction(d);
        let mut nx: i16 = x as i16 + dx as i16;
        let mut ny: i16 = y as i16 + dy as i16;
        proof {
            assert(ray_x(x as int, d as int, 0) == x as int);
            assert(ray_y(y as int, d as int, 0) == y as int);
            assert(ray_x(x as int, d as int, 1) == x as int + dir_dx(d as int));
            assert(ray_y(y as int, d as int, 1) == y as int + dir_dy(d as int));
        }
        let mut steps: u8 = 1;
        while 0 <= nx && nx < 8 && 0 <= ny && ny < 8
            invariant
                self.wf(),
                player != Disc::Empty,
                x < 8,
                y < 8,
                d < 8,
                1 <= steps <= 8,
                dx as int == dir_dx(d as int),
                dy as int == dir_dy(d as int),
                nx as int == ray_x(x as int, d as int, steps as int),
                ny as int == ray_y(y as int, d as int, steps as int),
                forall|m: int|
                    1 <= m < steps ==> in_board(
                        #[trigger] ray_x(x as int, d as int, m),
                        ray_y(y as int, d as int, m),
                    ),
                forall|m: int|
                    1 <= m < steps ==> #[trigger] ray_cell(self@, x as int, y as int, d as int, m)
                        == player.opposite_spec(),
            decreases 8 - steps,
        {
            proof {
                lemma_ray_steps(x as int, y as int, d as int, steps as int);
                assert(steps <= 7);
            }
            let n_idx: usize = (ny * 8 + nx) as usize;
            proof {
                assert(n_idx as int == cell_index(
                    ray_x(x as int, d as int, steps as int),
                    ray_y(y as int, d as int, steps as int),
                ));
            }
            let c = self.squares[n_idx];
            proof {
                assert(c == ray_cell(self@, x as int, y as int, d as int, steps as int));
            }
            if c == Disc::Empty {
                proof {
                    lemma_ray_blocked(
                        self@,
                        player,
                        x as int,
                        y as int,
                        d as int,
                        steps as int,
                    );
                }
                return None;
            }
            if c == player {
                if steps >= 2 {
                    let k = steps - 1;
                    proof {
                        assert(direction_sandwich(
                            self@,
                            player,
                            x as int,
                            y as int,
                            d as int,
                            k as int,
                        ));
                    }
                    return Some(k);
                } else {
                    proof {
                        lemma_ray_blocked(
                            self@,
                            player,
                            x as int,
                            y as int,
                            d as int,
                            steps as int,
                        );
                    }
                    return None;
                }
            }
            proof {
                assert(c == player.opposite_spec());
            }
            nx += dx as i16;
            ny += dy as i16;
            steps += 1;
        }
        proof {
            assert(!in_board(
                ray_x(x as int, d as int, steps as int),
                ray_y(y as int, d as int, steps as int),
            ));
            lemma_ray_blocked(self@, player, x as int, y as int, d as int, steps as int);
        }
        None
    }

    /// Whether the empty cell at `(x, y)` is a legal move for `player`.
    fn cell_legal(&self, player: Disc, x: u8, y: u8) -> (r: bool)
        requires
            self.wf(),
            player != Disc::Empty,
            x < 8,
            y < 8,
        ensures
            r == cell_is_legal(self@, player, x as int, y as int),
    {
        let idx: usize = y as usize * 8 + x as usize;
        proof {
            assert(idx as int == cell_index(x as int, y as int));
        }
        if self.squares[idx] != Disc::Empty {
            return false;
        }
        let mut d: u8 = 0;
        while d < 8
            invariant
                self.wf(),
                player != Disc::Empty,
                x < 8,
                y < 8,
                d <= 8,
                self@[cell_index(x as int, y as int)] == Disc::Empty,
                forall|dd: int, k: int|
                    0 <= dd < d ==> !#[trigger] direction_sandwich(
                        self@,
                        player,
                        x as int,
                        y as int,
                        dd,
                        k,
                    ),
            decreases 8 - d,
        {
            if let Some(k) = self.scan_run(player, x, y, d) {
                proof {
                    assert(direction_sandwich(
                        self@,
                        player,
                        x as int,
                        y as int,
                        d as int,
                        k as int,
                    ));
                }
                return true;
            }
            d += 1;
        }
        proof {
            assert forall|dd: int, k: int| 0 <= dd < 8 implies !#[trigger] direction_sandwich(
                self@,
                player,
                x as int,
                y as int,
                dd,
                k,
            ) by {}
        }
        false
    }

    /// Return the current legal moves for the `player` in a bitfield format.
    ///
    /// Bit `i` of the bitfield stands for the cell with linear index `i`:
    /// the first bit is index 0 and the last bit is index 63. Calling this
    /// with `Empty` is a precondition violation: it names no real player.
    pub fn legal_moves(&self, player: Disc) -> (r: u64)
        requires
            self.wf(),
            player != Disc::Empty,
        ensures
            forall|i: u64|
                i < 64 ==> (#[trigger] has_bit(r, i) <==> cell_is_legal(
                    self@,
                    player,
                    (i % 8) as int,
                    (i / 8) as int,
                )),
    {
        let mut bitfield: u64 = 0;
        proof {
            lemma_empty_mask();
        }
        let mut y: u8 = 0;
        while y < 8
            invariant
                self.wf(),
                player != Disc::Empty,
                y <= 8,
                forall|i: u64|
                    i < 8 * y ==> (#[trigger] has_bit(bitfield, i) <==> cell_is_legal(
                        self@,
                        player,
                        (i % 8) as int,
                        (i / 8) as int,
                    )),
                forall|i: u64| 8 * y <= i < 64 ==> !#[trigger] has_bit(bitfield, i),
            decreases 8 - y,
        {
            let mut x: u8 = 0;
            while x < 8
                invariant
                    self.wf(),
                    player != Disc::Empty,
                    y < 8,
                    x <= 8,
                    forall|i: u64|
                        i < 8 * y + x ==> (#[trigger] has_bit(bitfield, i) <==> cell_is_legal(
                            self@,
                            player,
                            (i % 8) as int,
                            (i / 8) as int,
                        )),
                    forall|i: u64| 8 * y + x <= i < 64 ==> !#[trigger] has_bit(bitfield, i),
                decreases 8 - x,
            {
                let idx: u64 = 8 * (y as u64) + (x as u64);
                proof {
                    lemma_fundamental_div_mod_converse(idx as int, 8, y as int, x as int);
                    assert((idx % 8) as int == x as int && (idx / 8) as int == y as int);
                }
                let legal = self.cell_legal(player, x, y);
                let ghost before = bitfield;
                if legal {
                    proof {
                        lemma_set_bit(before, idx);
                    }
                    bitfield = bitfield | (1u64 << idx);
                }
                proof {
                    assert forall|i: u64|
                        i < 8 * y + x + 1 implies (#[trigger] has_bit(bitfield, i)
                            <==> cell_is_legal(
                            self@,
                            player,
                            (i % 8) as int,
                            (i / 8) as int,
                        )) by {
                        if legal {
                            assert(has_bit(before | (1u64 << idx), i) == (i == idx || has_bit(
                                before,
                                i,
                            )));
                        }
                        if i == idx {
                            if legal {
                                assert(has_bit(bitfield, idx));
                            } else {
                                assert(!has_bit(bitfield, idx));
                            }
                        } else {
                            assert(has_bit(bitfield, i) == has_bit(before, i));
                        }
                    }
                    assert forall|i: u64|
                        8 * y + x + 1 <= i < 64 implies !#[trigger] has_bit(bitfield, i) by {
                        if legal {
                            assert(has_bit(before | (1u64 << idx), i) == (i == idx || has_bit(
                                before,
                                i,
                            )));
                        }
                        assert(!has_bit(before, i));
                    }
                }
                x += 1;
            }
            y += 1;
        }
        bitfield
    }

    /// Compute the discs that would be outflanked by `player` playing `mov`:
    /// the union, over the eight directions, of the opposing runs that the
    /// move sandwiches. Directions without a qualifying sandwich contribute
    /// nothing. Legality is not re-checked here; use [`Board::legal_moves`]
    /// for that.
    pub fn move_outflanks(&self, player: Disc, mov: Move) -> (r: u64)
        requires
            self.wf(),
            player != Disc::Empty,
            mov.col < 8,
            mov.row < 8,
        ensures
            forall|i: u64|
                i < 64 ==> (#[trigger] has_bit(r, i) <==> cell_outflanked(
                    self@,
                    player,
                    mov.col as int,
                    mov.row as int,
                    i as int,
                )),
    {
        let x = mov.col;
        let y = mov.row;
        let ghost xi = x as int;
        let ghost yi = y as int;
        let mut bitfield: u64 = 0;
        proof {
            lemma_empty_mask();
        }
        let mut d: u8 = 0;
        while d < 8
            invariant
                self.wf(),
                player != Disc::Empty,
                x < 8,
                y < 8,
                xi == x as int,
                yi == y as int,
                d <= 8,
                forall|i: u64|
                    i < 64 ==> (#[trigger] has_bit(bitfield, i) <==> outflanked_upto(
                        self@,
                        player,
                        xi,
                        yi,
                        d as int,
                        i as int,
                    )),
            decreases 8 - d,
        {
            let ghost before = bitfield;
            match self.scan_run(player, x, y, d) {
                Some(k) => {
                    let bits = ray_bits(x, y, d, k);
                    proof {
                        lemma_or_masks(bitfield, bits);
                    }
                    bitfield = bitfield | bits;
                    proof {
                        assert forall|i: u64|
                            i < 64 implies (#[trigger] has_bit(bitfield, i) <==> outflanked_upto(
                                self@,
                                player,
                                xi,
                                yi,
                                d as int + 1,
                                i as int,
                            )) by {
                            if has_bit(bitfield, i) {
                                if has_bit(before, i) {
                                    let (dd, kk, jj) = choose|dd: int, kk: int, jj: int|
                                        0 <= dd < d as int && #[trigger] direction_sandwich(
                                            self@,
                                            player,
                                            xi,
                                            yi,
                                            dd,
                                            kk,
                                        ) && 1 <= jj <= kk && i as int == cell_index(
                                            #[trigger] ray_x(xi, dd, jj),
                                            ray_y(yi, dd, jj),
                                        );
                                    assert(outflanked_upto(
                                        self@,
                                        player,
                                        xi,
                                        yi,
                                        d as int + 1,
                                        i as int,
                                    ));
                                } else {
                                    let jj = choose|jj: int|
                                        1 <= jj <= k as int && i as int == cell_index(
                                            #[trigger] ray_x(xi, d as int, jj),
                                            ray_y(yi, d as int, jj),
                                        );
                                    assert(direction_sandwich(
                                        self@,
                                        player,
                                        xi,
                                        yi,
                                        d as int,
                                        k as int,
                                    ));
                                    assert(outflanked_upto(
                                        self@,
                                        player,
                                        xi,
                                        yi,
                                        d as int + 1,
                                        i as int,
                                    ));
                                }
                            } else {
                                if outflanked_upto(self@, player, xi, yi, d as int + 1, i as int) {
                                    let (dd, kk, jj) = choose|dd: int, kk: int, jj: int|
                                        0 <= dd < d as int + 1 && #[trigger] direction_sandwich(
                                            self@,
                                            player,
                                            xi,
                                            yi,
                                            dd,
                                            kk,
                                        ) && 1 <= jj <= kk && i as int == cell_index(
                                            #[trigger] ray_x(xi, dd, jj),
                                            ray_y(yi, dd, jj),
                                        );
                                    if dd < d as int {
                                        assert(outflanked_upto(
                                            self@,
                                            player,
                                            xi,
                                            yi,
                                            d as int,
                                            i as int,
                                        ));
                                        assert(has_bit(before, i));
                                        assert(false);
                                    } else {
                                        lemma_sandwich_unique(
                                            self@,
                                            player,
                                            xi,
                                            yi,
                                            d as int,
                                            kk,
                                            k as int,
                                        );
                                        assert(has_bit(bits, i));
                                        assert(false);
                                    }
                                }
                            }
                        }
                    }
                }
                None => {
                    proof {
                        assert forall|i: u64|
                            i < 64 implies (#[trigger] has_bit(bitfield, i) <==> outflanked_upto(
                                self@,
                                player,
                                xi,
                                yi,
                                d as int + 1,
                                i as int,
                            )) by {
                            if !has_bit(bitfield, i) {
                                if outflanked_upto(self@, player, xi, yi, d as int + 1, i as int) {
                                    let (dd, kk, jj) = choose|dd: int, kk: int, jj: int|
                                        0 <= dd < d as int + 1 && #[trigger] direction_sandwich(
                                            self@,
                                            player,
                                            xi,
                                            yi,
                                            dd,
                                            kk,
                                        ) && 1 <= jj <= kk && i as int == cell_index(
                                            #[trigger] ray_x(xi, dd, jj),
                                            ray_y(yi, dd, jj),
                                        );
                                    if dd < d as int {
                                        assert(outflanked_upto(
                                            self@,
                                            player,
                                            xi,
                                            yi,
                                            d as int,
                                            i as int,
                                        ));
                                        assert(false);
                                    } else {
                                        assert(false);
                                    }
                                }
                            } else {
                                assert(outflanked_upto(self@, player, xi, yi, d as int, i as int));
                                let (dd, kk, jj) = choose|dd: int, kk: int, jj: int|
                                    0 <= dd < d as int && #[trigger] direction_sandwich(
                                        self@,
                                        player,
                                        xi,
                                        yi,
                                        dd,
                                        kk,
                                    ) && 1 <= jj <= kk && i as int == cell_index(
                                        #[trigger] ray_x(xi, dd, jj),
                                        ray_y(yi, dd, jj),
                                    );
                                assert(outflanked_upto(
                                    self@,
                                    player,
                                    xi,
                                    yi,
                                    d as int + 1,
                                    i as int,
                                ));
                            }
                        }
                    }
                }
            }
            d += 1;
        }
        proof {
            assert forall|i: u64|
                i < 64 implies (#[trigger] has_bit(bitfield, i) <==> cell_outflanked(
                    self@,
                    player,
                    xi,
                    yi,
                    i as int,
                )) by {}
        }
        bitfield
    }

    /// Construct a board from the 64-character notation common to Othello
    /// programs: dashes stand for empty cells, `X` for black discs and `O`
    /// for white discs, row-major with no separators. The loader does not
    /// check that the position is reachable by legal play.
    pub fn from_notation(s: &str) -> (r: Result<Board, OthelloError>)
        ensures
            match r {
                Ok(b) => {
                    &&& b.wf()
                    &&& s@.len() == 64
                    &&& forall|i: int| 0 <= i < 64 ==> is_notation_char(#[trigger] s@[i])
                    &&& forall|i: int| 0 <= i < 64 ==> b@[i] == notation_disc(#[trigger] s@[i])
                },
                Err(OthelloError::InvalidLenghtOfNotation) => s@.len() != 64,
                Err(OthelloError::InvalidCharInNotation { ch }) => {
                    &&& s@.len() == 64
                    &&& exists|i: int|
                        0 <= i < 64 && !is_notation_char(#[trigger] s@[i]) && ch == s@[i]
                            && (forall|j: int| 0 <= j < i ==> is_notation_char(#[trigger] s@[j]))
                },
                Err(_) => false,
            },
    {
        if s.unicode_len() != 64 {
            return Err(OthelloError::InvalidLenghtOfNotation);
        }
        let mut squares: Vec<Disc> = Vec::new();
        let mut i: usize = 0;
        while i < 64
            invariant
                s@.len() == 64,
                i <= 64,
                squares@.len() == i,
                forall|j: int| 0 <= j < i ==> is_notation_char(#[trigger] s@[j]),
                forall|j: int| 0 <= j < i ==> squares@[j] == notation_disc(#[trigger] s@[j]),
            decreases 64 - i,
        {
            let c = s.get_char(i);
            if c == '-' {
                squares.push(Disc::Empty);
            } else if c == 'O' {
                squares.push(Disc::White);
            } else if c == 'X' {
                squares.push(Disc::Black);
            } else {
                return Err(OthelloError::InvalidCharInNotation { ch: c });
            }
            i += 1;
        }
        Ok(Board { squares })
    }

    /// Put discs of `player`'s colour on every cell whose bit is set in the
    /// bitfield; every other cell is left as it was.
    pub fn put_discs(&mut self, bitfield: u64, player: Disc)
        requires
            old(self).wf(),
        ensures
            final(self).wf(),
            forall|i: int|
                0 <= i < 64 ==> final(self)@[i] == (if has_bit(bitfield, i as u64) {
                    player
                } else {
                    old(self)@[i]
                }),
    {
        let mut i: usize = 0;
        while i < 64
            invariant
                self.wf(),
                i <= 64,
                forall|j: int|
                    0 <= j < i ==> self@[j] == (if has_bit(bitfield, j as u64) {
                        player
                    } else {
                        old(self)@[j]
                    }),
                forall|j: int| i <= j < 64 ==> self@[j] == old(self)@[j],
            decreases 64 - i,
        {
            if (bitfield >> (i as u64)) & 1u64 == 1u64 {
                self.squares[i] = player;
            }
            i += 1;
        }
    }
}

/// Two in-board coordinate pairs with the same linear index are the same
/// cell.
proof fn lemma_cell_index_injective(x1: int, y1: int, x2: int, y2: int)
    requires
        in_board(x1, y1),
        in_board(x2, y2),
        cell_index(x1, y1) == cell_index(x2, y2),
    ensures
        x1 == x2 && y1 == y2,
{
}

/// A ray step never lands back on the cell it started from.
proof fn lemma_ray_avoids_origin(x: int, y: int, d: int, j: int)
    requires
        0 <= d < 8,
        1 <= j,
        in_board(x, y),
        in_board(ray_x(x, d, j), ray_y(y, d, j)),
    ensures
        cell_index(ray_x(x, d, j), ray_y(y, d, j)) != cell_index(x, y),
{
    lemma_ray_steps(x, y, d, j);
    if cell_index(ray_x(x, d, j), ray_y(y, d, j)) == cell_index(x, y) {
        lemma_cell_index_injective(ray_x(x, d, j), ray_y(y, d, j), x, y);
        assert(false);
    }
}

/// The outflank set of a move is the same whether it is computed before or
/// after the mover's own disc is placed: no ray from the played cell passes
/// through the played cell itself.
pub proof fn lemma_outflanks_ignore_played_cell(b: Seq<Disc>, player: Disc, m: Move, i: int)
    requires
        b.len() == 64,
        m.col < 8,
        m.row < 8,
    ensures
        cell_outflanked(
            b.update(cell_index(m.col as int, m.row as int), player),
            player,
            m.col as int,
            m.row as int,
            i,
        ) == cell_outflanked(b, player, m.col as int, m.row as int, i),
{
    let x = m.col as int;
    let y = m.row as int;
    let placed = b.update(cell_index(x, y), player);
    assert forall|d: int, k: int|
        0 <= d < 8 implies #[trigger] direction_sandwich(placed, player, x, y, d, k)
            == direction_sandwich(b, player, x, y, d, k) by {
        if direction_sandwich(placed, player, x, y, d, k) {
            assert forall|j: int| 1 <= j <= k implies #[trigger] ray_cell(b, x, y, d, j)
                == player.opposite_spec() by {
                lemma_ray_avoids_origin(x, y, d, j);
                assert(ray_cell(placed, x, y, d, j) == player.opposite_spec());
            }
            lemma_ray_avoids_origin(x, y, d, k + 1);
            assert(ray_cell(b, x, y, d, k + 1) == ray_cell(placed, x, y, d, k + 1));
            assert(direction_sandwich(b, player, x, y, d, k));
        }
        if direction_sandwich(b, player, x, y, d, k) {
            assert forall|j: int| 1 <= j <= k implies #[trigger] ray_cell(placed, x, y, d, j)
                == player.opposite_spec() by {
                lemma_ray_avoids_origin(x, y, d, j);
                assert(ray_cell(b, x, y, d, j) == player.opposite_spec());
            }
            lemma_ray_avoids_origin(x, y, d, k + 1);
            assert(ray_cell(placed, x, y, d, k + 1) == ray_cell(b, x, y, d, k + 1));
            assert(direction_sandwich(placed, player, x, y, d, k));
        }
    }
    if cell_outflanked(placed, player, x, y, i) {
        let (d, k, j) = choose|d: int, k: int, j: int|
            0 <= d < 8 && #[trigger] direction_sandwich(placed, player, x, y, d, k) && 1 <= j
                <= k && i == cell_index(#[trigger] ray_x(x, d, j), ray_y(y, d, j));
        assert(direction_sandwich(b, player, x, y, d, k));
        assert(cell_outflanked(b, player, x, y, i));
    }
    if cell_outflanked(b, player, x, y, i) {
        let (d, k, j) = choose|d: int, k: int, j: int|
            0 <= d < 8 && #[trigger] direction_sandwich(b, player, x, y, d, k) && 1 <= j <= k
                && i == cell_index(#[trigger] ray_x(x, d, j), ray_y(y, d, j));
        assert(direction_sandwich(placed, player, x, y, d, k));
        assert(cell_outflanked(placed, player, x, y, i));
    }
}

/// Applying a move changes exactly the played cell and the cells its
/// outflank set names: every flipped cell lies strictly between the played
/// cell and a closing disc of the mover's colour in some direction, with no
/// empty gap, and every other cell keeps the disc it had.
pub proof fn lemma_apply_move_frame(b: Seq<Disc>, player: Disc, m: Move, i: int)
    requires
        b.len() == 64,
        m.col < 8,
        m.row < 8,
        0 <= i < 64,
    ensures
        apply_move_spec(b, player, m)[i] == (if i == cell_index(m.col as int, m.row as int)
            || cell_outflanked(b, player, m.col as int, m.row as int, i) {
            player
        } else {
            b[i]
        }),
{
    lemma_outflanks_ignore_played_cell(b, player, m, i);
}

impl Default for Board {
    fn default() -> (r: Board)
        ensures
            r.wf(),
            r@ == initial_board(),
    {
        Board::new()
    }
}

impl core::str::FromStr for Board {
    type Err = OthelloError;

    /// [`Board::from_notation`], behind the standard parsing trait.
    fn from_str(s: &str) -> (r: Result<Board, OthelloError>) {
        Board::from_notation(s)
    }
}

} // verus!
