//! The two-level board state machine: `MicroBoard` is a single 3x3
//! tic-tac-toe grid with its own terminal status; `Board` owns the 3x3 grid
//! of `MicroBoard`s, the global status, and the forced-target constraint
//! carried from one move to the next.
//!
//! Both grids are stored flat, row-major: the cell (or sub-board) at row `r`,
//! column `c` lives at index `r * 3 + c` of a nine-element vector.

use vstd::prelude::*;

verus! {

/// The occupant of a cell: one of the two players, or nobody.
#[derive(Clone, Copy, Debug, PartialEq, Eq, Structural)]
pub enum Player {
    X,
    O,
    Empty,
}

/// Terminal classification of a board (either level): still being played,
/// won by a player, or drawn.
#[derive(Clone, Copy, Debug, PartialEq, Eq, Structural)]
pub enum BoardStatus {
    InProgress,
    Won(Player),
    Draw,
}

/// Why a `play` was rejected. Every failure is reported as an explicit
/// result; the engine never panics on a bad move.
#[derive(Clone, Copy, Debug, PartialEq, Eq, Structural)]
pub enum PlayError {
    /// The targeted cell already holds a mark (sub-board level).
    CellOccupied,
    /// The targeted sub-board has already reached a terminal status.
    AlreadyTerminal,
    /// The move violates the forced-target constraint, is out of range, or
    /// targets a terminal sub-board or an occupied cell (board level).
    IllegalMove,
    /// The whole game has already reached a terminal status.
    GameAlreadyOver,
}

/// A move: which sub-board is targeted, and which cell within it.
#[derive(Clone, Copy, Debug, PartialEq, Eq, Structural)]
pub struct Move {
    pub microboard_row: usize,
    pub microboard_col: usize,
    pub cell_row: usize,
    pub cell_col: usize,
}

impl Move {
    pub fn new(
        microboard_row: usize,
        microboard_col: usize,
        cell_row: usize,
        cell_col: usize,
    ) -> (r: Move)
        ensures
            r == (Move { microboard_row, microboard_col, cell_row, cell_col }),
    {
        Move { microboard_row, microboard_col, cell_row, cell_col }
    }

    pub fn get_microboard_position(&self) -> (r: (usize, usize))
        ensures
            r == (self.microboard_row, self.microboard_col),
    {
        (self.microboard_row, self.microboard_col)
    }

    pub fn get_cell_position(&self) -> (r: (usize, usize))
        ensures
            r == (self.cell_row, self.cell_col),
    {
        (self.cell_row, self.cell_col)
    }
}

/// Three equal markers on one of the 8 lines of a 3x3 grid (rows, columns,
/// diagonals). The same geometric test serves both levels: cells compared to
/// a player's mark, sub-board statuses compared to `Won(mark)`.
pub open spec fn line_matches<T>(s: Seq<T>, v: T, a: int, b: int, c: int) -> bool {
    s[a] == v && s[b] == v && s[c] == v
}

/// The marker `v` fills some complete line of the flat 3x3 grid `s`.
pub open spec fn grid_wins<T>(s: Seq<T>, v: T) -> bool {
    ||| line_matches(s, v, 0, 1, 2)
    ||| line_matches(s, v, 3, 4, 5)
    ||| line_matches(s, v, 6, 7, 8)
    ||| line_matches(s, v, 0, 3, 6)
    ||| line_matches(s, v, 1, 4, 7)
    ||| line_matches(s, v, 2, 5, 8)
    ||| line_matches(s, v, 0, 4, 8)
    ||| line_matches(s, v, 2, 4, 6)
}

/// Player `p` has completed a line of the sub-board cells `c`.
pub open spec fn micro_wins(c: Seq<Player>, p: Player) -> bool {
    p != Player::Empty && grid_wins(c, p)
}

/// Some player has completed a line of the sub-board cells `c`.
pub open spec fn micro_has_winner(c: Seq<Player>) -> bool {
    micro_wins(c, Player::X) || micro_wins(c, Player::O)
}

/// Every cell of the sub-board holds a mark.
pub open spec fn micro_full(c: Seq<Player>) -> bool {
    forall|k: int| 0 <= k < 9 ==> c[k] != Player::Empty
}

/// The status a sub-board reaches right after `p` placed a mark, given the
/// cells `c` as they stand after the placement.
pub open spec fn micro_status_after(c: Seq<Player>, p: Player) -> BoardStatus {
    if micro_wins(c, p) {
        BoardStatus::Won(p)
    } else if micro_full(c) {
        BoardStatus::Draw
    } else {
        BoardStatus::InProgress
    }
}

/// Well-formedness of a sub-board: nine cells, at most one winner, and the
/// stored status consistent with the cells. `InProgress` means no line is
/// complete and an empty cell remains; `Won(p)` means `p` completed a line;
/// `Draw` means the grid is full with no line complete.
pub open spec fn micro_wf(mb: MicroBoard) -> bool {
    &&& mb.cells_seq().len() == 9
    &&& !(micro_wins(mb.cells_seq(), Player::X) && micro_wins(mb.cells_seq(), Player::O))
    &&& match mb.spec_status() {
        BoardStatus::InProgress => !micro_has_winner(mb.cells_seq()) && !micro_full(
            mb.cells_seq(),
        ),
        BoardStatus::Won(p) => (p == Player::X || p == Player::O) && micro_wins(
            mb.cells_seq(),
            p,
        ),
        BoardStatus::Draw => !micro_has_winner(mb.cells_seq()) && micro_full(mb.cells_seq()),
    }
}

/// The empty cells of `c` as (row, column) pairs in row-major order,
/// starting from flat index `k`.
pub open spec fn micro_avail_from(c: Seq<Player>, k: int) -> Seq<(usize, usize)>
    decreases 9 - k,
{
    if k < 0 || k >= 9 {
        Seq::empty()
    } else {
        let rest = micro_avail_from(c, k + 1);
        if c[k] == Player::Empty {
            seq![(((k / 3) as usize), ((k % 3) as usize))] + rest
        } else {
            rest
        }
    }
}

/// All empty cells of `c` as (row, column) pairs, row-major.
pub open spec fn micro_avail(c: Seq<Player>) -> Seq<(usize, usize)> {
    micro_avail_from(c, 0)
}

/// Writing one marker cannot complete a line for a different marker: any
/// line complete after the write either avoids the written index (so it was
/// already complete) or contains it (so its marker is the written one).
proof fn lemma_update_no_new_win<T>(s: Seq<T>, i: int, v: T, q: T)
    requires
        s.len() == 9,
        0 <= i < 9,
        !grid_wins(s, q),
        v != q,
    ensures
        !grid_wins(s.update(i, v), q),
{
}

/// The row-major list of empty cells from index `k` on is empty exactly
/// when no cell from `k` on is empty.
proof fn lemma_micro_avail_from_empty(c: Seq<Player>, k: int)
    requires
        c.len() == 9,
        0 <= k <= 9,
    ensures
        micro_avail_from(c, k).len() == 0 <==> (forall|j: int|
            k <= j < 9 ==> c[j] != Player::Empty),
    decreases 9 - k,
{
    if k < 9 {
        lemma_micro_avail_from_empty(c, k + 1);
    }
}

/// One of the nine inner 3x3 tic-tac-toe grids, with its own terminal
/// status. Once the status leaves `InProgress` the cells never change again.
#[derive(Clone, Debug, PartialEq)]
pub struct MicroBoard {
    status: BoardStatus,
    cells: Vec<Player>,
}

impl MicroBoard {
    /// The nine cells, flat and row-major.
    pub closed spec fn cells_seq(self) -> Seq<Player> {
        self.cells@
    }

    /// The stored terminal status.
    pub closed spec fn spec_status(self) -> BoardStatus {
        self.status
    }

    pub fn new() -> (r: MicroBoard)
        ensures
            micro_wf(r),
            r.spec_status() == BoardStatus::InProgress,
            r.cells_seq().len() == 9,
            forall|k: int| 0 <= k < 9 ==> r.cells_seq()[k] == Player::Empty,
    {
        let mut cells: Vec<Player> = Vec::new();
        let mut k: usize = 0;
        while k < 9
            invariant
                k <= 9,
                cells@.len() == k,
                forall|i: int| 0 <= i < k ==> cells@[i] == Player::Empty,
            decreases 9 - k,
        {
            cells.push(Player::Empty);
            k = k + 1;
        }
        MicroBoard { status: BoardStatus::InProgress, cells }
    }

    pub fn get_status(&self) -> (r: &BoardStatus)
        ensures
            *r == self.spec_status(),
    {
        &self.status
    }

    pub fn get_cells(&self) -> (r: &Vec<Player>)
        ensures
            r@ == self.cells_seq(),
    {
        &self.cells
    }

    /// True iff some player has three equal marks on a row, column or
    /// diagonal of this sub-board.
    pub fn is_won(&self) -> (r: bool)
        requires
            self.cells_seq().len() == 9,
        ensures
            r == micro_has_winner(self.cells_seq()),
    {
        let c = &self.cells;
        // Rows
        if c[0] != Player::Empty && c[0] == c[1] && c[1] == c[2] {
            return true;
        }
        if c[3] != Player::Empty && c[3] == c[4] && c[4] == c[5] {
            return true;
        }
        if c[6] != Player::Empty && c[6] == c[7] && c[7] == c[8] {
            return true;
        }
        // Columns
        if c[0] != Player::Empty && c[0] == c[3] && c[3] == c[6] {
            return true;
        }
        if c[1] != Player::Empty && c[1] == c[4] && c[4] == c[7] {
            return true;
        }
        if c[2] != Player::Empty && c[2] == c[5] && c[5] == c[8] {
            return true;
        }
        // Diagonals
        if c[0] != Player::Empty && c[0] == c[4] && c[4] == c[8] {
            return true;
        }
        if c[2] != Player::Empty && c[2] == c[4] && c[4] == c[6] {
            return true;
        }
        false
    }

    /// All empty cells, as (row, column) pairs in row-major order; the
    /// empty sequence once this sub-board is terminal.
    pub fn get_available_moves(&self) -> (r: Vec<(usize, usize)>)
        requires
            self.cells_seq().len() == 9,
        ensures
            r@ == (if self.spec_status() is InProgress {
                micro_avail(self.cells_seq())
            } else {
                Seq::<(usize, usize)>::empty()
            }),
    {
        let mut moves: Vec<(usize, usize)> = Vec::new();
        if self.status != BoardStatus::InProgress {
            return moves;
        }
        let ghost c = self.cells_seq();
        let mut k: usize = 0;
        while k < 9
            invariant
                k <= 9,
                c == self.cells_seq(),
                c.len() == 9,
                micro_avail(c) == moves@ + micro_avail_from(c, k as int),
            decreases 9 - k,
        {
            if self.cells[k] == Player::Empty {
                moves.push((k / 3, k % 3));
                proof {
                    assert(moves@ + micro_avail_from(c, k + 1) =~= micro_avail(c));
                }
            } else {
                proof {
                    assert(micro_avail_from(c, k as int) == micro_avail_from(c, k + 1));
                }
            }
            k = k + 1;
        }
        proof {
            assert(moves@ + micro_avail_from(c, 9) =~= moves@);
        }
        moves
    }

    /// Place `player`'s mark at (`row`, `col`), then recompute the status:
    /// `Won(player)` if the placement completed a line, `Draw` if the grid is
    /// now full with no line, otherwise still `InProgress`. Rejects the
    /// placement, changing nothing, if this sub-board is already terminal or
    /// the cell is occupied.
    pub fn play(&mut self, row: usize, col: usize, player: Player) -> (r: Result<(), PlayError>)
        requires
            micro_wf(*old(self)),
            row < 3,
            col < 3,
            player == Player::X || player == Player::O,
        ensures
            micro_wf(*final(self)),
            match r {
                Ok(()) => {
                    &&& old(self).spec_status() is InProgress
                    &&& old(self).cells_seq()[row as int * 3 + col as int] == Player::Empty
                    &&& final(self).cells_seq() == old(self).cells_seq().update(
                        row as int * 3 + col as int,
                        player,
                    )
                    &&& final(self).spec_status() == micro_status_after(
                        final(self).cells_seq(),
                        player,
                    )
                },
                Err(PlayError::AlreadyTerminal) => old(self).spec_status() !is InProgress
                    && *final(self) == *old(self),
                Err(PlayError::CellOccupied) => old(self).spec_status() is InProgress && old(
                    self,
                ).cells_seq()[row as int * 3 + col as int] != Player::Empty && *final(self)
                    == *old(self),
                Err(_) => false,
            },
    {
        // Check if move is valid
        if self.status != BoardStatus::InProgress {
            return Err(PlayError::AlreadyTerminal);
        }
        let idx = row * 3 + col;
        if self.cells[idx] != Player::Empty {
            return Err(PlayError::CellOccupied);
        }

        // Play the move
        self.cells[idx] = player;

        proof {
            let c0 = old(self).cells_seq();
            if player == Player::X {
                lemma_update_no_new_win::<Player>(c0, idx as int, player, Player::O);
            } else {
                lemma_update_no_new_win::<Player>(c0, idx as int, player, Player::X);
            }
        }

        // Update status
        if self.is_won() {
            self.status = BoardStatus::Won(player);
        } else if self.get_available_moves().is_empty() {
            proof {
                lemma_micro_avail_from_empty(self.cells_seq(), 0);
            }
            self.status = BoardStatus::Draw;
        } else {
            proof {
                lemma_micro_avail_from_empty(self.cells_seq(), 0);
            }
        }

        Ok(())
    }
}

/// Writing one marker can complete a line for at most one of two distinct
/// markers: two new lines would both have to pass through the written index.
proof fn lemma_update_single_win<T>(s: Seq<T>, i: int, v: T, a: T, b: T)
    requires
        s.len() == 9,
        0 <= i < 9,
        !grid_wins(s, a),
        !grid_wins(s, b),
        a != b,
    ensures
        !(grid_wins(s.update(i, v), a) && grid_wins(s.update(i, v), b)),
{
    if v != a {
        lemma_update_no_new_win(s, i, v, a);
    } else {
        lemma_update_no_new_win(s, i, v, b);
    }
}

/// The outer 3x3 grid of sub-boards, the global status, and the move whose
/// cell coordinates constrain (force) the sub-board of the next move.
#[derive(Clone, Debug, PartialEq)]
pub struct Board {
    previous_move: Option<Move>,
    status: BoardStatus,
    cells: Vec<MicroBoard>,
}

impl Board {
    /// The nine sub-boards, flat and row-major.
    pub closed spec fn micros_seq(self) -> Seq<MicroBoard> {
        self.cells@
    }

    /// The stored global status.
    pub closed spec fn spec_status(self) -> BoardStatus {
        self.status
    }

    /// The last accepted move, if any; its cell coordinates name the
    /// forced-target candidate for the next move.
    pub closed spec fn spec_previous_move(self) -> Option<Move> {
        self.previous_move
    }
}

/// The nine sub-board statuses, flat and row-major.
pub open spec fn statuses(b: Board) -> Seq<BoardStatus> {
    Seq::new(9, |k: int| b.micros_seq()[k].spec_status())
}

/// The sub-board at row `i`, column `j`.
pub open spec fn micro_at(b: Board, i: int, j: int) -> MicroBoard {
    b.micros_seq()[i * 3 + j]
}

/// Player `p` owns three sub-boards in a line: the global win condition.
/// Only `Won(p)` sub-boards match; a drawn sub-board matches no player.
pub open spec fn super_wins(b: Board, p: Player) -> bool {
    (p == Player::X || p == Player::O) && grid_wins(statuses(b), BoardStatus::Won(p))
}

/// Some player owns three sub-boards in a line.
pub open spec fn super_has_winner(b: Board) -> bool {
    super_wins(b, Player::X) || super_wins(b, Player::O)
}

/// No sub-board is still in progress, so no legal move exists anywhere.
pub open spec fn all_micros_terminal(b: Board) -> bool {
    forall|k: int| 0 <= k < 9 ==> !((#[trigger] b.micros_seq()[k]).spec_status() is InProgress)
}

/// The sub-board the next move is constrained to, if any. The previous
/// move's cell coordinates name it, but when the named sub-board is already
/// terminal the constraint relaxes to a free choice.
pub open spec fn forced_target(b: Board) -> Option<(usize, usize)> {
    match b.spec_previous_move() {
        None => None,
        Some(m) => if micro_at(b, m.cell_row as int, m.cell_col as int).spec_status()
            is InProgress {
            Some((m.cell_row, m.cell_col))
        } else {
            None
        },
    }
}

/// A move may target the sub-board at (`i`, `j`): the game is still running,
/// the coordinates are in range, the forced-target constraint (if active)
/// names this sub-board, and this sub-board is still in progress.
pub open spec fn microboard_playable(b: Board, i: int, j: int) -> bool {
    &&& b.spec_status() is InProgress
    &&& 0 <= i < 3 && 0 <= j < 3
    &&& match forced_target(b) {
        Some(t) => i == t.0 && j == t.1,
        None => true,
    }
    &&& micro_at(b, i, j).spec_status() is InProgress
}

/// Full legality of a move: its sub-board may be targeted and its cell is in
/// range and empty. `play` succeeds on exactly these moves.
pub open spec fn move_legal(b: Board, m: Move) -> bool {
    &&& microboard_playable(b, m.microboard_row as int, m.microboard_col as int)
    &&& m.cell_row < 3 && m.cell_col < 3
    &&& micro_at(b, m.microboard_row as int, m.microboard_col as int).cells_seq()[m.cell_row
        as int * 3 + m.cell_col as int] == Player::Empty
}

/// One representative move (cell (0, 0)) per in-progress sub-board from flat
/// index `k` on, row-major.
pub open spec fn free_moves_from(b: Board, k: int) -> Seq<Move>
    decreases 9 - k,
{
    if k < 0 || k >= 9 {
        Seq::empty()
    } else {
        let rest = free_moves_from(b, k + 1);
        if b.micros_seq()[k].spec_status() is InProgress {
            seq![
                Move {
                    microboard_row: ((k / 3) as usize),
                    microboard_col: ((k % 3) as usize),
                    cell_row: 0,
                    cell_col: 0,
                },
            ] + rest
        } else {
            rest
        }
    }
}

/// What `get_available_moves` returns: nothing once the game is over; the
/// single forced sub-board while the constraint is active; otherwise one
/// representative move per in-progress sub-board. Cell coordinates in the
/// result are the placeholder (0, 0): the result names the sub-boards that
/// may be targeted.
pub open spec fn board_avail(b: Board) -> Seq<Move> {
    if !(b.spec_status() is InProgress) {
        Seq::empty()
    } else {
        match forced_target(b) {
            Some(t) => seq![
                Move { microboard_row: t.0, microboard_col: t.1, cell_row: 0, cell_col: 0 },
            ],
            None => free_moves_from(b, 0),
        }
    }
}

/// Structural well-formedness of the grid itself: nine well-formed
/// sub-boards, a previous move (if any) with in-range coordinates, and at
/// most one global winner. Holds also in the middle of `play`, before the
/// global status has been recomputed.
pub open spec fn board_base_wf(b: Board) -> bool {
    &&& b.micros_seq().len() == 9
    &&& forall|k: int| 0 <= k < 9 ==> micro_wf(#[trigger] b.micros_seq()[k])
    &&& match b.spec_previous_move() {
        Some(m) => m.microboard_row < 3 && m.microboard_col < 3 && m.cell_row < 3 && m.cell_col
            < 3,
        None => true,
    }
    &&& !(super_wins(b, Player::X) && super_wins(b, Player::O))
}

/// A global status value consistent with the grid: `InProgress` means no
/// global line and some sub-board still open; `Won(p)` means `p` owns a
/// line of sub-boards; `Draw` means no global line and no open sub-board.
pub open spec fn status_consistent(b: Board, st: BoardStatus) -> bool {
    match st {
        BoardStatus::InProgress => !super_has_winner(b) && !all_micros_terminal(b),
        BoardStatus::Won(p) => (p == Player::X || p == Player::O) && super_wins(b, p),
        BoardStatus::Draw => !super_has_winner(b) && all_micros_terminal(b),
    }
}

/// Full well-formedness: the grid is well formed and the stored global
/// status is consistent with it. Every public operation preserves this.
pub open spec fn board_wf(b: Board) -> bool {
    board_base_wf(b) && status_consistent(b, b.spec_status())
}

/// The global status a board settles into right after a move has been
/// applied to its grid: a global line wins for its owner, else a board with
/// no open sub-board is drawn, else the game goes on. Reads the grid only,
/// never the stored status.
pub open spec fn post_move_status(b: Board) -> BoardStatus {
    if super_wins(b, Player::X) {
        BoardStatus::Won(Player::X)
    } else if super_wins(b, Player::O) {
        BoardStatus::Won(Player::O)
    } else if all_micros_terminal(b) {
        BoardStatus::Draw
    } else {
        BoardStatus::InProgress
    }
}

/// The list of representative free moves from index `k` on is empty exactly
/// when no sub-board from `k` on is still in progress.
proof fn lemma_free_moves_from_empty(b: Board, k: int)
    requires
        b.micros_seq().len() == 9,
        0 <= k <= 9,
    ensures
        free_moves_from(b, k).len() == 0 <==> (forall|j: int|
            k <= j < 9 ==> !((#[trigger] b.micros_seq()[j]).spec_status() is InProgress)),
    decreases 9 - k,
{
    if k < 9 {
        lemma_free_moves_from_empty(b, k + 1);
    }
}

impl Board {
    pub fn new() -> (r: Board)
        ensures
            board_wf(r),
            r.spec_status() == BoardStatus::InProgress,
            r.spec_previous_move() is None,
            r.micros_seq().len() == 9,
            forall|k: int|
                0 <= k < 9 ==> (#[trigger] r.micros_seq()[k]).spec_status()
                    == BoardStatus::InProgress,
            forall|k: int, i: int|
                0 <= k < 9 && 0 <= i < 9 ==> #[trigger] r.micros_seq()[k].cells_seq()[i]
                    == Player::Empty,
    {
        let mut cells: Vec<MicroBoard> = Vec::new();
        let mut k: usize = 0;
        while k < 9
            invariant
                k <= 9,
                cells@.len() == k,
                forall|i: int| 0 <= i < k ==> micro_wf(#[trigger] cells@[i]),
                forall|i: int|
                    0 <= i < k ==> (#[trigger] cells@[i]).spec_status()
                        == BoardStatus::InProgress,
                forall|i: int, j: int|
                    0 <= i < k && 0 <= j < 9 ==> #[trigger] cells@[i].cells_seq()[j]
                        == Player::Empty,
            decreases 9 - k,
        {
            cells.push(MicroBoard::new());
            k = k + 1;
        }
        let r = Board { previous_move: None, status: BoardStatus::InProgress, cells };
        proof {
            // Witness that some sub-board is still in progress
            assert(statuses(r)[0] == BoardStatus::InProgress);
        }
        r
    }

    pub fn get_status(&self) -> (r: &BoardStatus)
        ensures
            *r == self.spec_status(),
    {
        &self.status
    }

    pub fn get_cells(&self) -> (r: &Vec<MicroBoard>)
        ensures
            r@ == self.micros_seq(),
    {
        &self.cells
    }

    /// Overwrite the global status. The caller must supply a status that is
    /// consistent with the grid, so well-formedness is preserved.
    pub fn set_status(&mut self, status: BoardStatus)
        requires
            board_base_wf(*old(self)),
            status_consistent(*old(self), status),
        ensures
            board_wf(*final(self)),
            final(self).micros_seq() == old(self).micros_seq(),
            final(self).spec_previous_move() == old(self).spec_previous_move(),
            final(self).spec_status() == status,
    {
        self.status = status;
        proof {
            assert(statuses(*self) =~= statuses(*old(self)));
        }
    }

    /// The winner of one line of sub-boards, if its three statuses are the
    /// same `Won(p)`. Drawn or in-progress sub-boards match no player.
    fn line_winner(&self, a: usize, b: usize, c: usize) -> (r: Option<Player>)
        requires
            self.micros_seq().len() == 9,
            forall|k: int| 0 <= k < 9 ==> micro_wf(#[trigger] self.micros_seq()[k]),
            a < 9,
            b < 9,
            c < 9,
        ensures
            match r {
                Some(p) => (p == Player::X || p == Player::O) && line_matches(
                    statuses(*self),
                    BoardStatus::Won(p),
                    a as int,
                    b as int,
                    c as int,
                ),
                None => forall|p: Player|
                    !line_matches(statuses(*self), BoardStatus::Won(p), a as int, b as int, c as int),
            },
    {
        let sa = *self.cells[a].get_status();
        let sb = *self.cells[b].get_status();
        let sc = *self.cells[c].get_status();
        if let BoardStatus::Won(p) = sa {
            if sb == sa && sc == sa {
                return Some(p);
            }
        }
        None
    }

    /// The player owning three sub-boards in a row, column or diagonal, if
    /// any. Well-formedness guarantees there is at most one.
    fn winner(&self) -> (r: Option<Player>)
        requires
            self.micros_seq().len() == 9,
            forall|k: int| 0 <= k < 9 ==> micro_wf(#[trigger] self.micros_seq()[k]),
        ensures
            match r {
                Some(p) => super_wins(*self, p),
                None => !super_has_winner(*self),
            },
    {
        // Rows
        if let Some(p) = self.line_winner(0, 1, 2) {
            return Some(p);
        }
        if let Some(p) = self.line_winner(3, 4, 5) {
            return Some(p);
        }
        if let Some(p) = self.line_winner(6, 7, 8) {
            return Some(p);
        }
        // Columns
        if let Some(p) = self.line_winner(0, 3, 6) {
            return Some(p);
        }
        if let Some(p) = self.line_winner(1, 4, 7) {
            return Some(p);
        }
        if let Some(p) = self.line_winner(2, 5, 8) {
            return Some(p);
        }
        // Diagonals
        if let Some(p) = self.line_winner(0, 4, 8) {
            return Some(p);
        }
        if let Some(p) = self.line_winner(2, 4, 6) {
            return Some(p);
        }
        None
    }

    /// True iff some player owns three sub-boards in a line.
    pub fn is_won(&self) -> (r: bool)
        requires
            self.micros_seq().len() == 9,
            forall|k: int| 0 <= k < 9 ==> micro_wf(#[trigger] self.micros_seq()[k]),
        ensures
            r == super_has_winner(*self),
    {
        self.winner().is_some()
    }

    /// The sub-boards a move may target, one representative `Move` (with
    /// placeholder cell (0, 0)) per targetable sub-board: the empty list once
    /// the game is over, the single forced sub-board while that constraint
    /// is active, otherwise every in-progress sub-board in row-major order.
    pub fn get_available_moves(&self) -> (r: Vec<Move>)
        requires
            board_base_wf(*self),
        ensures
            r@ == board_avail(*self),
    {
        let mut moves: Vec<Move> = Vec::new();

        // Nothing is playable once the game is over
        if self.status != BoardStatus::InProgress {
            return moves;
        }

        // Check if restricted by the previous move
        if let Some(prev_move) = self.previous_move {
            let (cell_row, cell_col) = prev_move.get_cell_position();
            if *self.cells[cell_row * 3 + cell_col].get_status() == BoardStatus::InProgress {
                moves.push(Move::new(cell_row, cell_col, 0, 0));  // Cell positions are placeholders here
                proof {
                    assert(moves@ =~= board_avail(*self));
                }
                return moves;
            }
        }

        let mut k: usize = 0;
        while k < 9
            invariant
                k <= 9,
                board_base_wf(*self),
                free_moves_from(*self, 0) == moves@ + free_moves_from(*self, k as int),
            decreases 9 - k,
        {
            if *self.cells[k].get_status() == BoardStatus::InProgress {
                moves.push(Move::new(k / 3, k % 3, 0, 0));
                proof {
                    assert(moves@ + free_moves_from(*self, k + 1) =~= free_moves_from(*self, 0));
                }
            } else {
                proof {
                    assert(free_moves_from(*self, k as int) == free_moves_from(*self, k + 1));
                }
            }
            k = k + 1;
        }
        proof {
            assert(moves@ + free_moves_from(*self, 9) =~= moves@);
        }
        moves
    }

    /// True iff a move may target the sub-board at the given coordinates:
    /// the game is running, the coordinates are in range, the forced-target
    /// constraint (relaxed when its sub-board is terminal) allows them, and
    /// that sub-board is still in progress.
    pub fn is_valid_move(&self, microboard_row: usize, microboard_col: usize) -> (r: bool)
        requires
            board_base_wf(*self),
        ensures
            r == microboard_playable(*self, microboard_row as int, microboard_col as int),
    {
        // Check if the game is already over
        if self.status != BoardStatus::InProgress {
            return false;
        }
        if microboard_row >= 3 || microboard_col >= 3 {
            return false;
        }

        // Check if restricted by the previous move; a terminal forced target
        // relaxes the restriction to the whole board
        if let Some(prev_move) = self.previous_move {
            let (cell_row, cell_col) = prev_move.get_cell_position();
            if *self.cells[cell_row * 3 + cell_col].get_status() == BoardStatus::InProgress
                && !(microboard_row == cell_row && microboard_col == cell_col) {
                return false;
            }
        }

        // Check if the specified microboard is available
        *self.cells[microboard_row * 3 + microboard_col].get_status() == BoardStatus::InProgress
    }

    /// Full legality of a move: its sub-board may be targeted, and its cell
    /// coordinates are in range and name an empty cell.
    pub fn is_move_legal(&self, mv: Move) -> (r: bool)
        requires
            board_base_wf(*self),
        ensures
            r == move_legal(*self, mv),
    {
        if !self.is_valid_move(mv.microboard_row, mv.microboard_col) {
            return false;
        }
        if mv.cell_row >= 3 || mv.cell_col >= 3 {
            return false;
        }
        let mb = &self.cells[mv.microboard_row * 3 + mv.microboard_col];
        mb.cells[mv.cell_row * 3 + mv.cell_col] == Player::Empty
    }

    /// Recompute the global status from the grid: a line of sub-boards won
    /// by the same player makes that player the winner; otherwise, if no
    /// move is available anywhere, the game is drawn; otherwise the status
    /// is left as it stands. Returns the (possibly new) status.
    pub fn update_status(&mut self) -> (r: &BoardStatus)
        requires
            board_base_wf(*old(self)),
        ensures
            board_base_wf(*final(self)),
            final(self).micros_seq() == old(self).micros_seq(),
            final(self).spec_previous_move() == old(self).spec_previous_move(),
            final(self).spec_status() == (if super_wins(*old(self), Player::X) {
                BoardStatus::Won(Player::X)
            } else if super_wins(*old(self), Player::O) {
                BoardStatus::Won(Player::O)
            } else if board_avail(*old(self)).len() == 0 {
                BoardStatus::Draw
            } else {
                old(self).spec_status()
            }),
            *r == final(self).spec_status(),
            old(self).spec_status() is InProgress ==> board_wf(*final(self)),
    {
        let w = self.winner();
        match w {
            Some(p) => {
                self.status = BoardStatus::Won(p);
            },
            None => {
                if self.get_available_moves().is_empty() {
                    self.status = BoardStatus::Draw;
                }
            },
        }
        proof {
            assert(statuses(*self) =~= statuses(*old(self)));
            if old(self).spec_status() is InProgress && !super_has_winner(*old(self)) {
                match forced_target(*old(self)) {
                    Some(t) => {
                        assert(micro_at(*old(self), t.0 as int, t.1 as int).spec_status()
                            is InProgress);
                    },
                    None => {
                        lemma_free_moves_from_empty(*old(self), 0);
                    },
                }
            }
        }
        &self.status
    }

    /// Apply a move for `player`: reject it (changing nothing) when the
    /// game is over or the move is illegal; otherwise place the mark in the
    /// targeted sub-board, record the move as the forced-target candidate
    /// for the next turn, and recompute the global status.
    pub fn play(
        &mut self,
        microboard_row: usize,
        microboard_col: usize,
        cell_row: usize,
        cell_col: usize,
        player: Player,
    ) -> (r: Result<(), PlayError>)
        requires
            board_wf(*old(self)),
            player == Player::X || player == Player::O,
        ensures
            board_wf(*final(self)),
            ({
                let mv = Move { microboard_row, microboard_col, cell_row, cell_col };
                let idx = microboard_row as int * 3 + microboard_col as int;
                let cidx = cell_row as int * 3 + cell_col as int;
                match r {
                    Err(PlayError::GameAlreadyOver) => old(self).spec_status() !is InProgress
                        && *final(self) == *old(self),
                    Err(PlayError::IllegalMove) => old(self).spec_status() is InProgress
                        && !move_legal(*old(self), mv) && *final(self) == *old(self),
                    Ok(()) => {
                        &&& move_legal(*old(self), mv)
                        &&& final(self).spec_previous_move() == Some(mv)
                        &&& final(self).micros_seq().len() == 9
                        &&& forall|k: int|
                            0 <= k < 9 && k != idx ==> final(self).micros_seq()[k] == old(
                                self,
                            ).micros_seq()[k]
                        &&& final(self).micros_seq()[idx].cells_seq() == old(
                            self,
                        ).micros_seq()[idx].cells_seq().update(cidx, player)
                        &&& final(self).micros_seq()[idx].spec_status() == micro_status_after(
                            final(self).micros_seq()[idx].cells_seq(),
                            player,
                        )
                        &&& final(self).spec_status() == post_move_status(*final(self))
                    },
                    Err(_) => false,
                }
            }),
    {
        // Check if the game is already over
        if self.status != BoardStatus::InProgress {
            return Err(PlayError::GameAlreadyOver);
        }
        // Check if the move is legal; this subsumes the forced-target
        // constraint, coordinate ranges, sub-board availability and cell
        // occupancy
        let mv = Move::new(microboard_row, microboard_col, cell_row, cell_col);
        if !self.is_move_legal(mv) {
            return Err(PlayError::IllegalMove);
        }

        // Play the move on the specified microboard
        let idx = microboard_row * 3 + microboard_col;
        let mb = &mut self.cells[idx];
        let res = mb.play(cell_row, cell_col, player);
        if res.is_err() {
            // Unreachable: the legality check covers every failure of the
            // sub-board placement
            return Err(PlayError::IllegalMove);
        }

        // Set the previous move
        self.previous_move = Some(mv);

        let ghost b1 = *self;
        proof {
            let s0 = statuses(*old(self));
            let s1 = statuses(b1);
            assert(s1 =~= s0.update(idx as int, b1.micros_seq()[idx as int].spec_status()));
            lemma_update_single_win::<BoardStatus>(
                s0,
                idx as int,
                b1.micros_seq()[idx as int].spec_status(),
                BoardStatus::Won(Player::X),
                BoardStatus::Won(Player::O),
            );
        }

        // Update the overall board status
        self.update_status();

        proof {
            assert(statuses(*self) =~= statuses(b1));
            lemma_free_moves_from_empty(b1, 0);
        }

        Ok(())
    }
}

/// A representative move appears in the free-move list from index `k` on
/// exactly when its cell coordinates are the placeholder (0, 0) and its
/// sub-board coordinates, in range, name an in-progress sub-board at flat
/// index `k` or later.
proof fn lemma_free_moves_membership(b: Board, k: int, mv: Move)
    requires
        b.micros_seq().len() == 9,
        0 <= k <= 9,
    ensures
        free_moves_from(b, k).contains(mv) <==> {
            &&& mv.cell_row == 0 && mv.cell_col == 0
            &&& mv.microboard_row < 3 && mv.microboard_col < 3
            &&& k <= mv.microboard_row * 3 + mv.microboard_col < 9
            &&& b.micros_seq()[mv.microboard_row as int * 3 + mv.microboard_col as int].spec_status()
                is InProgress
        },
    decreases 9 - k,
{
    if k < 9 {
        lemma_free_moves_membership(b, k + 1, mv);
        let rest = free_moves_from(b, k + 1);
        if b.micros_seq()[k].spec_status() is InProgress {
            let m = Move {
                microboard_row: ((k / 3) as usize),
                microboard_col: ((k % 3) as usize),
                cell_row: 0,
                cell_col: 0,
            };
            let s = seq![m] + rest;
            assert(free_moves_from(b, k) == s);
            assert(s[0] == m);
            assert(forall|i: int| 0 <= i < rest.len() ==> s[i + 1] == rest[i]);
            assert((k / 3) * 3 + (k % 3) == k);
            if s.contains(mv) {
                let i = choose|i: int| 0 <= i < s.len() && s[i] == mv;
                if i > 0 {
                    assert(rest[i - 1] == mv);
                    assert(rest.contains(mv));
                }
            }
            if {
                &&& mv.cell_row == 0 && mv.cell_col == 0
                &&& mv.microboard_row < 3 && mv.microboard_col < 3
                &&& k <= mv.microboard_row * 3 + mv.microboard_col < 9
                &&& b.micros_seq()[mv.microboard_row as int * 3
                    + mv.microboard_col as int].spec_status() is InProgress
            } {
                if mv.microboard_row * 3 + mv.microboard_col == k {
                    assert(mv.microboard_row == k / 3 && mv.microboard_col == k % 3);
                    assert(s[0] == mv);
                    assert(s.contains(mv));
                } else {
                    assert(rest.contains(mv));
                    let i = choose|i: int| 0 <= i < rest.len() && rest[i] == mv;
                    assert(s[i + 1] == mv);
                    assert(s.contains(mv));
                }
            }
        }
    }
}

/// Forced-target relaxation: while the game is running and the previous
/// move's cell coordinates name a sub-board that is already terminal, the
/// constraint relaxes to a free choice, and the available moves span
/// exactly the in-progress sub-boards.
pub proof fn lemma_forced_target_relaxation(b: Board)
    requires
        board_wf(b),
        b.spec_status() is InProgress,
        b.spec_previous_move() is Some,
        !(micro_at(
            b,
            b.spec_previous_move()->0.cell_row as int,
            b.spec_previous_move()->0.cell_col as int,
        ).spec_status() is InProgress),
    ensures
        forall|i: usize, j: usize|
            i < 3 && j < 3 ==> (board_avail(b).contains(
                Move { microboard_row: i, microboard_col: j, cell_row: 0, cell_col: 0 },
            ) <==> (#[trigger] micro_at(b, i as int, j as int)).spec_status() is InProgress),
        forall|m: Move|
            #[trigger] board_avail(b).contains(m) ==> (m.cell_row == 0 && m.cell_col == 0
                && m.microboard_row < 3 && m.microboard_col < 3 && micro_at(
                b,
                m.microboard_row as int,
                m.microboard_col as int,
            ).spec_status() is InProgress),
{
    assert(forced_target(b) is None);
    assert(board_avail(b) == free_moves_from(b, 0));
    assert forall|i: usize, j: usize| i < 3 && j < 3 implies (board_avail(b).contains(
        Move { microboard_row: i, microboard_col: j, cell_row: 0, cell_col: 0 },
    ) <==> (#[trigger] micro_at(b, i as int, j as int)).spec_status() is InProgress) by {
        lemma_free_moves_membership(
            b,
            0,
            Move { microboard_row: i, microboard_col: j, cell_row: 0, cell_col: 0 },
        );
    }
    assert forall|m: Move| #[trigger] board_avail(b).contains(m) implies (m.cell_row == 0
        && m.cell_col == 0 && m.microboard_row < 3 && m.microboard_col < 3 && micro_at(
        b,
        m.microboard_row as int,
        m.microboard_col as int,
    ).spec_status() is InProgress) by {
        lemma_free_moves_membership(b, 0, m);
    }
}

/// Win detection exactness: a well-formed sub-board reports `Won(p)`
/// exactly when `p` has completed a line of its cells — immediately after
/// the completing move, and never before.
pub proof fn lemma_win_detection_exact(mb: MicroBoard, p: Player)
    requires
        micro_wf(mb),
        p == Player::X || p == Player::O,
    ensures
        mb.spec_status() == BoardStatus::Won(p) <==> micro_wins(mb.cells_seq(), p),
{
}

/// Draw exactness: a well-formed sub-board reports `Draw` exactly when all
/// nine cells are filled and no line is complete.
pub proof fn lemma_draw_exact(mb: MicroBoard)
    requires
        micro_wf(mb),
    ensures
        mb.spec_status() == BoardStatus::Draw <==> (micro_full(mb.cells_seq())
            && !micro_has_winner(mb.cells_seq())),
{
}

} // verus!
