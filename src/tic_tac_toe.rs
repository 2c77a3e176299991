use vstd::prelude::*;
use crate::ai::OutcomeEvaluator;
use crate::game::{GameRules, GameStateTrait, PlayerIndex, Rewards};
use crate::minimax::{child_value, is_best_choice, lemma_best_grows, mm_best, mm_value};

verus! {

/// A mark placed at `(row, col)`, both below 3.
#[derive(Clone, Copy, Debug, Hash, PartialEq, Eq, Structural)]
pub struct TTTAction {
    pub row: usize,
    pub col: usize,
}

#[derive(Clone, Copy, Debug, PartialEq, Eq, Structural)]
pub enum TTTPlayer {
    X,
    O,
}

impl TTTPlayer {
    pub open spec fn spec_index(self) -> PlayerIndex {
        match self {
            TTTPlayer::X => PlayerIndex::Zero,
            TTTPlayer::O => PlayerIndex::One,
        }
    }

    pub open spec fn spec_other(self) -> TTTPlayer {
        match self {
            TTTPlayer::X => TTTPlayer::O,
            TTTPlayer::O => TTTPlayer::X,
        }
    }

    /// The seat of this player: X is Zero, O is One.
    pub fn index(&self) -> (r: PlayerIndex)
        ensures
            r == self.spec_index(),
    {
        match self {
            TTTPlayer::X => PlayerIndex::Zero,
            TTTPlayer::O => PlayerIndex::One,
        }
    }

    /// The rewards of a game that this player won.
    pub fn winner_to_reward(&self) -> (r: Rewards)
        ensures
            r == Rewards::spec_win(self.spec_index()),
    {
        match self {
            TTTPlayer::X => Rewards::win(PlayerIndex::Zero),
            TTTPlayer::O => Rewards::win(PlayerIndex::One),
        }
    }
}

#[derive(Clone, Copy, Debug, PartialEq, Eq, Structural)]
pub enum GridCell {
    Empty,
    Occupied(TTTPlayer),
}

/// A 3x3 board and the player to move.
#[derive(Clone, Copy, Debug)]
pub struct TTTState {
    board: [[GridCell; 3]; 3],
    next_player: TTTPlayer,
}

/// The model of a position: the nine cells in row-major order and the
/// player to move.
pub struct TTTBoard {
    pub cells: Seq<GridCell>,
    pub next: TTTPlayer,
}

impl View for TTTState {
    type V = TTTBoard;

    closed spec fn view(&self) -> TTTBoard {
        TTTBoard { cells: Seq::new(9, |i: int| self.board@[i / 3]@[i % 3]), next: self.next_player }
    }
}

/// The player holding all three cells, if one does.
pub open spec fn spec_line_winner(a: GridCell, b: GridCell, c: GridCell) -> Option<TTTPlayer> {
    match a {
        GridCell::Occupied(p) => if a == b && a == c {
            Some(p)
        } else {
            None
        },
        GridCell::Empty => None,
    }
}

fn is_winner(a: &GridCell, b: &GridCell, c: &GridCell) -> (r: Option<TTTPlayer>)
    ensures
        r == spec_line_winner(*a, *b, *c),
{
    if let GridCell::Occupied(p) = a {
        if *a == *b && *a == *c {
            return Some(*p);
        }
    }
    None
}

impl TTTBoard {
    pub open spec fn cell(self, row: int, col: int) -> GridCell {
        self.cells[3 * row + col]
    }

    pub open spec fn row_winner(self, r: int) -> Option<TTTPlayer> {
        spec_line_winner(self.cell(r, 0), self.cell(r, 1), self.cell(r, 2))
    }

    pub open spec fn col_winner(self, c: int) -> Option<TTTPlayer> {
        spec_line_winner(self.cell(0, c), self.cell(1, c), self.cell(2, c))
    }

    /// The winner of the first line that one player holds, rows first, then
    /// columns, then the two diagonals.
    pub open spec fn winner(self) -> Option<TTTPlayer> {
        if self.row_winner(0) is Some {
            self.row_winner(0)
        } else if self.row_winner(1) is Some {
            self.row_winner(1)
        } else if self.row_winner(2) is Some {
            self.row_winner(2)
        } else if self.col_winner(0) is Some {
            self.col_winner(0)
        } else if self.col_winner(1) is Some {
            self.col_winner(1)
        } else if self.col_winner(2) is Some {
            self.col_winner(2)
        } else if spec_line_winner(self.cell(0, 0), self.cell(1, 1), self.cell(2, 2)) is Some {
            spec_line_winner(self.cell(0, 0), self.cell(1, 1), self.cell(2, 2))
        } else {
            spec_line_winner(self.cell(0, 2), self.cell(1, 1), self.cell(2, 0))
        }
    }

    /// The empty cells among the first `n` in row-major order.
    pub open spec fn empty_cells(self, n: nat) -> Seq<TTTAction>
        decreases n,
    {
        if n == 0 {
            Seq::empty()
        } else {
            let i = n - 1;
            let rest = self.empty_cells((n - 1) as nat);
            if self.cells[i] == GridCell::Empty {
                rest.push(TTTAction { row: (i / 3) as usize, col: (i % 3) as usize })
            } else {
                rest
            }
        }
    }

    pub open spec fn actions(self) -> Seq<TTTAction> {
        self.empty_cells(9)
    }

    /// Over when a line is held or no cell is empty.
    pub open spec fn is_final(self) -> bool {
        self.winner() is Some || self.actions().len() == 0
    }

    pub open spec fn reward(self) -> Rewards {
        match self.winner() {
            Some(p) => Rewards::spec_win(p.spec_index()),
            None => Rewards::spec_tie(),
        }
    }

    /// The position after the player to move marks `(row, col)`.
    pub open spec fn after(self, row: int, col: int) -> TTTBoard {
        TTTBoard {
            cells: self.cells.update(3 * row + col, GridCell::Occupied(self.next)),
            next: self.next.spec_other(),
        }
    }
}

impl TTTState {
    /// A board with the given cells and player to move.
    pub fn from_cells(board: [[GridCell; 3]; 3], next_player: TTTPlayer) -> (r: TTTState)
        ensures
            forall|row: int, col: int|
                0 <= row < 3 && 0 <= col < 3 ==> r@.cell(row, col) == board@[row]@[col],
            r@.next == next_player,
    {
        TTTState { board, next_player }
    }

    pub fn winner(&self) -> (r: Option<TTTPlayer>)
        ensures
            r == self@.winner(),
    {
        let mut row: usize = 0;
        while row < 3
            invariant
                row <= 3,
                forall|r: int|
                    0 <= r < row ==> #[trigger] self@.row_winner(r) is None,
            decreases 3 - row,
        {
            if let Some(p) = is_winner(&self.board[row][0], &self.board[row][1], &self.board[row][2]) {
                return Some(p);
            }
            row = row + 1;
        }
        let mut col: usize = 0;
        while col < 3
            invariant
                col <= 3,
                forall|r: int|
                    0 <= r < 3 ==> #[trigger] self@.row_winner(r) is None,
                forall|c: int| 0 <= c < col ==> #[trigger] self@.col_winner(c) is None,
            decreases 3 - col,
        {
            if let Some(p) = is_winner(&self.board[0][col], &self.board[1][col], &self.board[2][col]) {
                return Some(p);
            }
            col = col + 1;
        }
        if let Some(p) = is_winner(&self.board[0][0], &self.board[1][1], &self.board[2][2]) {
            return Some(p);
        }
        if let Some(p) = is_winner(&self.board[0][2], &self.board[1][1], &self.board[2][0]) {
            return Some(p);
        }
        None
    }

    /// The mark at `(row, col)`.
    pub fn get_cell(&self, row: usize, col: usize) -> (r: GridCell)
        requires
            row < 3,
            col < 3,
        ensures
            r == self@.cell(row as int, col as int),
    {
        self.board[row][col]
    }

    /// The model of a state holds the nine cells of its board.
    pub proof fn lemma_nine_cells(&self)
        ensures
            self@.cells.len() == 9,
    {
    }

    /// The mark of the player to move.
    pub fn next_mark(&self) -> (r: TTTPlayer)
        ensures
            r == self@.next,
    {
        self.next_player
    }
}

impl Default for TTTState {
    fn default() -> (r: TTTState)
        ensures
            forall|row: int, col: int| 0 <= row < 3 && 0 <= col < 3 ==> r@.cell(row, col) == GridCell::Empty,
            r@.next == TTTPlayer::X,
    {
        TTTState { board: [[GridCell::Empty; 3]; 3], next_player: TTTPlayer::X }
    }
}

/// The empty cells are listed once each, in row-major order: an action is
/// listed exactly when its cell is on the board and empty.
pub proof fn lemma_empty_cells(b: TTTBoard, n: nat, a: TTTAction)
    requires
        n <= 9,
        b.cells.len() == 9,
    ensures
        b.empty_cells(n).contains(a) <==> (a.row < 3 && a.col < 3 && 3 * a.row + a.col < n
            && b.cell(a.row as int, a.col as int) == GridCell::Empty),
        b.empty_cells(n).len() == 0 <==> forall|i: int| 0 <= i < n ==> b.cells[i] != GridCell::Empty,
    decreases n,
{
    if n > 0 {
        lemma_empty_cells(b, (n - 1) as nat, a);
        let i = n - 1;
        let rest = b.empty_cells((n - 1) as nat);
        let x = TTTAction { row: (i / 3) as usize, col: (i % 3) as usize };
        if b.cells[i] == GridCell::Empty {
            assert(b.empty_cells(n) == rest.push(x));
            assert(rest.push(x)[rest.len() as int] == x);
            if rest.push(x).contains(a) && a != x {
                let k = choose|k: int| 0 <= k < rest.push(x).len() && rest.push(x)[k] == a;
                assert(rest[k] == a);
            }
            if rest.contains(a) {
                let k = choose|k: int| 0 <= k < rest.len() && rest[k] == a;
                assert(rest.push(x)[k] == a);
            }
        }
    }
}

impl GameStateTrait<TTTAction> for TTTState {
    open spec fn spec_is_final(s: TTTBoard) -> bool {
        s.is_final()
    }

    open spec fn spec_actions(s: TTTBoard) -> Seq<TTTAction> {
        s.actions()
    }

    open spec fn spec_reward(s: TTTBoard) -> Rewards {
        s.reward()
    }

    open spec fn spec_next_player(s: TTTBoard) -> PlayerIndex {
        s.next.spec_index()
    }

    fn is_final(&self) -> (r: bool) {
        let w = self.winner();
        if w.is_some() {
            return true;
        }
        let mut i: usize = 0;
        while i < 9
            invariant
                i <= 9,
                self@.winner() is None,
                forall|j: int| 0 <= j < i ==> self@.cells[j] != GridCell::Empty,
            decreases 9 - i,
        {
            if self.board[i / 3][i % 3] == GridCell::Empty {
                proof {
                    let a = TTTAction { row: (i / 3) as usize, col: (i % 3) as usize };
                    assert(3 * (i / 3) + i % 3 == i);
                    assert(self@.cells[i as int] == GridCell::Empty);
                    assert(self@.cell(a.row as int, a.col as int) == GridCell::Empty);
                    lemma_empty_cells(self@, 9, a);
                    assert(self@.actions().contains(a));
                    assert(self@.actions().len() > 0);
                }
                return false;
            }
            i = i + 1;
        }
        proof {
            lemma_empty_cells(self@, 9, TTTAction { row: 0, col: 0 });
        }
        true
    }

    fn get_actions(&self) -> (r: Vec<TTTAction>) {
        let mut empty_fields: Vec<TTTAction> = Vec::new();
        let mut i: usize = 0;
        while i < 9
            invariant
                i <= 9,
                empty_fields@ == self@.empty_cells(i as nat),
            decreases 9 - i,
        {
            if self.board[i / 3][i % 3] == GridCell::Empty {
                empty_fields.push(TTTAction { row: i / 3, col: i % 3 });
            }
            i = i + 1;
        }
        proof {
            if !self@.is_final() {
                lemma_empty_cells(self@, 9, TTTAction { row: 0, col: 0 });
            }
        }
        empty_fields
    }

    fn reward(&self) -> (r: Rewards) {
        match self.winner() {
            Some(p) => p.winner_to_reward(),
            None => Rewards::tie(),
        }
    }

    fn next_player(&self) -> (r: PlayerIndex) {
        self.next_player.index()
    }
}

/// The rules of tic-tac-toe: X moves first, three in a line wins.
pub struct TTTRules {}

impl GameRules for TTTRules {
    type Action = TTTAction;

    type State = TTTState;

    const N_PLAYERS: u32 = 2;

    open spec fn spec_play(s: TTTBoard, a: TTTAction) -> TTTBoard {
        s.after(a.row as int, a.col as int)
    }

    fn play(initial_state: &TTTState, action: &TTTAction) -> (r: TTTState) {
        proof {
            lemma_empty_cells(initial_state@, 9, *action);
        }
        let mut new_state = *initial_state;
        new_state.board[action.row][action.col] = GridCell::Occupied(initial_state.next_player);
        new_state.next_player = match initial_state.next_player {
            TTTPlayer::X => TTTPlayer::O,
            TTTPlayer::O => TTTPlayer::X,
        };
        assert(new_state@.cells =~= initial_state@.cells.update(
            3 * action.row + action.col,
            GridCell::Occupied(initial_state@.next),
        ));
        new_state
    }
}

/// A position is over exactly when it has no empty cell or a line is held.
pub proof fn lemma_final_iff(b: TTTBoard)
    requires
        b.cells.len() == 9,
    ensures
        b.is_final() <==> (b.actions().len() == 0 || b.winner() is Some),
        b.actions().len() == 0 <==> forall|i: int| 0 <= i < 9 ==> b.cells[i] != GridCell::Empty,
{
    lemma_empty_cells(b, 9, TTTAction { row: 0, col: 0 });
}

/// The listed actions are exactly the empty cells of the board, so `play`
/// accepts an action just when its cell is empty.
pub proof fn lemma_actions_playable(b: TTTBoard, a: TTTAction)
    requires
        b.cells.len() == 9,
        b.actions().contains(a),
    ensures
        a.row < 3,
        a.col < 3,
        b.cell(a.row as int, a.col as int) == GridCell::Empty,
{
    lemma_empty_cells(b, 9, a);
}

/// An empty cell on the board is listed among the actions.
pub proof fn lemma_empty_cell_playable(b: TTTBoard, a: TTTAction)
    requires
        b.cells.len() == 9,
        a.row < 3,
        a.col < 3,
        b.cell(a.row as int, a.col as int) == GridCell::Empty,
    ensures
        b.actions().contains(a),
{
    lemma_empty_cells(b, 9, a);
}

/// The rewards of a position hand out exactly one win's worth.
pub proof fn lemma_reward_is_outcome(b: TTTBoard)
    ensures
        b.reward().is_outcome(),
{
}

/// A mark of O cannot complete a line of X: after O moves in an open
/// position, X has not won.
pub proof fn lemma_o_mark_makes_no_x_line(b: TTTBoard, row: int, col: int)
    requires
        b.cells.len() == 9,
        b.next == TTTPlayer::O,
        b.winner() is None,
        0 <= row < 3,
        0 <= col < 3,
    ensures
        b.after(row, col).winner() != Some(TTTPlayer::X),
{
    let a = b.after(row, col);
    assert(a.cells == b.cells.update(3 * row + col, GridCell::Occupied(TTTPlayer::O)));
}

/// Depth-1 minimax with the outcome evaluator takes a win at once: when X
/// to move can complete a line, the move it chooses completes one.
pub proof fn lemma_minimax_takes_win(e: OutcomeEvaluator<TTTRules>, b: TTTBoard, w: int, k: int)
    requires
        b.cells.len() == 9,
        b.next == TTTPlayer::X,
        !b.is_final(),
        0 <= w < b.actions().len(),
        b.after(b.actions()[w].row as int, b.actions()[w].col as int).winner() == Some(TTTPlayer::X),
        is_best_choice(&e, b, 1, k),
    ensures
        b.after(b.actions()[k].row as int, b.actions()[k].col as int).winner() == Some(TTTPlayer::X),
{
    let ak = b.actions()[k];
    let ck = b.after(ak.row as int, ak.col as int);
    let aw = b.actions()[w];
    let cw = b.after(aw.row as int, aw.col as int);
    assert(mm_value(&e, cw, 1, false) == 2);
    assert(child_value(&e, b, 1, w) == mm_value(&e, cw, 1, false));
    assert(child_value(&e, b, 1, k) == mm_value(&e, ck, 1, false));
    assert(child_value(&e, b, 1, w) <= child_value(&e, b, 1, k));
    if ck.winner() != Some(TTTPlayer::X) {
        lemma_actions_playable(b, ak);
        assert(ck.cells.len() == 9);
        if ck.is_final() {
            assert(mm_value(&e, ck, 1, false) <= 0);
        } else {
            let n = ck.actions().len();
            lemma_best_grows(&e, ck, 1, false, 1);
            let a0 = ck.actions()[0];
            lemma_actions_playable(ck, a0);
            lemma_o_mark_makes_no_x_line(ck, a0.row as int, a0.col as int);
            let g0 = ck.after(a0.row as int, a0.col as int);
            assert(mm_value(&e, g0, 0, true) <= 0);
            assert(mm_best(&e, ck, 1, false, 1) <= 0);
            assert(mm_value(&e, ck, 1, false) == mm_best(&e, ck, 1, false, n));
        }
        assert(mm_value(&e, ck, 1, false) <= 0);
    }
}

} // verus!
