use vstd::prelude::*;
use vstd::set_lib::{
    lemma_int_range, lemma_set_difference_len, lemma_set_disjoint_lens, lemma_set_subset_finite,
    set_int_range,
};
use crate::game::{
    is_play, is_playout_result, lemma_play_push, GameRules, GameStateTrait, PlayerIndex, Rewards,
    MAX_ROLLOUT_PLIES,
};
use crate::ai::Evaluator;
use crate::move_generation::{
    all_moves, lemma_final_iff_no_actions, lemma_moves_upto_legal, sample_valid_move, HexxagonMove,
};
use crate::hexgrid::{
    hex_length, lemma_ring, lemma_ring_edge_inverse, ring_edge, ring_point, AxialVector, HexGrid,
};

verus! {

#[derive(Clone, Copy, Debug, PartialEq, Eq, Structural)]
pub enum Player {
    Rubies,
    Pearls,
}

impl Player {
    pub open spec fn spec_opponent(self) -> Player {
        match self {
            Player::Rubies => Player::Pearls,
            Player::Pearls => Player::Rubies,
        }
    }

    pub fn opponent(&self) -> (r: Player)
        ensures
            r == self.spec_opponent(),
    {
        match self {
            Player::Rubies => Player::Pearls,
            Player::Pearls => Player::Rubies,
        }
    }
}

#[derive(Clone, Copy, Debug, PartialEq, Eq, Structural)]
pub enum CellState {
    Empty,
    Occupied(Player),
    Blocked,
}

#[derive(Clone, Copy, Debug, PartialEq, Eq, Structural)]
pub enum MoveResult {
    Success,
    Fail,
}

#[derive(Clone, Copy, Debug, PartialEq, Eq, Structural)]
pub enum GameResult {
    Tie,
    Win(Player),
}

impl GameResult {
    pub fn winner(&self) -> (r: Option<Player>)
        ensures
            r == (match self {
                GameResult::Tie => None,
                GameResult::Win(p) => Some(*p),
            }),
    {
        match self {
            GameResult::Tie => None,
            GameResult::Win(winner) => Some(*winner),
        }
    }
}

#[derive(Clone, Copy, Debug, PartialEq, Eq, Structural)]
pub struct Scores {
    pub rubies: i32,
    pub pearls: i32,
}

/// Radius of the Hexxagon board.
pub const BOARD_SIZE: i32 = 5;

/// Width of the square of axial coordinates that holds the board.
pub const SCAN_SIDE: usize = 9;

/// The model of a Hexxagon position: the player to move and the board's
/// cells.
pub struct HexxagonView {
    pub next: Player,
    pub cells: Map<AxialVector, CellState>,
}

/// The `t`-th coordinate of the scan over the square `-4..=4` by `-4..=4`,
/// `q` first.
pub open spec fn scan_coord(t: int) -> AxialVector {
    AxialVector { q: (t / 9 - 4) as i32, r: (t % 9 - 4) as i32 }
}

/// `c` is a cell of the board.
pub open spec fn on_board(c: AxialVector) -> bool {
    c.spec_length() < BOARD_SIZE
}

/// Every cell of the board comes once in the scan.
pub proof fn lemma_scan_covers(c: AxialVector)
    requires
        on_board(c),
    ensures
        scan_coord((c.q + 4) * 9 + c.r + 4) == c,
        0 <= (c.q + 4) * 9 + c.r + 4 < 81,
{
    let t = (c.q + 4) * 9 + c.r + 4;
    assert(-4 <= c.q <= 4 && -4 <= c.r <= 4);
    assert(t / 9 == c.q + 4 && t % 9 == c.r + 4);
}

/// The cell of the initial position.
pub open spec fn initial_cell(c: AxialVector) -> CellState {
    let q = c.q;
    let r = c.r;
    if (q == 0 && r == -1) || (q == 1 && r == 0) || (q == -1 && r == 1) {
        CellState::Blocked
    } else if (q == -4 && r == 0) || (q == 4 && r == -4) || (q == 0 && r == 4) {
        CellState::Occupied(Player::Rubies)
    } else if (q == 0 && r == -4) || (q == -4 && r == 4) || (q == 4 && r == 0) {
        CellState::Occupied(Player::Pearls)
    } else {
        CellState::Empty
    }
}

/// The starting position: Rubies to move on the initial board.
pub open spec fn initial_view() -> HexxagonView {
    HexxagonView { next: Player::Rubies, cells: Map::new(|c: AxialVector| on_board(c), |c| initial_cell(c)) }
}

/// A board with each cell within its radius and a player to move.
#[derive(Debug)]
pub struct GameState {
    next_move: Player,
    field: HexGrid<CellState>,
}

impl View for GameState {
    type V = HexxagonView;

    closed spec fn view(&self) -> HexxagonView {
        HexxagonView { next: self.next_move, cells: self.field.cells() }
    }
}

impl HexxagonView {
    /// The cells are exactly those of the board.
    pub open spec fn wf(self) -> bool {
        forall|c: AxialVector| #[trigger] self.cells.contains_key(c) <==> on_board(c)
    }

    pub open spec fn cell(self, c: AxialVector) -> CellState {
        self.cells[c]
    }
}

impl GameState {
    /// The field is of the board's radius.
    #[verifier::type_invariant]
    pub closed spec fn wf(&self) -> bool {
        &&& self.field.wf()
        &&& self.field.size() == BOARD_SIZE
    }


    /// The starting position: blocked cells at `(0,-1), (1,0), (-1,1)`,
    /// Rubies at `(-4,0), (4,-4), (0,4)`, Pearls at `(0,-4), (-4,4), (4,0)`,
    /// Rubies to move.
    pub fn initialize() -> (r: GameState)
        ensures
            r@ == initial_view(),
    {
        let mut field = HexGrid::new_fill(BOARD_SIZE, CellState::Empty);
        field.set(AxialVector::from((0, -1)), CellState::Blocked);
        field.set(AxialVector::from((1, 0)), CellState::Blocked);
        field.set(AxialVector::from((-1, 1)), CellState::Blocked);
        field.set(AxialVector::from((-4, 0)), CellState::Occupied(Player::Rubies));
        field.set(AxialVector::from((4, -4)), CellState::Occupied(Player::Rubies));
        field.set(AxialVector::from((0, 4)), CellState::Occupied(Player::Rubies));
        field.set(AxialVector::from((0, -4)), CellState::Occupied(Player::Pearls));
        field.set(AxialVector::from((-4, 4)), CellState::Occupied(Player::Pearls));
        field.set(AxialVector::from((4, 0)), CellState::Occupied(Player::Pearls));
        let r = GameState { field, next_move: Player::Rubies };
        assert(r@.cells =~= initial_view().cells);
        r
    }

    pub fn get_field(&self) -> (r: &HexGrid<CellState>)
        ensures
            r.cells() == self@.cells,
            r.wf(),
            r.size() == BOARD_SIZE,
    {
        proof {
            use_type_invariant(self);
        }
        &self.field
    }

    pub fn next_player(&self) -> (r: Player)
        ensures
            r == self@.next,
    {
        self.next_move
    }
}


/// The index of the unit direction `(dq, dr)`, numbered as in
/// `AxialVector::direction`, or 6 for any other vector.
pub open spec fn direction_of(dq: int, dr: int) -> int {
    if dq == 1 && dr == 0 {
        0
    } else if dq == 1 && dr == -1 {
        1
    } else if dq == 0 && dr == -1 {
        2
    } else if dq == -1 && dr == 0 {
        3
    } else if dq == -1 && dr == 1 {
        4
    } else if dq == 0 && dr == 1 {
        5
    } else {
        6
    }
}

/// The vectors of length 1 are the six unit directions.
pub proof fn lemma_unit_vectors(dq: int, dr: int)
    ensures
        hex_length(dq, dr) == 1 <==> direction_of(dq, dr) < 6,
{
}

/// Hex distance from `a` to `b`.
pub open spec fn distance(a: AxialVector, b: AxialVector) -> int {
    hex_length(b.q - a.q, b.r - a.r)
}

impl HexxagonView {
    /// A move from `from` to `to` is accepted: a step or a jump, both ends on
    /// the board, a piece of the mover at `from` and `to` empty.
    pub open spec fn is_legal(self, from: AxialVector, to: AxialVector) -> bool {
        &&& 1 <= distance(from, to) <= 2
        &&& on_board(from)
        &&& on_board(to)
        &&& self.cells[from] == CellState::Occupied(self.next)
        &&& self.cells[to] == CellState::Empty
    }

    /// The cell at `c` after the move: the mover enters `to`, leaves `from`
    /// on a jump, and takes every opposing piece next to `to`.
    pub open spec fn after_cell(self, from: AxialVector, to: AxialVector, c: AxialVector) -> CellState {
        if c == to {
            CellState::Occupied(self.next)
        } else if c == from && distance(from, to) == 2 {
            CellState::Empty
        } else if distance(to, c) == 1 && self.cells[c] == CellState::Occupied(
            self.next.spec_opponent(),
        ) {
            CellState::Occupied(self.next)
        } else {
            self.cells[c]
        }
    }

    /// The position after the move from `from` to `to`: its cells, and the
    /// other player to move.
    pub open spec fn after(self, from: AxialVector, to: AxialVector) -> HexxagonView {
        HexxagonView {
            next: self.next.spec_opponent(),
            cells: Map::new(|c: AxialVector| on_board(c), |c: AxialVector| self.after_cell(from, to, c)),
        }
    }
}

impl GameState {
    /// Plays the move of the player to move from `from` to `to` if it is
    /// legal; otherwise fails and changes nothing.
    pub fn player_move(&mut self, from: AxialVector, to: AxialVector) -> (r: MoveResult)
        requires
            from.is_small(),
            to.is_small(),
        ensures
            r == MoveResult::Success <==> old(self)@.is_legal(from, to),
            r == MoveResult::Success ==> final(self)@ == old(self)@.after(from, to),
            r == MoveResult::Fail ==> final(self)@ == old(self)@,
    {
        proof {
            use_type_invariant(&*self);
        }
        let player = self.next_move;
        let move_length = (to - from).length();
        if move_length > 2 || move_length < 1 {
            return MoveResult::Fail;
        }
        if !self.field.is_in_bounds(from) || !self.field.is_in_bounds(to) {
            return MoveResult::Fail;
        }
        if self.field.get(from) != Some(CellState::Occupied(player)) {
            return MoveResult::Fail;
        }
        if self.field.get(to) != Some(CellState::Empty) {
            return MoveResult::Fail;
        }
        let ghost start = self@;
        let mut field = self.field.clone();
        field.set(to, CellState::Occupied(player));
        if move_length == 2 {
            field.set(from, CellState::Empty);
        }
        let ghost mid = field.cells();
        assert(forall|c: AxialVector|
            #[trigger] mid.contains_key(c) ==> mid[c] == if c == to {
                CellState::Occupied(player)
            } else if c == from && distance(from, to) == 2 {
                CellState::Empty
            } else {
                start.cells[c]
            });
        let opponent = player.opponent();
        let mut direction: u8 = 0;
        while direction < 6
            invariant
                field.wf(),
                field.size() == BOARD_SIZE,
                direction <= 6,
                to.is_small(),
                on_board(to),
                forall|c: AxialVector| #[trigger]
                    field.cells().contains_key(c) ==> field.cells()[c] == if direction_of(
                        c.q - to.q,
                        c.r - to.r,
                    ) < direction && mid[c] == CellState::Occupied(opponent) {
                        CellState::Occupied(player)
                    } else {
                        mid[c]
                    },
                forall|c: AxialVector| #[trigger] mid.contains_key(c) <==> on_board(c),
            decreases 6 - direction,
        {
            let to_capture = to + AxialVector::direction(direction);
            if field.is_in_bounds(to_capture) && field.get(to_capture) == Some(
                CellState::Occupied(opponent),
            ) {
                field.set(to_capture, CellState::Occupied(player));
            }
            direction = direction + 1;
        }
        self.field = field;
        self.next_move = opponent;
        assert forall|c: AxialVector| #[trigger] self@.cells.contains_key(c) implies self@.cells[c]
            == start.after(from, to).cells[c] by {
            lemma_unit_vectors(c.q - to.q, c.r - to.r);
        }
        assert(self@.cells =~= start.after(from, to).cells);
        MoveResult::Success
    }
}


/// Position of `c` in the scan.
pub open spec fn scan_index(c: AxialVector) -> int {
    (c.q + 4) * 9 + c.r + 4
}

/// Step `t` of the scan is found again by `scan_index`, and is small.
pub proof fn lemma_scan_index(t: int)
    requires
        0 <= t < 81,
    ensures
        scan_index(scan_coord(t)) == t,
        scan_coord(t).is_small(),
{
    assert(t == (t / 9) * 9 + t % 9);
}

/// The coordinate of step `t` of the scan.
pub(crate) fn scan_step(t: usize) -> (c: AxialVector)
    requires
        t < 81,
    ensures
        c == scan_coord(t as int),
        c.is_small(),
{
    proof {
        lemma_scan_index(t as int);
    }
    AxialVector::new((t / SCAN_SIDE) as i32 - 4, (t % SCAN_SIDE) as i32 - 4)
}

impl HexxagonView {
    /// The cells that hold a piece of `p`.
    pub open spec fn pieces(self, p: Player) -> Set<AxialVector> {
        self.cells.dom().filter(|c: AxialVector| self.cells[c] == CellState::Occupied(p))
    }

    /// How many pieces `p` has on the board.
    pub open spec fn count(self, p: Player) -> int {
        self.pieces(p).len() as int
    }

    /// The piece counts of both players.
    pub open spec fn spec_scores(self) -> Scores {
        Scores { rubies: self.count(Player::Rubies) as i32, pearls: self.count(Player::Pearls) as i32 }
    }
}

/// The cells up to step `t` of the scan that hold a piece of `p`.
pub open spec fn scanned_pieces(v: HexxagonView, p: Player, t: int) -> Set<AxialVector> {
    Set::new(
        |c: AxialVector|
            on_board(c) && scan_index(c) < t && v.cells[c] == CellState::Occupied(p),
    )
}

impl GameState {
    /// The number of pieces of each player.
    pub fn scores(&self) -> (r: Scores)
        ensures
            r == self@.spec_scores(),
            0 <= self@.count(Player::Rubies) <= 81,
            0 <= self@.count(Player::Pearls) <= 81,
    {
        proof {
            use_type_invariant(self);
        }
        let mut rubies: i32 = 0;
        let mut pearls: i32 = 0;
        let mut t: usize = 0;
        assert(scanned_pieces(self@, Player::Rubies, 0) =~= Set::empty());
        assert(scanned_pieces(self@, Player::Pearls, 0) =~= Set::empty());
        while t < 81
            invariant
                self.field.wf(),
                self.field.size() == BOARD_SIZE,
                t <= 81,
                scanned_pieces(self@, Player::Rubies, t as int).finite(),
                scanned_pieces(self@, Player::Pearls, t as int).finite(),
                rubies == scanned_pieces(self@, Player::Rubies, t as int).len(),
                pearls == scanned_pieces(self@, Player::Pearls, t as int).len(),
                rubies <= t,
                pearls <= t,
            decreases 81 - t,
        {
            let c = scan_step(t);
            let ghost before_r = scanned_pieces(self@, Player::Rubies, t as int);
            let ghost before_p = scanned_pieces(self@, Player::Pearls, t as int);
            proof {
                lemma_scan_index(t as int);
            }
            let cell = if self.field.is_in_bounds(c) {
                self.field.get(c)
            } else {
                None
            };
            match cell {
                Some(CellState::Occupied(Player::Rubies)) => {
                    rubies = rubies + 1;
                    assert(scanned_pieces(self@, Player::Rubies, t + 1) =~= before_r.insert(c));
                    assert(scanned_pieces(self@, Player::Pearls, t + 1) =~= before_p);
                },
                Some(CellState::Occupied(Player::Pearls)) => {
                    pearls = pearls + 1;
                    assert(scanned_pieces(self@, Player::Pearls, t + 1) =~= before_p.insert(c));
                    assert(scanned_pieces(self@, Player::Rubies, t + 1) =~= before_r);
                },
                _ => {
                    assert(scanned_pieces(self@, Player::Rubies, t + 1) =~= before_r);
                    assert(scanned_pieces(self@, Player::Pearls, t + 1) =~= before_p);
                },
            }
            t = t + 1;
        }
        proof {
            assert forall|c: AxialVector| on_board(c) implies scan_index(c) < 81 by {
                lemma_scan_covers(c);
            }
            assert(scanned_pieces(self@, Player::Rubies, 81) =~= self@.pieces(Player::Rubies));
            assert(scanned_pieces(self@, Player::Pearls, 81) =~= self@.pieces(Player::Pearls));
        }
        Scores { rubies, pearls }
    }
}


impl HexxagonView {
    /// A piece of the player to move lies within distance 1 or 2 of `e`.
    #[verifier::opaque]
    pub open spec fn reaches(self, e: AxialVector) -> bool {
        exists|p: AxialVector|
            #![trigger self.cells[p]]
            on_board(p) && self.cells[p] == CellState::Occupied(self.next) && 1 <= distance(e, p) <= 2
    }

    /// The player to move can still reach an empty cell.
    pub open spec fn has_reachable_empty(self) -> bool {
        exists|e: AxialVector|
            #![trigger self.cells[e]]
            on_board(e) && self.cells[e] == CellState::Empty && self.reaches(e)
    }

    /// Over once the player to move can reach no empty cell; then more
    /// pieces win and equal counts tie.
    pub open spec fn spec_result(self) -> Option<GameResult> {
        if self.has_reachable_empty() {
            None
        } else if self.count(Player::Pearls) < self.count(Player::Rubies) {
            Some(GameResult::Win(Player::Rubies))
        } else if self.count(Player::Pearls) == self.count(Player::Rubies) {
            Some(GameResult::Tie)
        } else {
            Some(GameResult::Win(Player::Pearls))
        }
    }
}

/// Whether the ring walk around `c`, now at ring `ring`, edge `edge` and
/// index `idx`, has already passed `p`.
pub open spec fn walked(c: AxialVector, p: AxialVector, ring: int, edge: int, idx: int) -> bool {
    let dq = p.q - c.q;
    let dr = p.r - c.r;
    let l = hex_length(dq, dr);
    ||| 1 <= l < ring
    ||| l == ring && ring_edge(l, dq, dr).0 < edge
    ||| l == ring && ring_edge(l, dq, dr).0 == edge && ring_edge(l, dq, dr).1 < idx
}

impl GameState {
    /// Whether a piece of the player to move lies within distance 1 or 2 of
    /// `c`, found by walking the rings of radius 1 and 2 around `c`.
    fn reaches_piece(&self, c: AxialVector) -> (r: bool)
        requires
            on_board(c),
        ensures
            r == self@.reaches(c),
    {
        proof {
            use_type_invariant(self);
            reveal(HexxagonView::reaches);
        }
        let next = self.next_move;
        let mut ring_radius: i32 = 1;
        while ring_radius < 3
            invariant
                self.field.wf(),
                self.field.size() == BOARD_SIZE,
                next == self@.next,
                on_board(c),
                1 <= ring_radius <= 3,
                forall|p: AxialVector|
                    on_board(p) && #[trigger] self@.cells[p] == CellState::Occupied(next)
                        ==> !walked(c, p, ring_radius as int, 0, 0),
            decreases 3 - ring_radius,
        {
            let d4 = AxialVector::direction(4);
            assert(d4.q * ring_radius == -ring_radius && d4.r * ring_radius == ring_radius)
                by (nonlinear_arith)
                requires
                    d4.q == -1 && d4.r == 1,
            ;
            let mut hex: AxialVector = ring_radius * d4 + c;
            let mut edge_direction: u8 = 0;
            while edge_direction < 6
                invariant
                    self.field.wf(),
                    self.field.size() == BOARD_SIZE,
                    next == self@.next,
                    on_board(c),
                    1 <= ring_radius < 3,
                    edge_direction <= 6,
                    edge_direction < 6 ==> hex.q == c.q + ring_point(
                        ring_radius as int,
                        edge_direction as int,
                        0,
                    ).0,
                    edge_direction < 6 ==> hex.r == c.r + ring_point(
                        ring_radius as int,
                        edge_direction as int,
                        0,
                    ).1,
                    -8 <= hex.q <= 8,
                    -8 <= hex.r <= 8,
                    forall|p: AxialVector|
                        on_board(p) && #[trigger] self@.cells[p] == CellState::Occupied(next)
                            ==> !walked(c, p, ring_radius as int, edge_direction as int, 0),
                decreases 6 - edge_direction,
            {
                let mut edge_index: i32 = 0;
                while edge_index < ring_radius
                    invariant
                        self.field.wf(),
                        self.field.size() == BOARD_SIZE,
                        next == self@.next,
                        on_board(c),
                        1 <= ring_radius < 3,
                        edge_direction < 6,
                        0 <= edge_index <= ring_radius,
                        hex.q == c.q + ring_point(
                            ring_radius as int,
                            edge_direction as int,
                            edge_index as int,
                        ).0,
                        hex.r == c.r + ring_point(
                            ring_radius as int,
                            edge_direction as int,
                            edge_index as int,
                        ).1,
                        forall|p: AxialVector|
                            on_board(p) && #[trigger] self@.cells[p] == CellState::Occupied(next)
                                ==> !walked(
                                c,
                                p,
                                ring_radius as int,
                                edge_direction as int,
                                edge_index as int,
                            ),
                    decreases ring_radius - edge_index,
                {
                    if self.field.is_in_bounds(hex) && self.field.get(hex) == Some(
                        CellState::Occupied(next),
                    ) {
                        proof {
                            lemma_ring(ring_radius as int, AxialVector {
                                q: (hex.q - c.q) as i32,
                                r: (hex.r - c.r) as i32,
                            });
                            reveal(HexxagonView::reaches);
                            assert(self@.reaches(c));
                        }
                        return true;
                    }
                    proof {
                        assert forall|p: AxialVector|
                            on_board(p) && #[trigger] self@.cells[p] == CellState::Occupied(next)
                                implies !walked(
                                c,
                                p,
                                ring_radius as int,
                                edge_direction as int,
                                edge_index + 1,
                            ) by {
                            let dq = p.q - c.q;
                            let dr = p.r - c.r;
                            if hex_length(dq, dr) == ring_radius {
                                lemma_ring_edge_inverse(ring_radius as int, dq, dr);
                            }
                        }
                    }
                    hex = hex + AxialVector::direction(edge_direction);
                    edge_index = edge_index + 1;
                }
                proof {
                    assert forall|p: AxialVector|
                        on_board(p) && #[trigger] self@.cells[p] == CellState::Occupied(next)
                            implies !walked(c, p, ring_radius as int, edge_direction + 1, 0) by {
                        let dq = p.q - c.q;
                        let dr = p.r - c.r;
                        if hex_length(dq, dr) == ring_radius {
                            lemma_ring_edge_inverse(ring_radius as int, dq, dr);
                        }
                    }
                }
                edge_direction = edge_direction + 1;
            }
            proof {
                assert forall|p: AxialVector|
                    on_board(p) && #[trigger] self@.cells[p] == CellState::Occupied(next)
                        implies !walked(c, p, ring_radius + 1, 0, 0) by {
                    let dq = p.q - c.q;
                    let dr = p.r - c.r;
                    if hex_length(dq, dr) == ring_radius {
                        lemma_ring_edge_inverse(ring_radius as int, dq, dr);
                    }
                }
            }
            ring_radius = ring_radius + 1;
        }
        false
    }

    /// `None` while the game goes on, else who won.
    pub fn result(&self) -> (r: Option<GameResult>)
        ensures
            r == self@.spec_result(),
    {
        proof {
            use_type_invariant(self);
        }
        let next = self.next_move;
        let mut t: usize = 0;
        while t < 81
            invariant
                self.field.wf(),
                self.field.size() == BOARD_SIZE,
                next == self@.next,
                t <= 81,
                forall|e: AxialVector|
                    on_board(e) && scan_index(e) < t && #[trigger] self@.cells[e] == CellState::Empty
                        ==> !self@.reaches(e),
            decreases 81 - t,
        {
            let c = scan_step(t);
            proof {
                lemma_scan_index(t as int);
            }
            if self.field.is_in_bounds(c) && self.field.get(c) == Some(CellState::Empty) {
                if self.reaches_piece(c) {
                    return None;
                }
                assert(!self@.reaches(c));
            }
            t = t + 1;
        }
        proof {
            assert forall|e: AxialVector|
                on_board(e) && #[trigger] self@.cells[e] == CellState::Empty implies !self@.reaches(e) by {
                lemma_scan_covers(e);
            }
        }
        let scores = self.scores();
        if scores.pearls < scores.rubies {
            Some(GameResult::Win(Player::Rubies))
        } else if scores.pearls == scores.rubies {
            Some(GameResult::Tie)
        } else {
            Some(GameResult::Win(Player::Pearls))
        }
    }
}


impl Clone for GameState {
    fn clone(&self) -> (r: GameState)
        ensures
            r@ == self@,
    {
        proof {
            use_type_invariant(self);
        }
        GameState { next_move: self.next_move, field: self.field.clone() }
    }
}

impl Default for GameState {
    fn default() -> (r: GameState)
        ensures
            r@ == initial_view(),
    {
        GameState::initialize()
    }
}

impl HexxagonView {
    pub open spec fn spec_reward(self) -> Rewards {
        match self.spec_result() {
            Some(GameResult::Win(Player::Rubies)) => Rewards::spec_win(PlayerIndex::Zero),
            Some(GameResult::Win(Player::Pearls)) => Rewards::spec_win(PlayerIndex::One),
            _ => Rewards::spec_tie(),
        }
    }
}

/// Rubies sit in seat Zero, Pearls in seat One.
pub open spec fn seat(p: Player) -> PlayerIndex {
    match p {
        Player::Rubies => PlayerIndex::Zero,
        Player::Pearls => PlayerIndex::One,
    }
}

impl GameStateTrait<HexxagonMove> for GameState {
    open spec fn spec_is_final(s: HexxagonView) -> bool {
        s.spec_result() is Some
    }

    open spec fn spec_actions(s: HexxagonView) -> Seq<HexxagonMove> {
        s.actions()
    }

    open spec fn spec_reward(s: HexxagonView) -> Rewards {
        s.spec_reward()
    }

    open spec fn spec_next_player(s: HexxagonView) -> PlayerIndex {
        seat(s.next)
    }

    fn is_final(&self) -> (r: bool) {
        self.result().is_some()
    }

    fn get_actions(&self) -> (r: Vec<HexxagonMove>) {
        proof {
            use_type_invariant(self);
            lemma_final_iff_no_actions(self@);
        }
        all_moves(self)
    }

    fn reward(&self) -> (r: Rewards) {
        match self.result() {
            Some(GameResult::Tie) => Rewards::tie(),
            Some(GameResult::Win(Player::Rubies)) => Rewards::win(PlayerIndex::Zero),
            Some(GameResult::Win(Player::Pearls)) => Rewards::win(PlayerIndex::One),
            None => Rewards::tie(),
        }
    }

    fn next_player(&self) -> (r: PlayerIndex) {
        match self.next_player() {
            Player::Rubies => PlayerIndex::Zero,
            Player::Pearls => PlayerIndex::One,
        }
    }
}

/// The rules of Hexxagon.
#[derive(Clone, Copy, Debug)]
pub struct HexxagonRules {}

impl GameRules for HexxagonRules {
    type Action = HexxagonMove;

    type State = GameState;

    const N_PLAYERS: u32 = 2;

    open spec fn spec_play(s: HexxagonView, a: HexxagonMove) -> HexxagonView {
        s.after(a.src, a.dst)
    }

    fn play(initial_state: &GameState, action: &HexxagonMove) -> (r: GameState) {
        proof {
            use_type_invariant(initial_state);
            let i = choose|i: int|
                0 <= i < initial_state@.actions().len() && initial_state@.actions()[i] == *action;
            lemma_moves_upto_legal(initial_state@, 81, i);
        }
        let mut new_state = initial_state.clone();
        new_state.player_move(action.src, action.dst);
        new_state
    }
}

/// Values a position by the piece difference, Rubies minus Pearls.
#[derive(Clone, Copy, Debug)]
pub struct HexxagonEvaluator {}

impl Evaluator for HexxagonEvaluator {
    type Rules = HexxagonRules;

    open spec fn spec_value(&self, s: HexxagonView) -> int {
        s.count(Player::Rubies) - s.count(Player::Pearls)
    }

    fn value(&self, state: &GameState) -> (r: i64) {
        let scores = state.scores();
        scores.rubies as i64 - scores.pearls as i64
    }
}


impl HexxagonRules {
    /// Plays random moves drawn by `sample_valid_move` until the game is
    /// over and returns the final rewards; a playout cut off after
    /// `MAX_ROLLOUT_PLIES` plies scores as a tie.
    pub fn random_rollout(initial_state: &GameState) -> (r: Rewards)
        ensures
            r.is_outcome(),
            is_playout_result::<HexxagonRules>(initial_state@, r),
            initial_state@.spec_result() is Some ==> r == initial_state@.spec_reward(),
    {
        let mut state = initial_state.clone();
        let mut plies: u64 = 0;
        let ghost mut path: Seq<HexxagonView> = seq![initial_state@];
        let ghost mut acts: Seq<HexxagonMove> = Seq::empty();
        assert(is_play::<HexxagonRules>(path, acts));
        while plies < MAX_ROLLOUT_PLIES && !state.is_final()
            invariant
                plies == 0 ==> state@ == initial_state@,
                initial_state@.spec_result() is Some ==> plies == 0,
                is_play::<HexxagonRules>(path, acts),
                path[0] == initial_state@,
                path.last() == state@,
                acts.len() == plies,
            decreases MAX_ROLLOUT_PLIES - plies,
        {
            let random_move = sample_valid_move(&state);
            proof {
                lemma_play_push::<HexxagonRules>(path, acts, random_move);
                path = path.push(state@.after(random_move.src, random_move.dst));
                acts = acts.push(random_move);
            }
            proof {
                lemma_scan_covers(random_move.src);
                lemma_scan_covers(random_move.dst);
                lemma_scan_index(scan_index(random_move.src));
                lemma_scan_index(scan_index(random_move.dst));
            }
            state.player_move(random_move.src, random_move.dst);
            plies = plies + 1;
        }
        if state.is_final() {
            state.reward()
        } else {
            Rewards::tie()
        }
    }
}

/// The rewards of a position hand out exactly one win's worth.
pub proof fn lemma_reward_is_outcome(v: HexxagonView)
    ensures
        v.spec_reward().is_outcome(),
{
}

/// Taking the opponent twice gives back the player.
pub proof fn lemma_opponent_involutive(p: Player)
    ensures
        p.spec_opponent().spec_opponent() == p,
{
}

/// The board has finitely many cells.
pub proof fn lemma_board_finite()
    ensures
        Set::new(|c: AxialVector| on_board(c)).finite(),
{
    lemma_int_range(0, 81);
    set_int_range(0, 81).lemma_map_finite(|t: int| scan_coord(t));
    let all = set_int_range(0, 81).map(|t: int| scan_coord(t));
    let board = Set::new(|c: AxialVector| on_board(c));
    assert forall|c: AxialVector| #[trigger] board.contains(c) implies all.contains(c) by {
        lemma_scan_covers(c);
        assert(set_int_range(0, 81).contains(scan_index(c)));
    }
    lemma_set_subset_finite(all, board);
}

impl HexxagonView {
    /// The opposing pieces next to `to`, which a move onto `to` takes.
    pub open spec fn captured(self, to: AxialVector) -> Set<AxialVector> {
        self.pieces(self.next.spec_opponent()).filter(|c: AxialVector| distance(to, c) == 1)
    }
}

/// Piece counts after a legal move: the opponent loses exactly the pieces
/// taken next to the target; the mover gains them, plus the new piece on a
/// step (on a jump the piece only moves). So the mover never loses pieces and
/// the opponent never gains any.
pub proof fn lemma_move_counts(v: HexxagonView, from: AxialVector, to: AxialVector)
    requires
        v.wf(),
        v.is_legal(from, to),
    ensures
        v.after(from, to).count(v.next.spec_opponent()) == v.count(v.next.spec_opponent()) - v.captured(
            to,
        ).len(),
        v.after(from, to).count(v.next) == v.count(v.next) + v.captured(to).len() + if distance(
            from,
            to,
        ) == 1 {
            1int
        } else {
            0int
        },
        v.after(from, to).count(v.next) >= v.count(v.next),
        v.after(from, to).count(v.next.spec_opponent()) <= v.count(v.next.spec_opponent()),
{
    let p = v.next;
    let o = p.spec_opponent();
    let w = v.after(from, to);
    let board = Set::new(|c: AxialVector| on_board(c));
    lemma_board_finite();
    assert(v.cells.dom() =~= board);
    assert(w.cells.dom() =~= board);
    let mine = v.pieces(p);
    let theirs = v.pieces(o);
    let taken = v.captured(to);
    lemma_set_subset_finite(board, mine);
    lemma_set_subset_finite(board, theirs);
    lemma_set_subset_finite(board, taken);
    // the opponent
    assert(w.pieces(o) =~= theirs.difference(taken));
    assert(theirs.intersect(taken) =~= taken);
    lemma_set_difference_len(theirs, taken);
    // the mover
    let kept = if distance(from, to) == 2 {
        mine.remove(from)
    } else {
        mine
    };
    lemma_set_subset_finite(board, kept);
    assert(kept.len() == mine.len() - if distance(from, to) == 2 {
        1int
    } else {
        0int
    });
    let with_to = kept.insert(to);
    assert(!kept.contains(to));
    assert(with_to.len() == kept.len() + 1);
    lemma_set_subset_finite(board, with_to);
    assert(with_to.disjoint(taken));
    lemma_set_disjoint_lens(with_to, taken);
    assert(w.pieces(p) =~= with_to + taken);
}

} // verus!
