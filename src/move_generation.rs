use smallvec::SmallVec;
use vstd::prelude::*;
use crate::hexgrid::{hex_length, AxialVector};
use crate::hexxagon::{
    distance, lemma_scan_covers, lemma_scan_index, on_board, scan_coord, scan_index, scan_step,
    CellState, GameState, HexxagonView, BOARD_SIZE,
};
use crate::random::random_below;

verus! {

/// A Hexxagon move: the piece at `src` steps or jumps to `dst`.
#[derive(Clone, Copy, Debug, Hash, PartialEq, Eq, Structural)]
pub struct HexxagonMove {
    pub src: AxialVector,
    pub dst: AxialVector,
}

/// A move together with the state it leads to.
pub struct MoveWithResult {
    pub move_: HexxagonMove,
    pub result_state: GameState,
}

/// The `k`-th of the 18 move vectors: the six of length 1, then the twelve
/// of length 2.
pub open spec fn move_vec(k: int) -> (int, int) {
    if k == 0 {
        (-1, 1)
    } else if k == 1 {
        (0, 1)
    } else if k == 2 {
        (1, 0)
    } else if k == 3 {
        (1, -1)
    } else if k == 4 {
        (0, -1)
    } else if k == 5 {
        (-1, 0)
    } else if k == 6 {
        (-2, 2)
    } else if k == 7 {
        (-1, 2)
    } else if k == 8 {
        (0, 2)
    } else if k == 9 {
        (1, 1)
    } else if k == 10 {
        (2, 0)
    } else if k == 11 {
        (2, -1)
    } else if k == 12 {
        (2, -2)
    } else if k == 13 {
        (1, -2)
    } else if k == 14 {
        (0, -2)
    } else if k == 15 {
        (-1, -1)
    } else if k == 16 {
        (-2, 0)
    } else {
        (-2, 1)
    }
}

/// The index of `(dq, dr)` among the move vectors, or 18 for none.
pub open spec fn move_index(dq: int, dr: int) -> int {
    if dq == -1 && dr == 1 {
        0
    } else if dq == 0 && dr == 1 {
        1
    } else if dq == 1 && dr == 0 {
        2
    } else if dq == 1 && dr == -1 {
        3
    } else if dq == 0 && dr == -1 {
        4
    } else if dq == -1 && dr == 0 {
        5
    } else if dq == -2 && dr == 2 {
        6
    } else if dq == -1 && dr == 2 {
        7
    } else if dq == 0 && dr == 2 {
        8
    } else if dq == 1 && dr == 1 {
        9
    } else if dq == 2 && dr == 0 {
        10
    } else if dq == 2 && dr == -1 {
        11
    } else if dq == 2 && dr == -2 {
        12
    } else if dq == 1 && dr == -2 {
        13
    } else if dq == 0 && dr == -2 {
        14
    } else if dq == -1 && dr == -1 {
        15
    } else if dq == -2 && dr == 0 {
        16
    } else if dq == -2 && dr == 1 {
        17
    } else {
        18
    }
}

/// The move vectors are exactly the vectors of length 1 or 2, each once.
pub proof fn lemma_move_vectors(dq: int, dr: int)
    ensures
        1 <= hex_length(dq, dr) <= 2 <==> move_index(dq, dr) < 18,
        move_index(dq, dr) < 18 ==> move_vec(move_index(dq, dr)) == (dq, dr),
{
}

/// Each move vector has length 1 or 2 and is found again by `move_index`.
pub proof fn lemma_move_vec(k: int)
    requires
        0 <= k < 18,
    ensures
        move_index(move_vec(k).0, move_vec(k).1) == k,
        1 <= hex_length(move_vec(k).0, move_vec(k).1) <= 2,
{
}

/// The `k`-th move vector.
fn possible_move(k: usize) -> (v: AxialVector)
    requires
        k < 18,
    ensures
        (v.q as int, v.r as int) == move_vec(k as int),
{
    match k {
        0 => AxialVector::new(-1, 1),
        1 => AxialVector::new(0, 1),
        2 => AxialVector::new(1, 0),
        3 => AxialVector::new(1, -1),
        4 => AxialVector::new(0, -1),
        5 => AxialVector::new(-1, 0),
        6 => AxialVector::new(-2, 2),
        7 => AxialVector::new(-1, 2),
        8 => AxialVector::new(0, 2),
        9 => AxialVector::new(1, 1),
        10 => AxialVector::new(2, 0),
        11 => AxialVector::new(2, -1),
        12 => AxialVector::new(2, -2),
        13 => AxialVector::new(1, -2),
        14 => AxialVector::new(0, -2),
        15 => AxialVector::new(-1, -1),
        16 => AxialVector::new(-2, 0),
        _ => AxialVector::new(-2, 1),
    }
}

/// `src` moved by the `k`-th move vector.
pub open spec fn move_target(src: AxialVector, k: int) -> AxialVector {
    AxialVector { q: (src.q + move_vec(k).0) as i32, r: (src.r + move_vec(k).1) as i32 }
}

impl HexxagonView {
    /// The moves from `src` by the first `k` move vectors that land on an
    /// empty cell of the board.
    pub open spec fn moves_from(self, src: AxialVector, k: nat) -> Seq<HexxagonMove>
        decreases k,
    {
        if k == 0 {
            Seq::empty()
        } else {
            let rest = self.moves_from(src, (k - 1) as nat);
            let dst = move_target(src, k - 1);
            if on_board(dst) && self.cells[dst] == CellState::Empty {
                rest.push(HexxagonMove { src, dst })
            } else {
                rest
            }
        }
    }

    /// The moves of the pieces of the player to move among the first `t`
    /// cells of the scan.
    pub open spec fn moves_upto(self, t: nat) -> Seq<HexxagonMove>
        decreases t,
    {
        if t == 0 {
            Seq::empty()
        } else {
            let c = scan_coord(t - 1);
            let rest = self.moves_upto((t - 1) as nat);
            if on_board(c) && self.cells[c] == CellState::Occupied(self.next) {
                rest + self.moves_from(c, 18)
            } else {
                rest
            }
        }
    }

    /// Every move of the player to move: each piece in scan order, each with
    /// the move vectors in order.
    pub open spec fn actions(self) -> Seq<HexxagonMove> {
        self.moves_upto(81)
    }
}

/// Every move listed from `src` is legal.
pub proof fn lemma_moves_from_legal(v: HexxagonView, src: AxialVector, k: nat, i: int)
    requires
        v.wf(),
        k <= 18,
        on_board(src),
        v.cells[src] == CellState::Occupied(v.next),
        0 <= i < v.moves_from(src, k).len(),
    ensures
        v.moves_from(src, k)[i].src == src,
        v.is_legal(v.moves_from(src, k)[i].src, v.moves_from(src, k)[i].dst),
    decreases k,
{
    let rest = v.moves_from(src, (k - 1) as nat);
    if i < rest.len() {
        lemma_moves_from_legal(v, src, (k - 1) as nat, i);
    } else {
        lemma_move_vec(k - 1);
        assert(-4 <= src.q <= 4 && -4 <= src.r <= 4);
    }
}

/// Every listed move is legal.
pub proof fn lemma_moves_upto_legal(v: HexxagonView, t: nat, i: int)
    requires
        v.wf(),
        t <= 81,
        0 <= i < v.moves_upto(t).len(),
    ensures
        v.is_legal(v.moves_upto(t)[i].src, v.moves_upto(t)[i].dst),
    decreases t,
{
    let c = scan_coord(t - 1);
    let rest = v.moves_upto((t - 1) as nat);
    if i < rest.len() {
        lemma_moves_upto_legal(v, (t - 1) as nat, i);
    } else {
        lemma_moves_from_legal(v, c, 18, i - rest.len());
    }
}

/// A legal move from a piece scanned before `t` is listed.
pub proof fn lemma_moves_upto_complete(v: HexxagonView, t: nat, src: AxialVector, dst: AxialVector)
    requires
        v.wf(),
        t <= 81,
        v.is_legal(src, dst),
        scan_index(src) < t,
    ensures
        v.moves_upto(t).contains(HexxagonMove { src, dst }),
    decreases t,
{
    let c = scan_coord(t - 1);
    let rest = v.moves_upto((t - 1) as nat);
    lemma_scan_covers(src);
    if scan_index(src) < t - 1 {
        lemma_moves_upto_complete(v, (t - 1) as nat, src, dst);
        let k = choose|k: int| 0 <= k < rest.len() && rest[k] == HexxagonMove { src, dst };
        if on_board(c) && v.cells[c] == CellState::Occupied(v.next) {
            assert((rest + v.moves_from(c, 18))[k] == HexxagonMove { src, dst });
        }
    } else {
        assert(c == src);
        lemma_move_vectors(dst.q - src.q, dst.r - src.r);
        let m = move_index(dst.q - src.q, dst.r - src.r);
        lemma_moves_from_complete(v, src, 18, m);
        let k = choose|k: int| 0 <= k < v.moves_from(src, 18).len() && v.moves_from(src, 18)[k] == HexxagonMove { src, dst: move_target(src, m) };
        assert(move_target(src, m) == dst);
        assert((rest + v.moves_from(c, 18))[rest.len() + k] == HexxagonMove { src, dst });
    }
}

/// Moving `src` by move vector `m < k` onto an empty cell of the board is
/// listed among its first `k` moves.
pub proof fn lemma_moves_from_complete(v: HexxagonView, src: AxialVector, k: nat, m: int)
    requires
        0 <= m < k <= 18,
        on_board(move_target(src, m)),
        v.cells[move_target(src, m)] == CellState::Empty,
    ensures
        v.moves_from(src, k).contains(HexxagonMove { src, dst: move_target(src, m) }),
    decreases k,
{
    let rest = v.moves_from(src, (k - 1) as nat);
    let x = HexxagonMove { src, dst: move_target(src, m) };
    if m < k - 1 {
        lemma_moves_from_complete(v, src, (k - 1) as nat, m);
        let j = choose|j: int| 0 <= j < rest.len() && rest[j] == x;
        let dst = move_target(src, k - 1);
        if on_board(dst) && v.cells[dst] == CellState::Empty {
            assert(rest.push(HexxagonMove { src, dst })[j] == x);
        }
    } else {
        assert(rest.push(x)[rest.len() as int] == x);
    }
}

/// A position is over exactly when the player to move has no move.
pub proof fn lemma_final_iff_no_actions(v: HexxagonView)
    requires
        v.wf(),
    ensures
        v.spec_result() is Some <==> v.actions().len() == 0,
{
    reveal(HexxagonView::reaches);
    if v.has_reachable_empty() {
        let e = choose|e: AxialVector|
            #![trigger v.cells[e]]
            on_board(e) && v.cells[e] == CellState::Empty && v.reaches(e);
        let p = choose|p: AxialVector|
            #![trigger v.cells[p]]
            on_board(p) && v.cells[p] == CellState::Occupied(v.next) && 1 <= distance(e, p) <= 2;
        assert(distance(p, e) == distance(e, p));
        lemma_scan_covers(p);
        lemma_moves_upto_complete(v, 81, p, e);
    }
    if v.actions().len() > 0 {
        lemma_moves_upto_legal(v, 81, 0);
        let a = v.actions()[0];
        assert(distance(a.dst, a.src) == distance(a.src, a.dst));
        assert(v.reaches(a.dst));
    }
}


/// Every move of the player to move in `state`: each piece in scan order,
/// with the move vectors in order, onto an empty cell of the board.
pub fn all_moves(state: &GameState) -> (moves: Vec<HexxagonMove>)
    ensures
        moves@ == state@.actions(),
        moves@.no_duplicates(),
{
    proof {
        lemma_moves_upto_distinct(state@, 81);
    }
    let field = state.get_field();
    let next = state.next_player();
    let mut moves: Vec<HexxagonMove> = Vec::new();
    let mut t: usize = 0;
    while t < 81
        invariant
            field.wf(),
            field.size() == BOARD_SIZE,
            field.cells() == state@.cells,
            next == state@.next,
            t <= 81,
            moves@ == state@.moves_upto(t as nat),
        decreases 81 - t,
    {
        let source_pos = scan_step(t);
        if field.is_in_bounds(source_pos) && field.get(source_pos) == Some(CellState::Occupied(next)) {
            let ghost before = moves@;
            let mut k: usize = 0;
            while k < 18
                invariant
                    field.wf(),
                    field.size() == BOARD_SIZE,
                    field.cells() == state@.cells,
                    on_board(source_pos),
                    source_pos.is_small(),
                    k <= 18,
                    moves@ == before + state@.moves_from(source_pos, k as nat),
                decreases 18 - k,
            {
                let move_vec = possible_move(k);
                let target = source_pos + move_vec;
                if field.is_in_bounds(target) && field.get(target) == Some(CellState::Empty) {
                    moves.push(HexxagonMove { src: source_pos, dst: target });
                }
                assert(target == move_target(source_pos, k as int));
                k = k + 1;
            }
        }
        t = t + 1;
    }
    moves
}

/// A short list of coordinates kept in smallvec's inline-first vector,
/// opaque here.
#[verifier::external_body]
pub struct SmallCoords {
    items: SmallVec<[AxialVector; 32]>,
}

/// The coordinates that a short list holds, in order.
pub uninterp spec fn small_items(v: SmallCoords) -> Seq<AxialVector>;

/// Relies on smallvec's `SmallVec::new`: an empty vector.
#[verifier::external_body]
fn small_new() -> (r: SmallCoords)
    ensures
        small_items(r) == Seq::<AxialVector>::empty(),
{
    SmallCoords { items: SmallVec::new() }
}

/// Relies on smallvec's `SmallVec::push`: appends `x`. It panics only when
/// the length would overflow.
#[verifier::external_body]
fn small_push(v: &mut SmallCoords, x: AxialVector)
    requires
        small_items(*old(v)).len() < usize::MAX,
    ensures
        small_items(*final(v)) == small_items(*old(v)).push(x),
{
    v.items.push(x)
}

/// Relies on smallvec's `SmallVec::len`: the number of items.
#[verifier::external_body]
fn small_len(v: &SmallCoords) -> (r: usize)
    ensures
        r == small_items(*v).len(),
{
    v.items.len()
}

/// Relies on smallvec's indexing: the item at `i`, which must be in range.
#[verifier::external_body]
fn small_get(v: &SmallCoords, i: usize) -> (r: AxialVector)
    requires
        i < small_items(*v).len(),
    ensures
        r == small_items(*v)[i as int],
{
    v.items[i]
}

/// Relies on smallvec's `SmallVec::swap_remove`: removes the item at `i`,
/// which must be in range, and puts the last item in its place.
#[verifier::external_body]
fn small_swap_remove(v: &mut SmallCoords, i: usize) -> (r: AxialVector)
    requires
        i < small_items(*old(v)).len(),
    ensures
        r == small_items(*old(v))[i as int],
        small_items(*final(v)) == small_items(*old(v)).update(i as int, small_items(*old(v)).last()).drop_last(),
{
    v.items.swap_remove(i)
}

/// `src` has a legal move.
pub open spec fn can_move_from(v: HexxagonView, src: AxialVector) -> bool {
    exists|k: int| 0 <= k < 18 && v.is_legal(src, #[trigger] move_target(src, k))
}

/// A random legal move of the player to move: a random piece, redrawn while
/// it has no move, then a random target among its moves.
pub fn sample_valid_move(gamestate: &GameState) -> (m: HexxagonMove)
    requires
        gamestate@.spec_result() is None,
    ensures
        gamestate@.is_legal(m.src, m.dst),
        gamestate@.actions().contains(m),
{
    proof {
        reveal(HexxagonView::reaches);
    }
    let field = gamestate.get_field();
    let next = gamestate.next_player();
    let ghost v = gamestate@;
    // a witness: a piece that can move
    let ghost e = choose|e: AxialVector|
        #![trigger v.cells[e]]
        on_board(e) && v.cells[e] == CellState::Empty && v.reaches(e);
    let ghost p = choose|p: AxialVector|
        #![trigger v.cells[p]]
        on_board(p) && v.cells[p] == CellState::Occupied(v.next) && 1 <= distance(e, p) <= 2;
    proof {
        assert(distance(p, e) == distance(e, p));
        lemma_move_vectors(e.q - p.q, e.r - p.r);
        assert(move_target(p, move_index(e.q - p.q, e.r - p.r)) == e);
        assert(can_move_from(v, p));
    }
    let mut possible_sources = small_new();
    let mut t: usize = 0;
    while t < 81
        invariant
            field.wf(),
            field.size() == BOARD_SIZE,
            field.cells() == v.cells,
            next == v.next,
            v.wf(),
            t <= 81,
            small_items(possible_sources).len() <= t,
            forall|i: int|
                0 <= i < small_items(possible_sources).len() ==> on_board(
                    #[trigger] small_items(possible_sources)[i],
                ) && v.cells[small_items(possible_sources)[i]] == CellState::Occupied(next),
            on_board(p),
            v.cells[p] == CellState::Occupied(v.next),
            v == gamestate@,
            scan_index(p) < t ==> small_items(possible_sources).contains(p),
        decreases 81 - t,
    {
        let c = scan_step(t);
        proof {
            lemma_scan_index(t as int);
            lemma_scan_covers(p);
        }
        if field.is_in_bounds(c) && field.get(c) == Some(CellState::Occupied(next)) {
            let ghost old_items = small_items(possible_sources);
            small_push(&mut possible_sources, c);
            proof {
                let items = small_items(possible_sources);
                assert(items[items.len() - 1] == c);
                if scan_index(p) < t {
                    let j = choose|j: int| 0 <= j < old_items.len() && old_items[j] == p;
                    assert(items[j] == p);
                } else if scan_index(p) == t {
                    assert(items[items.len() - 1] == p);
                    assert(items.contains(p));
                }
            }
        }
        t = t + 1;
    }
    proof {
        lemma_scan_covers(p);
    }
    while small_len(&possible_sources) > 0
        invariant
            field.wf(),
            field.size() == BOARD_SIZE,
            field.cells() == v.cells,
            next == v.next,
            v.wf(),
            forall|i: int|
                0 <= i < small_items(possible_sources).len() ==> on_board(
                    #[trigger] small_items(possible_sources)[i],
                ) && v.cells[small_items(possible_sources)[i]] == CellState::Occupied(next),
            v == gamestate@,
            exists|i: int|
                0 <= i < small_items(possible_sources).len() && can_move_from(
                    v,
                    #[trigger] small_items(possible_sources)[i],
                ),
        decreases small_items(possible_sources).len(),
    {
        let ghost before = small_items(possible_sources);
        let source_index = random_below(small_len(&possible_sources));
        let selected_source = small_swap_remove(&mut possible_sources, source_index);
        let mut possible_destinations = small_new();
        let mut k: usize = 0;
        while k < 18
            invariant
                field.wf(),
                field.size() == BOARD_SIZE,
                field.cells() == v.cells,
                next == v.next,
                v.wf(),
                on_board(selected_source),
                v.cells[selected_source] == CellState::Occupied(next),
                k <= 18,
                small_items(possible_destinations).len() <= k,
                forall|i: int|
                    0 <= i < small_items(possible_destinations).len() ==> v.is_legal(
                        selected_source,
                        #[trigger] small_items(possible_destinations)[i],
                    ),
                forall|j: int|
                    0 <= j < k && v.is_legal(selected_source, #[trigger] move_target(selected_source, j))
                        ==> small_items(possible_destinations).len() > 0,
            decreases 18 - k,
        {
            let hex = selected_source + possible_move(k);
            proof {
                lemma_move_vec(k as int);
                assert(hex == move_target(selected_source, k as int));
            }
            if field.is_in_bounds(hex) && field.get(hex) == Some(CellState::Empty) {
                small_push(&mut possible_destinations, hex);
                proof {
                    let items = small_items(possible_destinations);
                    assert(items[items.len() - 1] == hex);
                    assert forall|i: int| 0 <= i < items.len() implies v.is_legal(
                        selected_source,
                        #[trigger] items[i],
                    ) by {
                        if i < items.len() - 1 {
                            assert(items[i] == items.drop_last()[i]);
                        }
                    }
                }
            }
            k = k + 1;
        }
        if small_len(&possible_destinations) == 0 {
            proof {
                let after = small_items(possible_sources);
                let i = choose|i: int| 0 <= i < before.len() && can_move_from(v, #[trigger] before[i]);
                if i != source_index {
                    if i == before.len() - 1 {
                        assert(after[source_index as int] == before[i]);
                    } else {
                        assert(after[i] == before[i]);
                    }
                }
            }
            continue;
        }
        let destination_index = random_below(small_len(&possible_destinations));
        let selected_destination = small_get(&possible_destinations, destination_index);
        let m = HexxagonMove { src: selected_source, dst: selected_destination };
        proof {
            lemma_scan_covers(m.src);
            lemma_moves_upto_complete(v, 81, m.src, m.dst);
        }
        return m;
    }
    proof {
        assert(false);
    }
    HexxagonMove { src: AxialVector::new(0, 0), dst: AxialVector::new(0, 0) }
}

/// The moves listed from `src` go to distinct targets, each `src` moved by
/// one of the first `k` move vectors.
pub proof fn lemma_moves_from_distinct(v: HexxagonView, src: AxialVector, k: nat)
    requires
        k <= 18,
        src.is_small(),
    ensures
        v.moves_from(src, k).no_duplicates(),
        forall|i: int|
            0 <= i < v.moves_from(src, k).len() ==> (#[trigger] v.moves_from(src, k)[i]).src == src
                && exists|m: int| 0 <= m < k && v.moves_from(src, k)[i].dst == move_target(src, m),
    decreases k,
{
    if k > 0 {
        lemma_moves_from_distinct(v, src, (k - 1) as nat);
        let rest = v.moves_from(src, (k - 1) as nat);
        let dst = move_target(src, k - 1);
        if on_board(dst) && v.cells[dst] == CellState::Empty {
            let x = HexxagonMove { src, dst };
            let all = rest.push(x);
            assert forall|i: int| 0 <= i < rest.len() implies all[i] != x by {
                let m = choose|m: int| 0 <= m < k - 1 && rest[i].dst == move_target(src, m);
                lemma_move_vec(m);
                lemma_move_vec(k - 1);
            }
            assert forall|i: int, j: int| 0 <= i < j < all.len() implies all[i] != all[j] by {
                if j < rest.len() {
                    assert(all[i] == rest[i] && all[j] == rest[j]);
                }
            }
            assert forall|i: int| 0 <= i < all.len() implies (#[trigger] all[i]).src == src
                && exists|m: int| 0 <= m < k && all[i].dst == move_target(src, m) by {
                if i < rest.len() {
                    assert(all[i] == rest[i]);
                } else {
                    assert(all[i].dst == move_target(src, k - 1));
                }
            }
        }
    }
}

/// The moves listed up to step `t` of the scan are distinct, and each starts
/// from a cell scanned before `t`.
pub proof fn lemma_moves_upto_distinct(v: HexxagonView, t: nat)
    requires
        t <= 81,
    ensures
        v.moves_upto(t).no_duplicates(),
        forall|i: int|
            0 <= i < v.moves_upto(t).len() ==> scan_index((#[trigger] v.moves_upto(t)[i]).src) < t,
    decreases t,
{
    if t > 0 {
        lemma_moves_upto_distinct(v, (t - 1) as nat);
        let c = scan_coord(t - 1);
        let rest = v.moves_upto((t - 1) as nat);
        lemma_scan_index(t - 1);
        if on_board(c) && v.cells[c] == CellState::Occupied(v.next) {
            lemma_moves_from_distinct(v, c, 18);
            let more = v.moves_from(c, 18);
            let all = rest + more;
            assert forall|i: int| 0 <= i < all.len() implies scan_index((#[trigger] all[i]).src) < t by {
                if i < rest.len() {
                    assert(all[i] == rest[i]);
                } else {
                    assert(all[i] == more[i - rest.len()]);
                }
            }
            assert forall|i: int, j: int| 0 <= i < j < all.len() implies all[i] != all[j] by {
                if j < rest.len() {
                    assert(all[i] == rest[i] && all[j] == rest[j]);
                } else if i >= rest.len() {
                    assert(all[i] == more[i - rest.len()] && all[j] == more[j - rest.len()]);
                } else {
                    assert(all[i] == rest[i] && all[j] == more[j - rest.len()]);
                }
            }
        }
    }
}

} // verus!
