//! Mathematical model of the game: snapshots of the visible state, replay
//! of a recorded history, the intent transition functions, and the events
//! each intent emits. The executable types in `game` are verified against
//! these definitions.

use vstd::prelude::*;
use crate::common::{Message, obs_extended};
use crate::game::BoardPiece;

verus! {

/// Mathematical mirror of a recorded move: coordinates and the color that
/// made it.
#[verifier::ext_equal]
pub ghost struct Move {
    pub row: int,
    pub col: int,
    pub player: BoardPiece,
}

/// Mathematical snapshot of the visible game state: the 5x5 board, whose
/// turn it is, and how many pieces each color has on the board.
#[verifier::ext_equal]
pub ghost struct Snapshot {
    pub board: Seq<Seq<BoardPiece>>,
    pub turn: BoardPiece,
    pub red_drops: int,
    pub black_drops: int,
}

/// The other player's color; leaves `Empty` alone.
pub open spec fn flip(p: BoardPiece) -> BoardPiece {
    match p {
        BoardPiece::Red => BoardPiece::Black,
        BoardPiece::Black => BoardPiece::Red,
        BoardPiece::Empty => BoardPiece::Empty,
    }
}

pub open spec fn empty_board() -> Seq<Seq<BoardPiece>> {
    Seq::new(5, |r: int| Seq::new(5, |c: int| BoardPiece::Empty))
}

/// A fresh game: empty board, red to move, nothing dropped.
pub open spec fn init_snapshot() -> Snapshot {
    Snapshot {
        board: empty_board(),
        turn: BoardPiece::Red,
        red_drops: 0,
        black_drops: 0,
    }
}

pub open spec fn drops_of(s: Snapshot, p: BoardPiece) -> int {
    match p {
        BoardPiece::Red => s.red_drops,
        BoardPiece::Black => s.black_drops,
        BoardPiece::Empty => 0,
    }
}

/// What applying a move does, unconditionally: count it for its player,
/// put its color on its cell, pass the turn.
pub open spec fn apply_move(s: Snapshot, m: Move) -> Snapshot {
    Snapshot {
        board: s.board.update(m.row, s.board[m.row].update(m.col, m.player)),
        turn: flip(s.turn),
        red_drops: s.red_drops + if m.player == BoardPiece::Red { 1int } else { 0int },
        black_drops: s.black_drops + if m.player == BoardPiece::Black { 1int } else { 0int },
    }
}

/// What reversing a move does: the exact inverse of `apply_move`, guarded
/// so that a player's count never goes below zero.
pub open spec fn revert_move(s: Snapshot, m: Move) -> Snapshot {
    if drops_of(s, m.player) == 0 {
        s
    } else {
        Snapshot {
            board: s.board.update(m.row, s.board[m.row].update(m.col, BoardPiece::Empty)),
            turn: flip(s.turn),
            red_drops: s.red_drops - if m.player == BoardPiece::Red { 1int } else { 0int },
            black_drops: s.black_drops - if m.player == BoardPiece::Black { 1int } else { 0int },
        }
    }
}

/// The state reached by applying the first `n` recorded moves to a fresh
/// game.
pub open spec fn replay(moves: Seq<Move>, n: int) -> Snapshot
    decreases n,
{
    if n <= 0 {
        init_snapshot()
    } else {
        apply_move(replay(moves, n - 1), moves[n - 1])
    }
}

/// A move is accepted in a snapshot when it is on the board, its cell is
/// empty, and the player whose turn it is has pieces left to drop. The cap
/// is checked against the snapshot's turn, not the move's own color.
pub open spec fn move_allowed(s: Snapshot, m: Move) -> bool {
    &&& 0 <= m.row <= 4
    &&& 0 <= m.col <= 4
    &&& s.board[m.row][m.col] == BoardPiece::Empty
    &&& (s.turn == BoardPiece::Red ==> s.red_drops < 4)
    &&& (s.turn == BoardPiece::Black ==> s.black_drops < 4)
}

/// A history is coherent when each recorded move was allowed at its point
/// and was made by the player whose turn it then was.
pub open spec fn coherent_history(moves: Seq<Move>) -> bool {
    forall|i: int| 0 <= i < moves.len() ==> {
        &&& (#[trigger] moves[i]).player == replay(moves, i).turn
        &&& move_allowed(replay(moves, i), moves[i])
    }
}

/// Occurrences of `p` among the first `n` cells of one row.
pub open spec fn row_count(row: Seq<BoardPiece>, p: BoardPiece, n: int) -> int
    decreases n,
{
    if n <= 0 {
        0
    } else {
        row_count(row, p, n - 1) + if row[n - 1] == p { 1int } else { 0int }
    }
}

/// Occurrences of `p` in the first `rows` full rows of the board.
pub open spec fn grid_count_upto(b: Seq<Seq<BoardPiece>>, p: BoardPiece, rows: int) -> int
    decreases rows,
{
    if rows <= 0 {
        0
    } else {
        grid_count_upto(b, p, rows - 1) + row_count(b[rows - 1], p, 5)
    }
}

/// Occurrences of `p` on the whole 5x5 board.
pub open spec fn grid_count(b: Seq<Seq<BoardPiece>>, p: BoardPiece) -> int {
    grid_count_upto(b, p, 5)
}

/// What holds of every snapshot the public operations can produce: the
/// board is 5x5, someone is to move, and each color's drop count equals
/// the number of its pieces on the board and stays within the cap.
pub open spec fn snapshot_inv(s: Snapshot) -> bool {
    &&& s.board.len() == 5
    &&& forall|r: int| 0 <= r < 5 ==> (#[trigger] s.board[r]).len() == 5
    &&& (s.turn == BoardPiece::Red || s.turn == BoardPiece::Black)
    &&& s.red_drops == grid_count(s.board, BoardPiece::Red)
    &&& s.black_drops == grid_count(s.board, BoardPiece::Black)
    &&& 0 <= s.red_drops <= 4
    &&& 0 <= s.black_drops <= 4
}

/// The abstract history: the recorded moves and the cursor that separates
/// the applied past from the redoable future.
#[verifier::ext_equal]
pub ghost struct Timeline {
    pub moves: Seq<Move>,
    pub pos: int,
}

pub open spec fn init_timeline() -> Timeline {
    Timeline { moves: Seq::empty(), pos: 0 }
}

/// The cursor stays within the history and the history is coherent.
pub open spec fn timeline_inv(t: Timeline) -> bool {
    &&& 0 <= t.pos <= t.moves.len()
    &&& coherent_history(t.moves)
}

/// The snapshot currently on the board: the first `pos` moves replayed.
pub open spec fn cur(t: Timeline) -> Snapshot {
    replay(t.moves, t.pos)
}

/// A placement intent: if the move is allowed it discards the redoable
/// tail, records the move and advances the cursor; otherwise nothing
/// changes.
pub open spec fn intent_drop(t: Timeline, row: int, col: int) -> Timeline {
    let m = Move { row, col, player: cur(t).turn };
    if move_allowed(cur(t), m) {
        Timeline { moves: t.moves.take(t.pos).push(m), pos: t.pos + 1 }
    } else {
        t
    }
}

/// A redo intent: advances the cursor when a redoable move exists.
pub open spec fn intent_redo(t: Timeline) -> Timeline {
    if t.pos < t.moves.len() {
        Timeline { moves: t.moves, pos: t.pos + 1 }
    } else {
        t
    }
}

/// An undo intent: retreats the cursor when an applied move exists.
pub open spec fn intent_undo(t: Timeline) -> Timeline {
    if t.pos > 0 {
        Timeline { moves: t.moves, pos: t.pos - 1 }
    } else {
        t
    }
}

/// How the model reacts to one message from its mailbox.
pub open spec fn dispatch(t: Timeline, m: Message) -> Timeline {
    match m {
        Message::DropPiece(row, col) => intent_drop(t, row as int, col as int),
        Message::DoMove => intent_redo(t),
        Message::UndoMove => intent_undo(t),
    }
}

/// The events published while dispatching one message: exactly one event
/// on a state-changing transition, none on a rejected or boundary intent.
pub open spec fn emit_one(t: Timeline, m: Message) -> Seq<Message> {
    match m {
        Message::DropPiece(row, col) => {
            let mv = Move { row: row as int, col: col as int, player: cur(t).turn };
            if move_allowed(cur(t), mv) {
                seq![Message::DoMove]
            } else {
                Seq::empty()
            }
        },
        Message::DoMove => if t.pos < t.moves.len() {
            seq![Message::DoMove]
        } else {
            Seq::empty()
        },
        Message::UndoMove => if t.pos > 0 {
            seq![Message::UndoMove]
        } else {
            Seq::empty()
        },
    }
}

/// The timeline after dispatching a whole message sequence in order.
pub open spec fn run(t: Timeline, ms: Seq<Message>) -> Timeline
    decreases ms.len(),
{
    if ms.len() <= 0 {
        t
    } else {
        run(dispatch(t, ms[0]), ms.drop_first())
    }
}

/// All events published while dispatching a whole message sequence.
pub open spec fn run_emit(t: Timeline, ms: Seq<Message>) -> Seq<Message>
    decreases ms.len(),
{
    if ms.len() <= 0 {
        Seq::empty()
    } else {
        emit_one(t, ms[0]) + run_emit(dispatch(t, ms[0]), ms.drop_first())
    }
}

/// Occurrences of `m` in a message sequence.
pub open spec fn count_msg(ms: Seq<Message>, m: Message) -> int
    decreases ms.len(),
{
    if ms.len() <= 0 {
        0
    } else {
        (if ms[0] == m { 1int } else { 0int }) + count_msg(ms.drop_first(), m)
    }
}

/// Counting over a prefix only reads that prefix.
pub proof fn lemma_row_count_congruence(a: Seq<BoardPiece>, b: Seq<BoardPiece>, p: BoardPiece, n: int)
    requires
        forall|i: int| 0 <= i < n ==> a[i] == b[i],
    ensures
        row_count(a, p, n) == row_count(b, p, n),
    decreases n,
{
    if n > 0 {
        lemma_row_count_congruence(a, b, p, n - 1);
    }
}

/// Rewriting one cell of a row shifts the row's count by the difference
/// between the new and the old occupant.
pub proof fn lemma_row_count_update(row: Seq<BoardPiece>, p: BoardPiece, c: int, v: BoardPiece, n: int)
    requires
        0 <= c < n <= row.len(),
    ensures
        row_count(row.update(c, v), p, n) == row_count(row, p, n)
            - (if row[c] == p { 1int } else { 0int })
            + (if v == p { 1int } else { 0int }),
    decreases n,
{
    let upd = row.update(c, v);
    if c == n - 1 {
        lemma_row_count_congruence(upd, row, p, n - 1);
    } else {
        lemma_row_count_update(row, p, c, v, n - 1);
        assert(upd[n - 1] == row[n - 1]);
    }
}

/// Counting over the first rows only reads those rows.
pub proof fn lemma_grid_count_congruence(
    a: Seq<Seq<BoardPiece>>,
    b: Seq<Seq<BoardPiece>>,
    p: BoardPiece,
    rows: int,
)
    requires
        forall|r: int| 0 <= r < rows ==> a[r] == b[r],
    ensures
        grid_count_upto(a, p, rows) == grid_count_upto(b, p, rows),
    decreases rows,
{
    if rows > 0 {
        lemma_grid_count_congruence(a, b, p, rows - 1);
    }
}

proof fn lemma_grid_count_upto_update(
    b: Seq<Seq<BoardPiece>>,
    p: BoardPiece,
    r: int,
    c: int,
    v: BoardPiece,
    rows: int,
)
    requires
        b.len() == 5,
        0 <= c < 5,
        0 <= r < rows <= 5,
        (b[r]).len() == 5,
    ensures
        grid_count_upto(b.update(r, b[r].update(c, v)), p, rows) == grid_count_upto(b, p, rows)
            - (if b[r][c] == p { 1int } else { 0int })
            + (if v == p { 1int } else { 0int }),
    decreases rows,
{
    let upd = b.update(r, b[r].update(c, v));
    if r == rows - 1 {
        lemma_grid_count_congruence(upd, b, p, rows - 1);
        lemma_row_count_update(b[r], p, c, v, 5);
    } else {
        lemma_grid_count_upto_update(b, p, r, c, v, rows - 1);
        assert(upd[rows - 1] == b[rows - 1]);
    }
}

/// Rewriting one cell of the board shifts the board's count by the
/// difference between the new and the old occupant.
pub proof fn lemma_grid_count_update(
    b: Seq<Seq<BoardPiece>>,
    p: BoardPiece,
    r: int,
    c: int,
    v: BoardPiece,
)
    requires
        b.len() == 5,
        0 <= r < 5,
        0 <= c < 5,
        (b[r]).len() == 5,
    ensures
        grid_count(b.update(r, b[r].update(c, v)), p) == grid_count(b, p)
            - (if b[r][c] == p { 1int } else { 0int })
            + (if v == p { 1int } else { 0int }),
{
    lemma_grid_count_upto_update(b, p, r, c, v, 5);
}

proof fn lemma_row_count_absent(row: Seq<BoardPiece>, p: BoardPiece, n: int)
    requires
        forall|i: int| 0 <= i < n ==> row[i] != p,
    ensures
        row_count(row, p, n) == 0,
    decreases n,
{
    if n > 0 {
        lemma_row_count_absent(row, p, n - 1);
    }
}

proof fn lemma_grid_count_upto_absent(b: Seq<Seq<BoardPiece>>, p: BoardPiece, rows: int)
    requires
        forall|r: int, c: int| 0 <= r < rows && 0 <= c < 5 ==> b[r][c] != p,
    ensures
        grid_count_upto(b, p, rows) == 0,
    decreases rows,
{
    if rows > 0 {
        lemma_grid_count_upto_absent(b, p, rows - 1);
        lemma_row_count_absent(b[rows - 1], p, 5);
    }
}

/// A fresh game satisfies the state invariant.
pub proof fn lemma_init_inv()
    ensures
        snapshot_inv(init_snapshot()),
{
    lemma_grid_count_upto_absent(empty_board(), BoardPiece::Red, 5);
    lemma_grid_count_upto_absent(empty_board(), BoardPiece::Black, 5);
}

/// Applying an allowed move made by the player to move keeps the state
/// invariant: the drop counts keep matching the board and stay capped.
pub proof fn lemma_apply_preserves_inv(s: Snapshot, m: Move)
    requires
        snapshot_inv(s),
        move_allowed(s, m),
        m.player == s.turn,
    ensures
        snapshot_inv(apply_move(s, m)),
{
    let s1 = apply_move(s, m);
    lemma_grid_count_update(s.board, BoardPiece::Red, m.row, m.col, m.player);
    lemma_grid_count_update(s.board, BoardPiece::Black, m.row, m.col, m.player);
    assert(forall|r: int| 0 <= r < 5 ==> (#[trigger] s1.board[r]).len() == 5);
}

/// Replaying a prefix only reads that prefix.
pub proof fn lemma_replay_prefix(a: Seq<Move>, b: Seq<Move>, n: int)
    requires
        forall|i: int| 0 <= i < n ==> a[i] == b[i],
    ensures
        replay(a, n) == replay(b, n),
    decreases n,
{
    if n > 0 {
        lemma_replay_prefix(a, b, n - 1);
    }
}

/// Every state reached by replaying a coherent history satisfies the
/// state invariant.
pub proof fn lemma_replay_inv(moves: Seq<Move>, n: int)
    requires
        coherent_history(moves),
        0 <= n <= moves.len(),
    ensures
        snapshot_inv(replay(moves, n)),
    decreases n,
{
    if n == 0 {
        lemma_init_inv();
    } else {
        lemma_replay_inv(moves, n - 1);
        assert(moves[n - 1].player == replay(moves, n - 1).turn);
        lemma_apply_preserves_inv(replay(moves, n - 1), moves[n - 1]);
    }
}

/// After `n` moves of a game that starts with red, it is red's turn
/// exactly when `n` is even: the turn passes on every applied move.
pub proof fn lemma_turn_parity(moves: Seq<Move>, n: int)
    requires
        0 <= n,
    ensures
        replay(moves, n).turn == if n % 2 == 0 { BoardPiece::Red } else { BoardPiece::Black },
    decreases n,
{
    if n > 0 {
        lemma_turn_parity(moves, n - 1);
    }
}

/// Reversing a move right after applying it restores the state it was
/// applied in, provided the move was allowed there and made by the player
/// to move.
pub proof fn lemma_revert_apply(s: Snapshot, m: Move)
    requires
        snapshot_inv(s),
        move_allowed(s, m),
        m.player == s.turn,
    ensures
        revert_move(apply_move(s, m), m) == s,
{
    let s1 = apply_move(s, m);
    assert(drops_of(s1, m.player) == drops_of(s, m.player) + 1);
    assert(s1.board[m.row] =~= s.board[m.row].update(m.col, m.player));
    assert(s1.board[m.row].update(m.col, BoardPiece::Empty) =~= s.board[m.row]);
    assert(revert_move(s1, m).board =~~= s.board);
    assert(revert_move(s1, m) =~~= s);
}

/// A placement intent keeps the timeline invariant: the truncated history
/// plus the new move is again coherent.
pub proof fn lemma_intent_drop_inv(t: Timeline, row: int, col: int)
    requires
        timeline_inv(t),
    ensures
        timeline_inv(intent_drop(t, row, col)),
{
    let mv = Move { row, col, player: cur(t).turn };
    if move_allowed(cur(t), mv) {
        let new_moves = t.moves.take(t.pos).push(mv);
        assert forall|i: int| 0 <= i < new_moves.len() implies {
            &&& (#[trigger] new_moves[i]).player == replay(new_moves, i).turn
            &&& move_allowed(replay(new_moves, i), new_moves[i])
        } by {
            lemma_replay_prefix(new_moves, t.moves, i);
            if i < t.pos {
                assert(new_moves[i] == t.moves[i]);
                assert(t.moves[i].player == replay(t.moves, i).turn);
                assert(move_allowed(replay(t.moves, i), t.moves[i]));
            } else {
                assert(new_moves[i] == mv);
            }
        }
    }
}

/// Dispatching any one message keeps the timeline invariant.
pub proof fn lemma_dispatch_inv(t: Timeline, m: Message)
    requires
        timeline_inv(t),
    ensures
        timeline_inv(dispatch(t, m)),
{
    match m {
        Message::DropPiece(row, col) => lemma_intent_drop_inv(t, row as int, col as int),
        Message::DoMove => {},
        Message::UndoMove => {},
    }
}

/// Dispatching any message sequence keeps the timeline invariant.
pub proof fn lemma_run_inv(t: Timeline, ms: Seq<Message>)
    requires
        timeline_inv(t),
    ensures
        timeline_inv(run(t, ms)),
    decreases ms.len(),
{
    if ms.len() > 0 {
        lemma_dispatch_inv(t, ms[0]);
        lemma_run_inv(dispatch(t, ms[0]), ms.drop_first());
    }
}

/// Running one more message equals running the prefix, then dispatching
/// the last message.
pub proof fn lemma_run_snoc(t: Timeline, ms: Seq<Message>, m: Message)
    ensures
        run(t, ms.push(m)) == dispatch(run(t, ms), m),
    decreases ms.len(),
{
    reveal_with_fuel(run, 3);
    if ms.len() == 0 {
        assert(ms.push(m)[0] == m);
        assert(ms.push(m).drop_first() =~= Seq::<Message>::empty());
    } else {
        assert(ms.push(m)[0] == ms[0]);
        assert(ms.push(m).drop_first() =~= ms.drop_first().push(m));
        lemma_run_snoc(dispatch(t, ms[0]), ms.drop_first(), m);
    }
}

/// The events of one more message are the events of the prefix followed
/// by the events of the last message, dispatched in the state the prefix
/// reached.
pub proof fn lemma_run_emit_snoc(t: Timeline, ms: Seq<Message>, m: Message)
    ensures
        run_emit(t, ms.push(m)) == run_emit(t, ms) + emit_one(run(t, ms), m),
    decreases ms.len(),
{
    reveal_with_fuel(run, 3);
    reveal_with_fuel(run_emit, 3);
    if ms.len() == 0 {
        assert(ms.push(m)[0] == m);
        assert(ms.push(m).drop_first() =~= Seq::<Message>::empty());
        assert(emit_one(t, m) + Seq::<Message>::empty() =~= emit_one(t, m));
        assert(Seq::<Message>::empty() + emit_one(t, m) =~= emit_one(t, m));
    } else {
        assert(ms.push(m)[0] == ms[0]);
        assert(ms.push(m).drop_first() =~= ms.drop_first().push(m));
        let d = dispatch(t, ms[0]);
        lemma_run_emit_snoc(d, ms.drop_first(), m);
        assert((emit_one(t, ms[0]) + run_emit(d, ms.drop_first())) + emit_one(run(d, ms.drop_first()), m)
            =~= emit_one(t, ms[0]) + (run_emit(d, ms.drop_first()) + emit_one(run(d, ms.drop_first()), m)));
    }
}

/// Occurrences in a concatenation add up.
pub proof fn lemma_count_concat(a: Seq<Message>, b: Seq<Message>, m: Message)
    ensures
        count_msg(a + b, m) == count_msg(a, m) + count_msg(b, m),
    decreases a.len(),
{
    if a.len() == 0 {
        assert(a + b =~= b);
    } else {
        assert((a + b)[0] == a[0]);
        assert((a + b).drop_first() =~= a.drop_first() + b);
        lemma_count_concat(a.drop_first(), b, m);
    }
}

proof fn lemma_count_single(x: Message, m: Message)
    ensures
        count_msg(seq![x], m) == if x == m { 1int } else { 0int },
{
    reveal_with_fuel(count_msg, 3);
    assert(seq![x][0] == x);
    assert(seq![x].drop_first() =~= Seq::<Message>::empty());
}

/// A rejected or boundary intent publishes nothing: extending every
/// mailbox by no events leaves each as it was.
pub proof fn lemma_obs_extend_empty(obs: Seq<Seq<Message>>)
    ensures
        obs_extended(obs, obs, Seq::<Message>::empty()),
{
    assert forall|j: int| 0 <= j < obs.len() implies obs[j] == obs[j]
        + Seq::<Message>::empty() by {
        assert(obs[j] + Seq::<Message>::empty() =~= obs[j]);
    }
}

/// Every published `DoMove` moved the cursor one step forward and every
/// published `UndoMove` one step back, so over any message sequence the
/// cursor advances by exactly their difference.
pub proof fn lemma_event_accounting(t: Timeline, ms: Seq<Message>)
    ensures
        run(t, ms).pos - t.pos == count_msg(run_emit(t, ms), Message::DoMove)
            - count_msg(run_emit(t, ms), Message::UndoMove),
    decreases ms.len(),
{
    if ms.len() > 0 {
        let d = dispatch(t, ms[0]);
        let e = emit_one(t, ms[0]);
        let rest = run_emit(d, ms.drop_first());
        lemma_event_accounting(d, ms.drop_first());
        lemma_count_concat(e, rest, Message::DoMove);
        lemma_count_concat(e, rest, Message::UndoMove);
        lemma_count_single(Message::DoMove, Message::DoMove);
        lemma_count_single(Message::DoMove, Message::UndoMove);
        lemma_count_single(Message::UndoMove, Message::DoMove);
        lemma_count_single(Message::UndoMove, Message::UndoMove);
        assert(count_msg(Seq::<Message>::empty(), Message::DoMove) == 0);
        assert(count_msg(Seq::<Message>::empty(), Message::UndoMove) == 0);
        assert(d.pos - t.pos == count_msg(e, Message::DoMove) - count_msg(e, Message::UndoMove));
    }
}

} // verus!
