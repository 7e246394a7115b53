//! The authoritative game model: board, turn, per-player drop counts, and
//! a linear history with a cursor for undo/redo. Every public operation is
//! specified against the mathematical model in `model`.

use vstd::prelude::*;
use crate::common::{Message, System, obs_extended};
use crate::model::{
    Move, Snapshot, Timeline, apply_move, cur, dispatch, drops_of, emit_one, flip,
    init_snapshot, init_timeline, intent_drop, intent_redo, intent_undo,
    lemma_intent_drop_inv, lemma_obs_extend_empty, lemma_replay_inv, lemma_replay_prefix,
    lemma_revert_apply, lemma_run_emit_snoc, lemma_run_snoc, lemma_turn_parity,
    grid_count, move_allowed, replay, revert_move, run, run_emit, timeline_inv,
};

verus! {

/// A cell's occupant: nobody, or one of the two players.
#[derive(Clone, Copy, Debug, PartialEq, Eq, Structural)]
pub enum BoardPiece {
    Empty,
    Red,
    Black,
}

/// The game model. The board, the player to move and the drop counts are
/// read directly by a renderer each frame; the history and its cursor are
/// owned by the model alone.
pub struct GameState {
    pub board: [[BoardPiece; 5]; 5],
    pub current_player: BoardPiece,
    pub pieces_dropped: [i32; 2],
    pub system: System,
    history: Vec<PieceDropCommand>,
    history_pos: usize,
}

/// A single piece placement: where, and by whom. The color is recorded so
/// that undo restores the correct turn even after several flips.
pub struct PieceDropCommand {
    pub row: usize,
    pub col: usize,
    pub player: BoardPiece,
}

impl View for PieceDropCommand {
    type V = Move;

    open spec fn view(&self) -> Move {
        Move { row: self.row as int, col: self.col as int, player: self.player }
    }
}

impl GameState {
    /// The board as a sequence of rows of cells.
    pub closed spec fn board_view(self) -> Seq<Seq<BoardPiece>> {
        Seq::new(5, |r: int| self.board@[r]@)
    }

    /// The visible state: board, turn, drop counts.
    pub closed spec fn abs(self) -> Snapshot {
        Snapshot {
            board: self.board_view(),
            turn: self.current_player,
            red_drops: self.pieces_dropped@[0] as int,
            black_drops: self.pieces_dropped@[1] as int,
        }
    }

    /// The recorded history and the cursor.
    pub closed spec fn timeline(self) -> Timeline {
        Timeline {
            moves: self.history@.map(|i: int, c: PieceDropCommand| c@),
            pos: self.history_pos as int,
        }
    }

    /// The model's event bus, as its observers' mailboxes.
    pub closed spec fn sys_obs(self) -> Seq<Seq<Message>> {
        self.system.obs()
    }

    /// The model's own inbound mailbox.
    pub closed spec fn sys_inbox(self) -> Seq<Message> {
        self.system.inbox()
    }

    /// The model invariant: the cursor stays within the coherent history,
    /// and the visible state is exactly the first `pos` moves replayed
    /// from a fresh game.
    pub open spec fn inv(self) -> bool {
        &&& timeline_inv(self.timeline())
        &&& self.abs() == cur(self.timeline())
    }

    pub fn new() -> (s: Self)
        ensures
            s.inv(),
            s.abs() == init_snapshot(),
            s.timeline() == init_timeline(),
            s.sys_obs() == Seq::<Seq<Message>>::empty(),
            s.sys_inbox() == Seq::<Message>::empty(),
    {
        let s = Self {
            board: [[BoardPiece::Empty; 5]; 5],
            current_player: BoardPiece::Red,
            pieces_dropped: [0, 0],
            system: System::new(),
            history: Vec::new(),
            history_pos: 0,
        };
        proof {
            assert(s.board_view() =~~= init_snapshot().board);
            assert(s.abs() =~~= init_snapshot());
            assert(s.timeline() =~~= init_timeline());
        }
        s
    }

    /// Passes the turn to the other player.
    pub fn swap_player_turn(&mut self)
        requires
            old(self).abs().turn != BoardPiece::Empty,
        ensures
            final(self).abs() == (Snapshot { turn: flip(old(self).abs().turn), ..old(self).abs() }),
            final(self).timeline() == old(self).timeline(),
            final(self).sys_obs() == old(self).sys_obs(),
            final(self).sys_inbox() == old(self).sys_inbox(),
    {
        self.current_player = match self.current_player {
            BoardPiece::Red => BoardPiece::Black,
            BoardPiece::Black => BoardPiece::Red,
            // excluded by the precondition
            BoardPiece::Empty => BoardPiece::Empty,
        };
        proof {
            assert(self.abs() =~~= (Snapshot { turn: flip(old(self).abs().turn), ..old(self).abs() }));
        }
    }

    /// Reapplies the next recorded move, advances the cursor and publishes
    /// `DoMove`; a silent no-op when no redoable move exists.
    pub fn redo_action(&mut self)
        requires
            old(self).inv(),
        ensures
            final(self).inv(),
            final(self).timeline() == intent_redo(old(self).timeline()),
            obs_extended(
                old(self).sys_obs(),
                final(self).sys_obs(),
                emit_one(old(self).timeline(), Message::DoMove),
            ),
            final(self).sys_inbox() == old(self).sys_inbox(),
    {
        let ghost t = old(self).timeline();
        if self.history_pos >= self.history.len() {
            proof {
                lemma_obs_extend_empty(self.sys_obs());
            }
            return;
        }
        proof {
            lemma_replay_inv(t.moves, t.pos);
            assert(t.moves[t.pos].player == replay(t.moves, t.pos).turn);
            assert(move_allowed(replay(t.moves, t.pos), t.moves[t.pos]));
        }
        let command = self.history[self.history_pos].copy();
        proof {
            assert(command@ == t.moves[t.pos]);
        }
        command.perform(self);
        self.history_pos += 1;
        self.system.publish(Message::DoMove);
        proof {
            assert(self.timeline() =~~= intent_redo(t));
            assert(cur(self.timeline()) == apply_move(replay(t.moves, t.pos), t.moves[t.pos]));
        }
    }

    /// Reverses the most recently applied move, retreats the cursor and
    /// publishes `UndoMove`; a silent no-op when nothing is applied.
    pub fn undo_action(&mut self)
        requires
            old(self).inv(),
        ensures
            final(self).inv(),
            final(self).timeline() == intent_undo(old(self).timeline()),
            obs_extended(
                old(self).sys_obs(),
                final(self).sys_obs(),
                emit_one(old(self).timeline(), Message::UndoMove),
            ),
            final(self).sys_inbox() == old(self).sys_inbox(),
    {
        let ghost t = old(self).timeline();
        if self.history_pos == 0 || self.history.len() == 0 {
            proof {
                lemma_obs_extend_empty(self.sys_obs());
            }
            return;
        }
        proof {
            lemma_replay_inv(t.moves, t.pos);
            lemma_replay_inv(t.moves, t.pos - 1);
            assert(t.moves[t.pos - 1].player == replay(t.moves, t.pos - 1).turn);
            assert(move_allowed(replay(t.moves, t.pos - 1), t.moves[t.pos - 1]));
            lemma_revert_apply(replay(t.moves, t.pos - 1), t.moves[t.pos - 1]);
        }
        let command: PieceDropCommand = self.history[self.history_pos - 1].copy();
        proof {
            assert(command@ == t.moves[t.pos - 1]);
        }
        command.undo(self);
        self.system.publish(Message::UndoMove);
        if self.history_pos == 0 {
            // unreachable: the cursor was positive and is untouched so far
            return;
        }
        self.history_pos -= 1;
        proof {
            assert(self.timeline() =~~= intent_undo(t));
        }
    }

    /// Builds a command for the player to move and, if it is accepted,
    /// discards the redoable tail, applies and records it, advances the
    /// cursor and publishes `DoMove`; a silent no-op otherwise.
    fn handle_click(&mut self, row: usize, col: usize)
        requires
            old(self).inv(),
        ensures
            final(self).inv(),
            final(self).timeline() == intent_drop(
                old(self).timeline(),
                row as int,
                col as int,
            ),
            obs_extended(
                old(self).sys_obs(),
                final(self).sys_obs(),
                emit_one(old(self).timeline(), Message::DropPiece(row, col)),
            ),
            final(self).sys_inbox() == old(self).sys_inbox(),
    {
        let ghost t = old(self).timeline();
        let command = PieceDropCommand { row, col, player: self.current_player };
        proof {
            assert(command@ == (Move { row: row as int, col: col as int, player: cur(t).turn }));
        }

        if !command.is_valid(&*self) {
            proof {
                lemma_obs_extend_empty(self.sys_obs());
            }
            return;
        }

        if self.history.len() > 0 {
            let elements_to_clear = self.history.len() - self.history_pos;
            let mut cleared: usize = 0;
            while cleared < elements_to_clear
                invariant
                    cleared <= elements_to_clear,
                    elements_to_clear
                        == old(self).history@.len() as int - old(self).history_pos as int,
                    old(self).history_pos <= old(self).history@.len(),
                    self.history@ == old(self).history@.take(
                        old(self).history@.len() as int - cleared as int,
                    ),
                    self.history_pos == old(self).history_pos,
                    self.board == old(self).board,
                    self.current_player == old(self).current_player,
                    self.pieces_dropped == old(self).pieces_dropped,
                    self.system == old(self).system,
                decreases elements_to_clear - cleared,
            {
                let _ = self.history.pop();
                proof {
                    assert(self.history@ =~= old(self).history@.take(
                        old(self).history@.len() as int - (cleared + 1) as int,
                    ));
                }
                cleared += 1;
            }
        }
        proof {
            assert(self.history@ =~= old(self).history@.take(old(self).history_pos as int));
            assert(self.timeline().moves =~= t.moves.take(t.pos));
            lemma_replay_inv(t.moves, t.pos);
        }

        command.perform(self);
        let ghost mid = *self;
        self.history.push(command);
        let len_now = self.history.len();
        proof {
            assert(mid.timeline().moves.len() == mid.history@.len());
            assert(self.history_pos < len_now);
        }
        self.history_pos += 1;

        self.system.publish(Message::DoMove);

        proof {
            let new_moves = t.moves.take(t.pos).push(command@);
            assert forall|k: int| 0 <= k < new_moves.len() implies
                #[trigger] self.timeline().moves[k] == new_moves[k] by {
                if k < t.pos {
                    assert(self.history@[k] == mid.history@[k]);
                    assert(self.timeline().moves[k] == mid.timeline().moves[k]);
                } else {
                    assert(self.history@[k] == command);
                }
            }
            assert(self.timeline().moves =~= new_moves);
            lemma_intent_drop_inv(t, row as int, col as int);
            lemma_replay_prefix(new_moves, t.moves, t.pos);
            assert(cur(self.timeline()) == apply_move(replay(new_moves, t.pos), new_moves[t.pos]));
            assert(self.timeline() =~~= intent_drop(t, row as int, col as int));
        }
    }

    /// Drains the model's own mailbox and dispatches each message in
    /// order: a placement intent, a redo, or an undo. Publishing intents
    /// on the bus and calling the handlers directly are equivalent.
    #[verifier::rlimit(50)]
    pub fn update(&mut self)
        requires
            old(self).inv(),
        ensures
            final(self).inv(),
            final(self).timeline() == run(old(self).timeline(), old(self).sys_inbox()),
            obs_extended(
                old(self).sys_obs(),
                final(self).sys_obs(),
                run_emit(old(self).timeline(), old(self).sys_inbox()),
            ),
            final(self).sys_inbox() == Seq::<Message>::empty(),
    {
        let messages = self.system.take_inbox();
        let n = messages.len();
        let mut i: usize = 0;
        while i < n
            invariant
                i <= n,
                n == messages@.len(),
                messages@ == old(self).sys_inbox(),
                self.inv(),
                self.timeline() == run(old(self).timeline(), messages@.take(i as int)),
                obs_extended(
                    old(self).sys_obs(),
                    self.sys_obs(),
                    run_emit(old(self).timeline(), messages@.take(i as int)),
                ),
                self.sys_inbox() == Seq::<Message>::empty(),
            decreases n - i,
        {
            let ghost t_pre = self.timeline();
            let ghost obs_pre = self.sys_obs();
            let message = messages[i];
            match message {
                Message::DropPiece(row, col) => {
                    self.handle_click(row, col);
                    proof {
                        assert(self.timeline() == dispatch(t_pre, message));
                        assert(obs_extended(obs_pre, self.sys_obs(), emit_one(t_pre, message)));
                    }
                },
                Message::DoMove => {
                    self.redo_action();
                    proof {
                        assert(self.timeline() == dispatch(t_pre, message));
                        assert(obs_extended(obs_pre, self.sys_obs(), emit_one(t_pre, message)));
                    }
                },
                Message::UndoMove => {
                    self.undo_action();
                    proof {
                        assert(self.timeline() == dispatch(t_pre, message));
                        assert(obs_extended(obs_pre, self.sys_obs(), emit_one(t_pre, message)));
                    }
                },
            }
            proof {
                let pfx = messages@.take(i as int);
                assert(pfx.push(message) =~= messages@.take(i as int + 1));
                lemma_run_snoc(old(self).timeline(), pfx, message);
                lemma_run_emit_snoc(old(self).timeline(), pfx, message);
                assert forall|j: int| 0 <= j < old(self).sys_obs().len() implies
                    #[trigger] self.sys_obs()[j] == old(self).sys_obs()[j]
                        + run_emit(old(self).timeline(), messages@.take(i as int + 1)) by {
                    assert(self.sys_obs()[j] == obs_pre[j] + emit_one(t_pre, message));
                    assert(obs_pre[j] == old(self).sys_obs()[j]
                        + run_emit(old(self).timeline(), pfx));
                    assert((old(self).sys_obs()[j] + run_emit(old(self).timeline(), pfx))
                        + emit_one(t_pre, message)
                        =~= old(self).sys_obs()[j]
                            + (run_emit(old(self).timeline(), pfx) + emit_one(t_pre, message)));
                }
            }
            i += 1;
        }
        proof {
            assert(messages@.take(n as int) =~= messages@);
        }
    }

    /// Slot of a color in `pieces_dropped`: red first, black second; no
    /// slot for an empty cell.
    fn index_of_piece(&self, piece: BoardPiece) -> (r: Result<usize, ()>)
        ensures
            r == (match piece {
                BoardPiece::Red => Ok::<usize, ()>(0usize),
                BoardPiece::Black => Ok::<usize, ()>(1usize),
                BoardPiece::Empty => Err::<usize, ()>(()),
            }),
    {
        match piece {
            BoardPiece::Red => Ok(0),
            BoardPiece::Black => Ok(1),
            BoardPiece::Empty => Err(()),
        }
    }
}

impl PieceDropCommand {
    /// Applies this placement to the game, unconditionally: counts it for
    /// its player, puts its color on its cell, passes the turn.
    pub fn perform(&self, game: &mut GameState)
        requires
            self.row <= 4,
            self.col <= 4,
            self.player != BoardPiece::Empty,
            old(game).abs().turn != BoardPiece::Empty,
            drops_of(old(game).abs(), self.player) < i32::MAX,
        ensures
            final(game).abs() == apply_move(old(game).abs(), self@),
            final(game).timeline() == old(game).timeline(),
            final(game).sys_obs() == old(game).sys_obs(),
            final(game).sys_inbox() == old(game).sys_inbox(),
    {
        let idx = game.index_of_piece(self.player).unwrap();
        game.pieces_dropped[idx] = game.pieces_dropped[idx] + 1;
        let mut row_cells = game.board[self.row];
        row_cells[self.col] = self.player;
        game.board[self.row] = row_cells;
        game.swap_player_turn();
        proof {
            assert(game.board_view() =~~= apply_move(old(game).abs(), self@).board);
            assert(game.abs() =~~= apply_move(old(game).abs(), self@));
        }
    }

    /// Reverses this placement: uncounts it for its player, empties its
    /// cell, passes the turn back. If the player has nothing on the board
    /// the call leaves the game untouched rather than underflow a count.
    pub fn undo(&self, game: &mut GameState)
        requires
            self.row <= 4,
            self.col <= 4,
            self.player != BoardPiece::Empty,
            old(game).abs().turn != BoardPiece::Empty,
            drops_of(old(game).abs(), self.player) > i32::MIN,
        ensures
            final(game).abs() == revert_move(old(game).abs(), self@),
            final(game).timeline() == old(game).timeline(),
            final(game).sys_obs() == old(game).sys_obs(),
            final(game).sys_inbox() == old(game).sys_inbox(),
    {
        let player_index = game.index_of_piece(self.player).unwrap();
        if game.pieces_dropped[player_index] == 0 {
            return;
        }
        game.pieces_dropped[player_index] = game.pieces_dropped[player_index] - 1;
        let mut row_cells = game.board[self.row];
        row_cells[self.col] = BoardPiece::Empty;
        game.board[self.row] = row_cells;
        game.swap_player_turn();
        proof {
            assert(game.board_view() =~~= revert_move(old(game).abs(), self@).board);
            assert(game.abs() =~~= revert_move(old(game).abs(), self@));
        }
    }

    /// Accepts the placement iff it is on the board, its cell is empty,
    /// and the player whose turn it is has pieces left to drop. The cap is
    /// checked against the game's current turn, not this command's color.
    pub fn is_valid(&self, game: &GameState) -> (b: bool)
        ensures
            b == move_allowed(game.abs(), self@),
    {
        if self.row > 4 || self.col > 4 {
            return false;
        }
        if game.board[self.row][self.col] != BoardPiece::Empty {
            return false;
        }

        let current_player_piece_index_result = game.index_of_piece(game.current_player);
        if current_player_piece_index_result.is_ok() {
            if game.pieces_dropped[current_player_piece_index_result.unwrap()] >= 4 {
                return false;
            }
        }

        true
    }

    /// A fresh command with the same coordinates and color.
    pub fn copy(&self) -> (c: Self)
        ensures
            c == *self,
    {
        Self { row: self.row, col: self.col, player: self.player }
    }
}

/// Every cell of the board is empty or holds one of the two players'
/// pieces; there is no third occupant.
pub proof fn lemma_board_cells_classified(g: GameState)
    requires
        g.inv(),
    ensures
        forall|r: int, c: int| 0 <= r < 5 && 0 <= c < 5 ==> {
            ||| #[trigger] g.abs().board[r][c] == BoardPiece::Empty
            ||| g.abs().board[r][c] == BoardPiece::Red
            ||| g.abs().board[r][c] == BoardPiece::Black
        },
{
}

/// Each color's drop count equals the number of its pieces on the board,
/// and neither player ever has more than four pieces placed.
pub proof fn lemma_drop_counts_match_board(g: GameState)
    requires
        g.inv(),
    ensures
        g.abs().red_drops == grid_count(g.abs().board, BoardPiece::Red),
        g.abs().black_drops == grid_count(g.abs().board, BoardPiece::Black),
        0 <= g.abs().red_drops <= 4,
        0 <= g.abs().black_drops <= 4,
{
    lemma_replay_inv(g.timeline().moves, g.timeline().pos);
}

/// The history cursor always lies between zero and the history's length.
pub proof fn lemma_cursor_within_history(g: GameState)
    requires
        g.inv(),
    ensures
        0 <= g.timeline().pos <= g.timeline().moves.len(),
{
}

/// Replaying the applied prefix of the history from a fresh game
/// reproduces the visible state - board, turn and drop counts - exactly.
pub proof fn lemma_replay_reproduces_state(g: GameState)
    requires
        g.inv(),
    ensures
        g.abs() == replay(g.timeline().moves, g.timeline().pos),
        g.abs() == replay(g.timeline().moves.take(g.timeline().pos), g.timeline().pos),
{
    lemma_replay_prefix(
        g.timeline().moves.take(g.timeline().pos),
        g.timeline().moves,
        g.timeline().pos,
    );
}

/// It is red's turn exactly when the cursor is even: the game starts with
/// red and the turn passes on every applied move.
pub proof fn lemma_turn_matches_parity(g: GameState)
    requires
        g.inv(),
    ensures
        g.abs().turn == BoardPiece::Red <==> g.timeline().pos % 2 == 0,
{
    lemma_turn_parity(g.timeline().moves, g.timeline().pos);
}

} // verus!
