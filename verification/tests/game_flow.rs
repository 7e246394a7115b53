use drop_board::common::Message;
use drop_board::game::{BoardPiece, GameState, PieceDropCommand};

fn drop_at(g: &mut GameState, row: usize, col: usize) {
    g.system.post(Message::DropPiece(row, col));
    g.update();
}

#[test]
fn fresh_game_is_empty_and_red_moves_first() {
    let g = GameState::new();
    for row in 0..5 {
        for col in 0..5 {
            assert_eq!(g.board[row][col], BoardPiece::Empty);
        }
    }
    assert_eq!(g.current_player, BoardPiece::Red);
    assert_eq!(g.pieces_dropped, [0, 0]);
}

#[test]
fn basic_drop_places_red_and_emits_do_move() {
    let mut g = GameState::new();
    let watcher = g.system.add_observer();
    drop_at(&mut g, 2, 2);
    assert_eq!(g.board[2][2], BoardPiece::Red);
    assert_eq!(g.current_player, BoardPiece::Black);
    assert_eq!(g.pieces_dropped, [1, 0]);
    assert_eq!(g.system.drain_observer(watcher), vec![Message::DoMove]);
}

#[test]
fn occupied_cell_is_rejected_silently() {
    let mut g = GameState::new();
    drop_at(&mut g, 2, 2);
    let watcher = g.system.add_observer();
    drop_at(&mut g, 2, 2);
    assert_eq!(g.board[2][2], BoardPiece::Red);
    assert_eq!(g.current_player, BoardPiece::Black);
    assert_eq!(g.pieces_dropped, [1, 0]);
    assert_eq!(g.system.drain_observer(watcher), vec![]);
}

#[test]
fn out_of_range_click_is_rejected_silently() {
    let mut g = GameState::new();
    let watcher = g.system.add_observer();
    drop_at(&mut g, 5, 0);
    drop_at(&mut g, 0, 7);
    assert_eq!(g.current_player, BoardPiece::Red);
    assert_eq!(g.pieces_dropped, [0, 0]);
    assert_eq!(g.system.drain_observer(watcher), vec![]);
}

#[test]
fn fifth_drop_of_a_player_is_rejected() {
    let mut g = GameState::new();
    // red at (0,0) (0,2) (0,4) (1,1); black at (0,1) (0,3) (1,0) (1,2)
    drop_at(&mut g, 0, 0);
    drop_at(&mut g, 0, 1);
    drop_at(&mut g, 0, 2);
    drop_at(&mut g, 0, 3);
    drop_at(&mut g, 0, 4);
    drop_at(&mut g, 1, 0);
    drop_at(&mut g, 1, 1);
    drop_at(&mut g, 1, 2);
    assert_eq!(g.pieces_dropped, [4, 4]);
    assert_eq!(g.current_player, BoardPiece::Red);

    let watcher = g.system.add_observer();
    drop_at(&mut g, 2, 2);
    assert_eq!(g.board[2][2], BoardPiece::Empty);
    assert_eq!(g.pieces_dropped, [4, 4]);
    assert_eq!(g.current_player, BoardPiece::Red);
    assert_eq!(g.system.drain_observer(watcher), vec![]);
}

#[test]
fn undo_then_redo_restores_the_state_and_emits_both_events() {
    let mut g = GameState::new();
    drop_at(&mut g, 0, 0);
    let watcher = g.system.add_observer();

    g.undo_action();
    assert_eq!(g.board[0][0], BoardPiece::Empty);
    assert_eq!(g.current_player, BoardPiece::Red);
    assert_eq!(g.pieces_dropped, [0, 0]);

    g.redo_action();
    assert_eq!(g.board[0][0], BoardPiece::Red);
    assert_eq!(g.current_player, BoardPiece::Black);
    assert_eq!(g.pieces_dropped, [1, 0]);

    assert_eq!(
        g.system.drain_observer(watcher),
        vec![Message::UndoMove, Message::DoMove]
    );
}

#[test]
fn undo_and_redo_intents_match_the_direct_calls() {
    let mut by_message = GameState::new();
    let mut direct = GameState::new();
    drop_at(&mut by_message, 3, 1);
    drop_at(&mut direct, 3, 1);

    by_message.system.post(Message::UndoMove);
    by_message.update();
    direct.undo_action();
    assert_eq!(by_message.board, direct.board);
    assert_eq!(by_message.current_player, direct.current_player);
    assert_eq!(by_message.pieces_dropped, direct.pieces_dropped);

    by_message.system.post(Message::DoMove);
    by_message.update();
    direct.redo_action();
    assert_eq!(by_message.board, direct.board);
    assert_eq!(by_message.current_player, direct.current_player);
    assert_eq!(by_message.pieces_dropped, direct.pieces_dropped);
}

#[test]
fn new_drop_after_undo_discards_the_redoable_tail() {
    let mut g = GameState::new();
    drop_at(&mut g, 0, 0);
    drop_at(&mut g, 1, 1);
    g.undo_action();
    // the undo passed the turn back to black, so black makes the new move
    drop_at(&mut g, 2, 2);

    assert_eq!(g.board[0][0], BoardPiece::Red);
    assert_eq!(g.board[1][1], BoardPiece::Empty);
    assert_eq!(g.board[2][2], BoardPiece::Black);
    assert_eq!(g.current_player, BoardPiece::Red);
    assert_eq!(g.pieces_dropped, [1, 1]);

    // the old (1,1) move is gone: a redo now finds nothing to reapply
    let watcher = g.system.add_observer();
    g.redo_action();
    assert_eq!(g.board[1][1], BoardPiece::Empty);
    assert_eq!(g.system.drain_observer(watcher), vec![]);

    // what remains replays to (0,0) then (2,2)
    g.undo_action();
    g.undo_action();
    assert_eq!(g.board[0][0], BoardPiece::Empty);
    assert_eq!(g.board[2][2], BoardPiece::Empty);
    g.redo_action();
    assert_eq!(g.board[0][0], BoardPiece::Red);
    g.redo_action();
    assert_eq!(g.board[2][2], BoardPiece::Black);
}

#[test]
fn boundary_undos_and_redos_change_nothing_and_stay_silent() {
    let mut g = GameState::new();
    let watcher = g.system.add_observer();
    for _ in 0..10 {
        g.undo_action();
    }
    for _ in 0..10 {
        g.redo_action();
    }
    for row in 0..5 {
        for col in 0..5 {
            assert_eq!(g.board[row][col], BoardPiece::Empty);
        }
    }
    assert_eq!(g.current_player, BoardPiece::Red);
    assert_eq!(g.pieces_dropped, [0, 0]);
    assert_eq!(g.system.drain_observer(watcher), vec![]);
}

#[test]
fn turn_alternates_with_each_applied_move() {
    let mut g = GameState::new();
    assert_eq!(g.current_player, BoardPiece::Red);
    drop_at(&mut g, 0, 0);
    assert_eq!(g.current_player, BoardPiece::Black);
    drop_at(&mut g, 0, 1);
    assert_eq!(g.current_player, BoardPiece::Red);
    g.undo_action();
    assert_eq!(g.current_player, BoardPiece::Black);
    g.undo_action();
    assert_eq!(g.current_player, BoardPiece::Red);
}

#[test]
fn published_do_moves_minus_undo_moves_track_the_cursor() {
    let mut g = GameState::new();
    let watcher = g.system.add_observer();
    drop_at(&mut g, 0, 0);
    drop_at(&mut g, 1, 1);
    g.undo_action();
    g.redo_action();
    g.undo_action();
    g.undo_action();
    g.undo_action(); // boundary: silent
    let events = g.system.drain_observer(watcher);
    let do_moves = events.iter().filter(|m| **m == Message::DoMove).count() as i64;
    let undo_moves = events.iter().filter(|m| **m == Message::UndoMove).count() as i64;
    // cursor is back at zero: the board is fresh again
    assert_eq!(do_moves - undo_moves, 0);
    assert_eq!(g.board[0][0], BoardPiece::Empty);
    assert_eq!(g.board[1][1], BoardPiece::Empty);

    g.redo_action(); // cursor 1
    let events = g.system.drain_observer(watcher);
    assert_eq!(events, vec![Message::DoMove]);
}

#[test]
fn drop_counts_always_match_the_board() {
    let mut g = GameState::new();
    let moves = [(0usize, 0usize), (1, 1), (2, 2), (3, 3)];
    for (row, col) in moves {
        drop_at(&mut g, row, col);
        let mut red = 0;
        let mut black = 0;
        for r in 0..5 {
            for c in 0..5 {
                match g.board[r][c] {
                    BoardPiece::Red => red += 1,
                    BoardPiece::Black => black += 1,
                    BoardPiece::Empty => {}
                }
            }
        }
        assert_eq!(g.pieces_dropped, [red, black]);
    }
}

#[test]
fn command_validity_checks_range_occupancy_and_cap() {
    let mut g = GameState::new();
    let in_range = PieceDropCommand { row: 2, col: 2, player: BoardPiece::Red };
    assert!(in_range.is_valid(&g));
    let off_board = PieceDropCommand { row: 5, col: 0, player: BoardPiece::Red };
    assert!(!off_board.is_valid(&g));
    drop_at(&mut g, 2, 2);
    let occupied = PieceDropCommand { row: 2, col: 2, player: BoardPiece::Black };
    assert!(!occupied.is_valid(&g));
}

#[test]
fn perform_and_undo_are_inverse_on_a_cell() {
    let mut g = GameState::new();
    let command = PieceDropCommand { row: 4, col: 0, player: BoardPiece::Red };
    command.perform(&mut g);
    assert_eq!(g.board[4][0], BoardPiece::Red);
    assert_eq!(g.pieces_dropped, [1, 0]);
    assert_eq!(g.current_player, BoardPiece::Black);
    command.undo(&mut g);
    assert_eq!(g.board[4][0], BoardPiece::Empty);
    assert_eq!(g.pieces_dropped, [0, 0]);
    assert_eq!(g.current_player, BoardPiece::Red);
}

#[test]
fn undo_of_a_player_with_nothing_on_the_board_is_guarded() {
    let mut g = GameState::new();
    let command = PieceDropCommand { row: 0, col: 0, player: BoardPiece::Red };
    command.undo(&mut g);
    assert_eq!(g.board[0][0], BoardPiece::Empty);
    assert_eq!(g.pieces_dropped, [0, 0]);
    assert_eq!(g.current_player, BoardPiece::Red);
}

#[test]
fn copy_reproduces_a_command() {
    let command = PieceDropCommand { row: 3, col: 4, player: BoardPiece::Black };
    let twin = command.copy();
    assert_eq!(twin.row, 3);
    assert_eq!(twin.col, 4);
    assert_eq!(twin.player, BoardPiece::Black);
}

#[test]
fn swap_player_turn_flips_the_turn() {
    let mut g = GameState::new();
    g.swap_player_turn();
    assert_eq!(g.current_player, BoardPiece::Black);
    g.swap_player_turn();
    assert_eq!(g.current_player, BoardPiece::Red);
}
