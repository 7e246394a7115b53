//! Laws of the intent state machine, stated over the abstract timeline
//! that every `GameState` operation is specified against.

use vstd::prelude::*;
use crate::common::Message;
use crate::model::{
    Move, Timeline, count_msg, cur, dispatch, init_timeline, intent_drop, intent_undo,
    lemma_event_accounting, move_allowed, run, run_emit, timeline_inv,
};

verus! {

/// Undoing and then redoing, whenever the undo is permitted, restores the
/// state exactly and publishes `UndoMove` followed by `DoMove`.
pub proof fn lemma_undo_redo_round_trip(t: Timeline)
    requires
        timeline_inv(t),
        t.pos > 0,
    ensures
        run(t, seq![Message::UndoMove, Message::DoMove]) == t,
        run_emit(t, seq![Message::UndoMove, Message::DoMove])
            == seq![Message::UndoMove, Message::DoMove],
{
    reveal_with_fuel(run, 4);
    reveal_with_fuel(run_emit, 4);
    let ms = seq![Message::UndoMove, Message::DoMove];
    assert(ms[0] == Message::UndoMove);
    assert(ms.drop_first() =~= seq![Message::DoMove]);
    assert(seq![Message::DoMove].drop_first() =~= Seq::<Message>::empty());
    let t1 = dispatch(t, Message::UndoMove);
    assert(t1 == intent_undo(t));
    assert(t1.pos == t.pos - 1);
    assert(t1.pos < t1.moves.len());
    let t2 = dispatch(t1, Message::DoMove);
    assert(t2 == t);
    assert(run(t, ms) == t2);
    assert(run_emit(t, ms) =~= seq![Message::UndoMove, Message::DoMove]);
}

/// However many undos came before (undos only move the cursor back), an
/// accepted placement discards the redoable tail: afterwards the cursor
/// sits at the very end of the history, which is the old applied prefix
/// plus the new move.
pub proof fn lemma_branch_truncation(t: Timeline, row: int, col: int)
    requires
        timeline_inv(t),
        move_allowed(cur(t), Move { row, col, player: cur(t).turn }),
    ensures
        intent_drop(t, row, col).pos == intent_drop(t, row, col).moves.len(),
        intent_drop(t, row, col).moves
            == t.moves.take(t.pos).push(Move { row, col, player: cur(t).turn }),
{
}

/// Starting from a fresh game, after any message sequence the cursor
/// equals the number of `DoMove` events published minus the number of
/// `UndoMove` events published.
pub proof fn lemma_event_accounting_from_start(ms: Seq<Message>)
    ensures
        run(init_timeline(), ms).pos
            == count_msg(run_emit(init_timeline(), ms), Message::DoMove)
            - count_msg(run_emit(init_timeline(), ms), Message::UndoMove),
{
    lemma_event_accounting(init_timeline(), ms);
}

} // verus!
