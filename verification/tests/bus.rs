use drop_board::common::{Message, System};

#[test]
fn fresh_bus_is_empty() {
    let mut bus = System::new();
    assert_eq!(bus.take_inbox(), vec![]);
}

#[test]
fn post_fills_own_inbox_in_order() {
    let mut bus = System::new();
    bus.post(Message::DropPiece(1, 2));
    bus.post(Message::DoMove);
    bus.post(Message::UndoMove);
    assert_eq!(
        bus.take_inbox(),
        vec![Message::DropPiece(1, 2), Message::DoMove, Message::UndoMove]
    );
    assert_eq!(bus.take_inbox(), vec![]);
}

#[test]
fn publish_reaches_every_observer_in_publish_order() {
    let mut bus = System::new();
    let first = bus.add_observer();
    let second = bus.add_observer();
    bus.publish(Message::DoMove);
    bus.publish(Message::UndoMove);
    assert_eq!(
        bus.drain_observer(first),
        vec![Message::DoMove, Message::UndoMove]
    );
    assert_eq!(
        bus.drain_observer(second),
        vec![Message::DoMove, Message::UndoMove]
    );
}

#[test]
fn drain_leaves_an_empty_mailbox() {
    let mut bus = System::new();
    let id = bus.add_observer();
    bus.publish(Message::DoMove);
    assert_eq!(bus.drain_observer(id), vec![Message::DoMove]);
    assert_eq!(bus.drain_observer(id), vec![]);
}

#[test]
fn publish_does_not_touch_the_own_inbox() {
    let mut bus = System::new();
    let id = bus.add_observer();
    bus.publish(Message::DoMove);
    assert_eq!(bus.take_inbox(), vec![]);
    assert_eq!(bus.drain_observer(id), vec![Message::DoMove]);
}

#[test]
fn late_observer_misses_earlier_messages() {
    let mut bus = System::new();
    let early = bus.add_observer();
    bus.publish(Message::DoMove);
    let late = bus.add_observer();
    bus.publish(Message::UndoMove);
    assert_eq!(bus.drain_observer(early), vec![Message::DoMove, Message::UndoMove]);
    assert_eq!(bus.drain_observer(late), vec![Message::UndoMove]);
}
