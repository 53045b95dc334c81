use winesmeeper::board::Board;
use winesmeeper::field::Field;
use winesmeeper::game::Game;
use winesmeeper::observer::{Event, EventData, Observer};

#[test]
fn subscribe_issues_fresh_ids() {
    let mut o = Observer::new();
    assert_eq!(o.subscribe(Event::Turn), 0);
    assert_eq!(o.subscribe(Event::GameWon), 1);
    assert_eq!(o.subscribe(Event::Turn), 2);
}

#[test]
fn notify_calls_listeners_in_subscription_order() {
    let mut o = Observer::new();
    let a = o.subscribe(Event::FlagPlaced);
    let b = o.subscribe(Event::Turn);
    let c = o.subscribe(Event::FlagPlaced);
    let data = EventData::FlagPlaced { x: 1, y: 2 };
    assert_eq!(o.notify(&Event::FlagPlaced, data), vec![(a, data), (c, data)]);
    assert_eq!(o.notify(&Event::Turn, EventData::GameLost), vec![(b, EventData::GameLost)]);
    assert!(o.notify(&Event::GameLost, EventData::GameLost).is_empty());
}

#[test]
fn unsubscribe_removes_only_that_listener() {
    let mut o = Observer::new();
    let a = o.subscribe(Event::GameWon);
    let b = o.subscribe(Event::GameWon);
    let c = o.subscribe(Event::GameLost);
    o.unsubscribe(&Event::GameWon, a);
    assert_eq!(o.notify(&Event::GameWon, EventData::GameWon), vec![(b, EventData::GameWon)]);
    o.unsubscribe(&Event::GameWon, c);
    assert_eq!(o.notify(&Event::GameLost, EventData::GameLost), vec![(c, EventData::GameLost)]);
    assert_eq!(o.notify(&Event::GameWon, EventData::GameWon), vec![(b, EventData::GameWon)]);
}

#[test]
fn unsubscribe_after_subscribe_restores_listeners() {
    let mut o = Observer::new();
    let a = o.subscribe(Event::Turn);
    let before = o.notify(&Event::Turn, EventData::GameWon);
    let id = o.subscribe(Event::Turn);
    assert_eq!(o.notify(&Event::Turn, EventData::GameWon).last(), Some(&(id, EventData::GameWon)));
    o.unsubscribe(&Event::Turn, id);
    assert_eq!(o.notify(&Event::Turn, EventData::GameWon), before);
    assert_eq!(before, vec![(a, EventData::GameWon)]);
}

fn small_board() -> Board {
    let closed = Field { is_bomb: false, is_opened: false, is_flag: false };
    let mut cells = vec![vec![closed; 3]; 3];
    cells[0][0].is_bomb = true;
    cells[1][1].is_opened = true;
    cells[2][2].is_bomb = true;
    cells[2][2].is_opened = true;
    Board { board: cells, width: 3, height: 3, start_x: 1, start_y: 1, bomb_count: 2 }
}

#[test]
fn turn_sends_turn_then_field_opened() {
    let mut o = Observer::new();
    let opened = o.subscribe(Event::FieldOpened);
    let turn = o.subscribe(Event::Turn);
    let mut game = Game::new(small_board(), o);
    assert_eq!(
        game.turn(2, 2),
        vec![
            (turn, EventData::Turn { x: 2, y: 2 }),
            (opened, EventData::FieldOpened { x: 2, y: 2, bomb: true }),
        ]
    );
    assert_eq!(
        game.turn(1, 1),
        vec![
            (turn, EventData::Turn { x: 1, y: 1 }),
            (opened, EventData::FieldOpened { x: 1, y: 1, bomb: false }),
        ]
    );
    assert_eq!(
        game.turn(0, 0),
        vec![
            (turn, EventData::Turn { x: 0, y: 0 }),
            (opened, EventData::FieldOpened { x: 0, y: 0, bomb: false }),
        ]
    );
}

#[test]
fn ids_keep_counting_across_unsubscriptions() {
    let mut o = Observer::new();
    assert_eq!(o.next_id(), 0);
    let a = o.subscribe(Event::Turn);
    o.unsubscribe(&Event::Turn, a);
    let _ = o.notify(&Event::Turn, EventData::GameWon);
    let b = o.subscribe(Event::GameLost);
    let c = o.subscribe(Event::Turn);
    assert_eq!((a, b, c), (0, 1, 2));
    assert_eq!(o.next_id(), 3);
    let d = o.subscribe(Event::Turn);
    o.unsubscribe(&Event::Turn, 99);
    assert_eq!(o.notify(&Event::Turn, EventData::GameWon), vec![(c, EventData::GameWon), (d, EventData::GameWon)]);
}
