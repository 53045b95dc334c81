//! A game: a board and the listeners to tell about each turn.

use vstd::prelude::*;

use crate::board::{field_code, field_readable, Board};
use crate::observer::{deliveries, Event, EventData, Observer, ObserverId};

verus! {

/// A board and the observer of its events.
pub struct Game {
    board: Board,
    observer: Observer,
}

/// The calls that a turn on `(x, y)` makes: the listeners of `Turn` with the
/// square, then the listeners of `FieldOpened` with the square and whether
/// it shows an opened bomb.
pub open spec fn turn_deliveries(board: Board, observer: Observer, x: usize, y: usize) -> Seq<
    (ObserverId, EventData),
> {
    deliveries(observer, Event::Turn, EventData::Turn { x, y }) + deliveries(
        observer,
        Event::FieldOpened,
        EventData::FieldOpened { x, y, bomb: field_code(board.board@, x as int, y as int) == -2 },
    )
}

/// A turn on `(x, y)` first calls each listener of `Turn`, in the order of
/// subscription, with `Turn { x, y }`; then each listener of `FieldOpened`,
/// in order, with the same square and `bomb` telling whether the square is
/// an opened bomb without a flag.
pub proof fn law_turn_reports_the_square(board: Board, observer: Observer, x: usize, y: usize)
    ensures
        ({
            let calls = turn_deliveries(board, observer, x, y);
            let turn = observer.listeners(Event::Turn);
            let opened = observer.listeners(Event::FieldOpened);
            let f = board.board@[x as int]@[y as int];
            &&& calls.len() == turn.len() + opened.len()
            &&& forall|i: int| 0 <= i < turn.len() ==> #[trigger] calls[i] == (turn[i], EventData::Turn { x, y })
            &&& forall|i: int|
                0 <= i < opened.len() ==> #[trigger] calls[turn.len() + i] == (
                    opened[i],
                    EventData::FieldOpened { x, y, bomb: !f.is_flag && f.is_opened && f.is_bomb },
                )
        }),
{
    let calls = turn_deliveries(board, observer, x, y);
    let turn = observer.listeners(Event::Turn);
    assert forall|i: int| 0 <= i < observer.listeners(Event::FieldOpened).len() implies #[trigger] calls[turn.len() + i]
        == (observer.listeners(Event::FieldOpened)[i], EventData::FieldOpened {
        x,
        y,
        bomb: !board.board@[x as int]@[y as int].is_flag && board.board@[x as int]@[y as int].is_opened
            && board.board@[x as int]@[y as int].is_bomb,
    }) by {
        crate::board::law_field_code_by_state(board.board@, x as int, y as int);
    }
}

impl Game {
    /// The board of the game.
    pub closed spec fn board(self) -> Board {
        self.board
    }

    /// The observer of the game.
    pub closed spec fn observer(self) -> Observer {
        self.observer
    }

    /// A game on `board` whose events go to `observer`.
    pub fn new(board: Board, observer: Observer) -> (g: Game)
        ensures
            g.board() == board,
            g.observer() == observer,
    {
        Game { board, observer }
    }

    /// Plays a turn on `(x, y)` and returns the listener calls it makes, in
    /// order: a `Turn` event, then a `FieldOpened` event that says whether
    /// the square shows an opened bomb.
    pub fn turn(&mut self, x: usize, y: usize) -> (calls: Vec<(ObserverId, EventData)>)
        requires
            field_readable(old(self).board().board@, x as int, y as int),
            x < isize::MAX,
            y < isize::MAX,
        ensures
            *final(self) == *old(self),
            calls@ == turn_deliveries(old(self).board(), old(self).observer(), x, y),
    {
        let is_bomb = self.board.get_field(x, y) == -2;
        let mut calls = self.observer.notify(&Event::Turn, EventData::Turn { x, y });
        let mut opened = self.observer.notify(
            &Event::FieldOpened,
            EventData::FieldOpened { x, y, bomb: is_bomb },
        );
        calls.append(&mut opened);
        calls
    }
}

} // verus!
