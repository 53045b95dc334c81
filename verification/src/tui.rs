//! The state of the terminal front end: the board on show, the overlay,
//! the input line with its cursor, and how keys change them.

use vstd::prelude::*;

use crate::board::{bombs_around, interior, is_fresh_board, Board};
use crate::commands::{
    lines_view,
    system_commands,
    system_commands_spec,
    titled_commands_lines,
    turn_commands,
    turn_commands_spec,
    line_view,
    Command,
    StyledLine,
    StyledSpan,
    TextStyle,
};
use crate::layout::{layout_split, split_percentages};
use crate::text::push_char;
use vstd::string::{StrSliceExecFns, StringExecFns};

verus! {

/// A pop-up shown over the board.
#[derive(Debug, Clone, Copy, PartialEq, Eq, Structural)]
pub enum Overlay {
    Help,
    Generate { width: usize, height: usize, start_x: usize, start_y: usize, bomb_count: usize },
    Redo,
    Undo,
    Save,
    Load,
    Flag,
    Open,
    InvalidCommand,
}

/// What the keys currently do: choose a command, or edit its input.
#[derive(Debug, Clone, Copy, PartialEq, Eq, Structural)]
pub enum InputMode {
    Normal,
    Help,
    Generate,
    Save,
    Load,
    Flag,
    Open,
}

/// A key press, as far as the front end tells keys apart.
#[derive(Debug, Clone, Copy, PartialEq, Eq, Structural)]
pub enum Key {
    Char(char),
    Enter,
    Backspace,
    Left,
    Right,
    Esc,
    /// Any other key.
    Other,
}

/// How a square of the board is drawn.
#[derive(Debug, Clone, Copy, PartialEq, Eq, Structural)]
pub enum Glyph {
    /// A flag.
    Flag,
    /// A closed square.
    Closed,
    /// An opened bomb.
    Bomb,
    /// An opened square with no bomb around it.
    Blank,
    /// An opened square with this many bombs around it.
    Count(usize),
}

/// The colour of the input line.
#[derive(Debug, Clone, Copy, PartialEq, Eq, Structural)]
pub enum InputTint {
    Default,
    Red,
    Yellow,
}

/// The front end's state apart from the board.
pub struct UiState {
    pub exit: bool,
    pub overlay: Option<Overlay>,
    pub input: Seq<char>,
    pub cursor: nat,
    pub input_mode: InputMode,
}

/// The front end: the board on show, whether to quit, the overlay, the
/// input line and its cursor (counted in characters), and the input mode.
#[derive(Debug)]
pub struct App {
    pub board: Board,
    pub exit: bool,
    pub overlay: Option<Overlay>,
    pub input: String,
    pub character_index: usize,
    pub input_mode: InputMode,
}

/// `p` brought into `0..=len`.
pub open spec fn clamp_cursor_spec(p: int, len: nat) -> nat {
    if p < 0 {
        0
    } else if p > len {
        len
    } else {
        p as nat
    }
}

/// `s` with the cursor at `cursor`.
pub open spec fn with_cursor(s: UiState, cursor: nat) -> UiState {
    UiState { cursor, ..s }
}

/// `s` with `overlay` shown.
pub open spec fn with_overlay(s: UiState, overlay: Overlay) -> UiState {
    UiState { overlay: Some(overlay), ..s }
}

/// `s` with the input cleared.
pub open spec fn cleared(s: UiState) -> UiState {
    UiState { input: seq![], ..s }
}

/// `s` after the input is taken: cleared, with the cursor at the start.
pub open spec fn submitted(s: UiState) -> UiState {
    UiState { input: seq![], cursor: 0, ..s }
}

/// `s` asking to quit.
pub open spec fn quitting(s: UiState) -> UiState {
    UiState { exit: true, ..s }
}

/// `s` back in normal mode.
pub open spec fn normal(s: UiState) -> UiState {
    UiState { input_mode: InputMode::Normal, ..s }
}

/// The cursor after one step left.
pub open spec fn cursor_left(cursor: nat, len: nat) -> nat {
    clamp_cursor_spec(if cursor == 0 { 0 } else { cursor - 1 }, len)
}

/// The cursor after one step right (the count saturates at `usize::MAX`).
pub open spec fn cursor_right(cursor: nat, len: nat) -> nat {
    clamp_cursor_spec(if cursor < usize::MAX { (cursor + 1) as int } else { cursor as int }, len)
}

/// Where a typed character goes: at the cursor, or at the end when the
/// cursor is past it.
pub open spec fn insert_index(cursor: nat, len: nat) -> nat {
    if cursor < len {
        cursor
    } else {
        len
    }
}

/// Typing `c`: it goes in at the cursor, and the cursor moves right.
pub open spec fn typed(s: UiState, c: char) -> UiState {
    let input = s.input.insert(insert_index(s.cursor, s.input.len()) as int, c);
    UiState { input, cursor: cursor_right(s.cursor, input.len()), ..s }
}

/// Backspace: unless the cursor is at the start, the character before it
/// goes, and the cursor moves left.
pub open spec fn deleted(s: UiState) -> UiState {
    if s.cursor == 0 {
        s
    } else {
        let len = s.input.len();
        let keep_before = insert_index((s.cursor - 1) as nat, len) as int;
        let keep_after = insert_index(s.cursor, len) as int;
        let input = s.input.take(keep_before) + s.input.skip(keep_after);
        UiState { input, cursor: cursor_left(s.cursor, input.len()), ..s }
    }
}

/// Leaving normal mode for `mode`: the input is cleared and `overlay` shown.
pub open spec fn entered(s: UiState, mode: InputMode, overlay: Overlay) -> UiState {
    UiState { input: seq![], input_mode: mode, overlay: Some(overlay), ..s }
}

/// The effect of a key on the front end, the board being `board`.
pub open spec fn key_step(s: UiState, board: Board, key: Key) -> UiState {
    match s.input_mode {
        InputMode::Normal => match key {
            Key::Char('g') => entered(
                s,
                InputMode::Generate,
                Overlay::Generate {
                    width: board.width,
                    height: board.height,
                    start_x: board.start_x,
                    start_y: board.start_y,
                    bomb_count: board.bomb_count,
                },
            ),
            Key::Char('h') => entered(s, InputMode::Help, Overlay::Help),
            Key::Char('s') => entered(s, InputMode::Save, Overlay::Save),
            Key::Char('l') => entered(s, InputMode::Load, Overlay::Load),
            Key::Char('f') => entered(s, InputMode::Flag, Overlay::Flag),
            Key::Char('o') => entered(s, InputMode::Open, Overlay::Open),
            Key::Enter => s,
            Key::Char('q') => quitting(s),
            _ => with_overlay(s, Overlay::InvalidCommand),
        },
        _ => match key {
            Key::Enter => submitted(s),
            Key::Char(c) => typed(s, c),
            Key::Backspace => deleted(s),
            Key::Left => with_cursor(s, cursor_left(s.cursor, s.input.len())),
            Key::Right => with_cursor(s, cursor_right(s.cursor, s.input.len())),
            Key::Esc => normal(s),
            Key::Other => s,
        },
    }
}

/// How the square `board[y][x]` is drawn; the bombs around an opened square
/// are counted from `(x, y)`, that is around `board[x][y]`.
pub open spec fn glyph_at(rows: Seq<Vec<crate::field::Field>>, y: int, x: int) -> Glyph {
    let f = rows[y]@[x];
    if f.is_flag {
        Glyph::Flag
    } else if !f.is_opened {
        Glyph::Closed
    } else if f.is_bomb {
        Glyph::Bomb
    } else if bombs_around(rows, x, y) == 0 {
        Glyph::Blank
    } else {
        Glyph::Count(bombs_around(rows, x, y) as usize)
    }
}

/// Drawing the board reads only squares that exist: every opened square
/// `board[y][x]` without flag or bomb has its nine neighbours of `(x, y)`
/// on the board.
pub open spec fn board_drawable(rows: Seq<Vec<crate::field::Field>>) -> bool {
    forall|y: int, x: int|
        0 <= y < rows.len() && 0 <= x < rows[y]@.len() ==> {
            let f = #[trigger] rows[y]@[x];
            (!f.is_flag && f.is_opened && !f.is_bomb) ==> (interior(rows, x, y) && x < isize::MAX && y
                < isize::MAX)
        }
}

/// The key help above the input line: in normal mode each command's name
/// and key, otherwise how to go back.
pub open spec fn status_line_spec(mode: InputMode) -> Seq<(Seq<char>, TextStyle)> {
    if mode == InputMode::Normal {
        seq![
            (" Help "@, TextStyle::Plain),
            ("<H> "@, TextStyle::KeyHint),
            (" Generate "@, TextStyle::Plain),
            ("<G> "@, TextStyle::KeyHint),
            (" Redo "@, TextStyle::Plain),
            ("<R> "@, TextStyle::KeyHint),
            (" Undo "@, TextStyle::Plain),
            ("<U> "@, TextStyle::KeyHint),
            (" Save "@, TextStyle::Plain),
            ("<S> "@, TextStyle::KeyHint),
            (" Load "@, TextStyle::Plain),
            ("<L> "@, TextStyle::KeyHint),
            (" Quit "@, TextStyle::Plain),
            ("<Q> "@, TextStyle::KeyHint),
            (" Flag "@, TextStyle::Plain),
            ("<F> "@, TextStyle::KeyHint),
            (" Open Field "@, TextStyle::Plain),
            ("<O> "@, TextStyle::KeyHint),
        ]
    } else {
        seq![("Esc"@, TextStyle::KeyHint), (": go back"@, TextStyle::Plain)]
    }
}

/// The colour of the input line in each mode: red for help, yellow for
/// generating a board, the default otherwise.
pub open spec fn input_tint_spec(mode: InputMode) -> InputTint {
    match mode {
        InputMode::Help => InputTint::Red,
        InputMode::Generate => InputTint::Yellow,
        _ => InputTint::Default,
    }
}

/// The share left on each side of a centred part of `p` percent.
pub open spec fn side_percent(p: u16) -> u16 {
    ((100 - p) / 2) as u16
}

/// The help overlay: the system commands, two empty lines, then the turn
/// commands.
pub open spec fn help_lines_spec() -> Seq<Seq<(Seq<char>, TextStyle)>> {
    titled_commands_lines("SYSTEM COMMANDS"@, system_commands_spec()) + seq![seq![], seq![]]
        + titled_commands_lines("TURN COMMANDS"@, turn_commands_spec())
}

/// In an editing mode, typing a character and then pressing Backspace gives
/// back the state from before, whenever the cursor was on the input.
pub proof fn law_backspace_undoes_typing(s: UiState, board: Board, c: char)
    requires
        s.input_mode != InputMode::Normal,
        s.cursor <= s.input.len(),
        s.cursor < usize::MAX,
    ensures
        key_step(key_step(s, board, Key::Char(c)), board, Key::Backspace) == s,
{
    let t = typed(s, c);
    assert(key_step(s, board, Key::Char(c)) == t);
    let d = deleted(t);
    assert(t.input.take(s.cursor as int) + t.input.skip(s.cursor as int + 1) =~= s.input);
    assert(d == s);
}

/// In an editing mode, typing `c` puts exactly `c` at the cursor (or at the
/// end when the cursor is past it), keeps the characters before it, shifts
/// those after it by one, and puts the cursor just after it.
pub proof fn law_typing_inserts_the_character(s: UiState, board: Board, c: char)
    requires
        s.input_mode != InputMode::Normal,
    ensures
        ({
            let t = key_step(s, board, Key::Char(c));
            let p = if s.cursor <= s.input.len() { s.cursor as int } else { s.input.len() as int };
            &&& t.input.len() == s.input.len() + 1
            &&& t.input[p] == c
            &&& forall|i: int| 0 <= i < p ==> #[trigger] t.input[i] == s.input[i]
            &&& forall|i: int| p <= i < s.input.len() ==> #[trigger] t.input[i + 1] == s.input[i]
            &&& t.input_mode == s.input_mode
            &&& t.exit == s.exit
            &&& t.overlay == s.overlay
        }),
{
}

/// How a square is drawn, by its state: a flag is drawn as a flag whatever
/// else holds; an unflagged closed square as closed; an unflagged opened bomb
/// as a bomb; an unflagged opened safe square as blank when no bomb is around
/// `(x, y)` and as that count otherwise.
pub proof fn law_glyph_by_state(rows: Seq<Vec<crate::field::Field>>, y: int, x: int)
    ensures
        rows[y]@[x].is_flag ==> glyph_at(rows, y, x) == Glyph::Flag,
        !rows[y]@[x].is_flag && !rows[y]@[x].is_opened ==> glyph_at(rows, y, x) == Glyph::Closed,
        !rows[y]@[x].is_flag && rows[y]@[x].is_opened && rows[y]@[x].is_bomb ==> glyph_at(rows, y, x) == Glyph::Bomb,
        !rows[y]@[x].is_flag && rows[y]@[x].is_opened && !rows[y]@[x].is_bomb ==> (if bombs_around(rows, x, y)
            == 0 {
            glyph_at(rows, y, x) == Glyph::Blank
        } else {
            glyph_at(rows, y, x) == Glyph::Count(bombs_around(rows, x, y) as usize)
        }),
{
}

/// In an editing mode, Enter, typing, Backspace and the arrows leave the
/// cursor on the input: at most its length.
pub proof fn law_editing_keeps_cursor_on_input(s: UiState, board: Board, key: Key)
    requires
        s.input_mode != InputMode::Normal,
        key != Key::Esc,
        key != Key::Other,
    ensures
        key_step(s, board, key).cursor <= key_step(s, board, key).input.len(),
        key_step(s, board, key).input_mode == s.input_mode,
{
}

impl App {
    /// The cursor, counted in characters.
    pub open spec fn cursor(self) -> nat {
        self.character_index as nat
    }

    /// The front end's state apart from the board.
    pub open spec fn ui(self) -> UiState {
        UiState {
            exit: self.exit,
            overlay: self.overlay,
            input: self.input@,
            cursor: self.cursor(),
            input_mode: self.input_mode,
        }
    }

    /// Moves the cursor one character left, staying on the input.
    fn move_cursor_left(&mut self)
        ensures
            final(self).board == old(self).board,
            final(self).ui() == with_cursor(old(self).ui(), cursor_left(old(self).cursor(), old(self).input@.len())),
    {
        let cursor_moved_left = if self.character_index > 0 {
            self.character_index - 1
        } else {
            0
        };
        self.character_index = self.clamp_cursor(cursor_moved_left);
    }

    /// Moves the cursor one character right, staying on the input.
    fn move_cursor_right(&mut self)
        ensures
            final(self).board == old(self).board,
            final(self).ui() == with_cursor(old(self).ui(), cursor_right(old(self).cursor(), old(self).input@.len())),
            final(self).input@.len() <= usize::MAX,
    {
        let cursor_moved_right = if self.character_index < usize::MAX {
            self.character_index + 1
        } else {
            self.character_index
        };
        self.character_index = self.clamp_cursor(cursor_moved_right);
    }

    /// Inserts `new_char` at the cursor and moves the cursor right.
    fn enter_char(&mut self, new_char: char)
        ensures
            final(self).board == old(self).board,
            final(self).ui() == typed(old(self).ui(), new_char),
            final(self).cursor() == insert_index(old(self).cursor(), old(self).input@.len()) + 1,
    {
        let index = self.char_index();
        let len = self.input.as_str().unicode_len();
        let mut input = String::from_str(self.input.as_str().substring_char(0, index));
        push_char(&mut input, new_char);
        input.append(self.input.as_str().substring_char(index, len));
        assert(input@ =~= old(self).input@.insert(index as int, new_char));
        self.input = input;
        self.move_cursor_right();
    }

    /// The position, in characters, where a typed character goes: the
    /// cursor, or the end of the input when the cursor is past it.
    fn char_index(&self) -> (i: usize)
        ensures
            i == insert_index(self.cursor(), self.input@.len()),
    {
        let len = self.input.as_str().unicode_len();
        if self.character_index < len {
            self.character_index
        } else {
            len
        }
    }

    /// Deletes the character before the cursor, if any, and moves the
    /// cursor left.
    fn delete_char(&mut self)
        ensures
            final(self).board == old(self).board,
            final(self).ui() == deleted(old(self).ui()),
    {
        let is_not_cursor_leftmost = self.character_index != 0;
        if is_not_cursor_leftmost {
            let current_index = self.character_index;
            let from_left_to_current_index = current_index - 1;
            let len = self.input.as_str().unicode_len();
            let before_end = if from_left_to_current_index < len {
                from_left_to_current_index
            } else {
                len
            };
            let after_start = if current_index < len {
                current_index
            } else {
                len
            };
            let mut input = String::from_str(self.input.as_str().substring_char(0, before_end));
            input.append(self.input.as_str().substring_char(after_start, len));
            assert(input@ =~= old(self).input@.take(before_end as int) + old(self).input@.skip(
                after_start as int,
            ));
            self.input = input;
            self.move_cursor_left();
        }
    }

    /// `new_cursor_pos` brought onto the input: at most its length.
    fn clamp_cursor(&self, new_cursor_pos: usize) -> (p: usize)
        ensures
            p == clamp_cursor_spec(new_cursor_pos as int, self.input@.len()),
            self.input@.len() <= usize::MAX,
    {
        let len = self.input.as_str().unicode_len();
        if new_cursor_pos > len {
            len
        } else {
            new_cursor_pos
        }
    }

    /// Moves the cursor to the start of the input.
    fn reset_cursor(&mut self)
        ensures
            final(self).board == old(self).board,
            final(self).ui() == with_cursor(old(self).ui(), 0),
    {
        self.character_index = 0;
    }

    /// Takes the input: it is cleared and the cursor goes back to the start.
    fn submit_message(&mut self)
        ensures
            final(self).board == old(self).board,
            final(self).ui() == submitted(old(self).ui()),
    {
        self.input = String::new();
        self.reset_cursor();
    }

    /// Clears the input.
    fn clear_input(&mut self)
        ensures
            final(self).board == old(self).board,
            final(self).ui() == cleared(old(self).ui()),
    {
        self.input = String::new();
    }

    /// Handles a key press. In normal mode, `g`, `h`, `s`, `l`, `f` and `o`
    /// clear the input and open their mode and overlay, `q` quits, Enter does
    /// nothing and any other key shows the invalid-command overlay. In the
    /// other modes, Enter takes the input, characters are typed, Backspace
    /// deletes, the arrows move the cursor and Esc returns to normal mode.
    pub fn handle_key_event(&mut self, key_event: Key)
        ensures
            final(self).board == old(self).board,
            final(self).ui() == key_step(old(self).ui(), old(self).board, key_event),
            (old(self).input_mode != InputMode::Normal && key_event is Char)
                ==> final(self).cursor() == insert_index(old(self).cursor(), old(self).input@.len()) + 1,
            (old(self).input_mode != InputMode::Normal && key_event != Key::Esc && key_event != Key::Other)
                ==> final(self).cursor() <= final(self).input@.len(),
    {
        proof {
            if self.input_mode != InputMode::Normal && key_event != Key::Esc && key_event != Key::Other {
                law_editing_keeps_cursor_on_input(self.ui(), self.board, key_event);
            }
        }
        match self.input_mode {
            InputMode::Normal => match key_event {
                Key::Char('g') => {
                    self.clear_input();
                    self.input_mode = InputMode::Generate;
                    self.overlay = Some(
                        Overlay::Generate {
                            width: self.board.width,
                            height: self.board.height,
                            start_x: self.board.start_x,
                            start_y: self.board.start_y,
                            bomb_count: self.board.bomb_count,
                        },
                    );
                },
                Key::Char('h') => {
                    self.clear_input();
                    self.input_mode = InputMode::Help;
                    self.overlay = Some(Overlay::Help);
                },
                Key::Char('s') => {
                    self.clear_input();
                    self.input_mode = InputMode::Save;
                    self.overlay = Some(Overlay::Save);
                },
                Key::Char('l') => {
                    self.clear_input();
                    self.input_mode = InputMode::Load;
                    self.overlay = Some(Overlay::Load);
                },
                Key::Char('f') => {
                    self.clear_input();
                    self.input_mode = InputMode::Flag;
                    self.overlay = Some(Overlay::Flag);
                },
                Key::Char('o') => {
                    self.clear_input();
                    self.input_mode = InputMode::Open;
                    self.overlay = Some(Overlay::Open);
                },
                Key::Enter => {},
                Key::Char('q') => self.exit = true,
                _ => self.overlay = Some(Overlay::InvalidCommand),
            },
            InputMode::Help | InputMode::Generate | InputMode::Save | InputMode::Load
            | InputMode::Flag | InputMode::Open => match key_event {
                Key::Enter => self.submit_message(),
                Key::Char(to_insert) => self.enter_char(to_insert),
                Key::Backspace => self.delete_char(),
                Key::Left => self.move_cursor_left(),
                Key::Right => self.move_cursor_right(),
                Key::Esc => self.input_mode = InputMode::Normal,
                _ => {},
            },
        }
    }

    /// Shows the help overlay.
    fn show_help_message(&mut self)
        ensures
            final(self).board == old(self).board,
            final(self).ui() == with_overlay(old(self).ui(), Overlay::Help),
    {
        self.overlay = Some(Overlay::Help);
    }

    /// Shows the overlay for generating a board with these settings.
    fn generate_board(
        &mut self,
        width: usize,
        height: usize,
        start_x: usize,
        start_y: usize,
        bomb_count: usize,
    )
        ensures
            final(self).board == old(self).board,
            final(self).ui() == with_overlay(
                old(self).ui(),
                (Overlay::Generate { width, height, start_x, start_y, bomb_count }),
            ),
    {
        self.overlay = Some(Overlay::Generate { width, height, start_x, start_y, bomb_count });
    }

    /// Shows the redo overlay.
    fn redo(&mut self)
        ensures
            final(self).board == old(self).board,
            final(self).ui() == with_overlay(old(self).ui(), Overlay::Redo),
    {
        self.overlay = Some(Overlay::Redo);
    }

    /// Shows the undo overlay.
    fn undo(&mut self)
        ensures
            final(self).board == old(self).board,
            final(self).ui() == with_overlay(old(self).ui(), Overlay::Undo),
    {
        self.overlay = Some(Overlay::Undo);
    }

    /// Asks to quit.
    fn exit(&mut self)
        ensures
            final(self).board == old(self).board,
            final(self).ui() == quitting(old(self).ui()),
    {
        self.exit = true;
    }

    /// How each square of the board is drawn, one entry of `board` per line.
    pub fn board_glyphs(&self) -> (glyphs: Vec<Vec<Glyph>>)
        requires
            board_drawable(self.board.board@),
        ensures
            glyphs@.len() == self.board.board@.len(),
            forall|y: int|
                0 <= y < glyphs@.len() ==> (#[trigger] glyphs@[y])@.len() == self.board.board@[y]@.len(),
            forall|y: int, x: int|
                0 <= y < glyphs@.len() && 0 <= x < glyphs@[y]@.len() ==> #[trigger] glyphs@[y]@[x]
                    == glyph_at(self.board.board@, y, x),
    {
        let ghost rows = self.board.board@;
        let mut glyphs: Vec<Vec<Glyph>> = Vec::new();
        let mut y: usize = 0;
        while y < self.board.board.len()
            invariant
                rows == self.board.board@,
                board_drawable(rows),
                y <= rows.len(),
                glyphs@.len() == y,
                forall|i: int| 0 <= i < y ==> (#[trigger] glyphs@[i])@.len() == rows[i]@.len(),
                forall|i: int, x: int|
                    0 <= i < y && 0 <= x < glyphs@[i]@.len() ==> #[trigger] glyphs@[i]@[x] == glyph_at(rows, i, x),
            decreases rows.len() - y,
        {
            let row = &self.board.board[y];
            let mut line: Vec<Glyph> = Vec::new();
            let mut x: usize = 0;
            while x < row.len()
                invariant
                    rows == self.board.board@,
                    board_drawable(rows),
                    y < rows.len(),
                    row@ == rows[y as int]@,
                    x <= row@.len(),
                    line@.len() == x,
                    forall|j: int| 0 <= j < x ==> #[trigger] line@[j] == glyph_at(rows, y as int, j),
                decreases row@.len() - x,
            {
                let field = row[x];
                assert(field == rows[y as int]@[x as int]);
                let glyph = if field.is_flag {
                    Glyph::Flag
                } else if !field.is_opened {
                    Glyph::Closed
                } else if field.is_bomb {
                    Glyph::Bomb
                } else {
                    let n = self.board.get_bomb_neighbor(x as isize, y as isize);
                    if n == 0 {
                        Glyph::Blank
                    } else {
                        Glyph::Count(n)
                    }
                };
                line.push(glyph);
                x = x + 1;
            }
            let ghost prev = glyphs@;
            glyphs.push(line);
            proof {
                assert forall|i: int, j: int|
                    0 <= i < y + 1 && 0 <= j < glyphs@[i]@.len() implies #[trigger] glyphs@[i]@[j] == glyph_at(rows, i, j) by {
                    if i < y {
                        assert(glyphs@[i] == prev[i]);
                    }
                }
            }
            y = y + 1;
        }
        glyphs
    }

    /// The key help shown above the input line.
    pub fn status_line(&self) -> (line: StyledLine)
        ensures
            line_view(line) == status_line_spec(self.input_mode),
    {
        let mut spans: Vec<StyledSpan> = Vec::new();
        if self.input_mode == InputMode::Normal {
            let names = [" Help ", " Generate ", " Redo ", " Undo ", " Save ", " Load ", " Quit ", " Flag ", " Open Field "];
            let keys = ["<H> ", "<G> ", "<R> ", "<U> ", "<S> ", "<L> ", "<Q> ", "<F> ", "<O> "];
            let ghost expected = status_line_spec(self.input_mode);
            let mut i: usize = 0;
            while i < 9
                invariant
                    self.input_mode == InputMode::Normal,
                    expected == status_line_spec(self.input_mode),
                    names@ == seq![" Help ", " Generate ", " Redo ", " Undo ", " Save ", " Load ", " Quit ", " Flag ", " Open Field "],
                    keys@ == seq!["<H> ", "<G> ", "<R> ", "<U> ", "<S> ", "<L> ", "<Q> ", "<F> ", "<O> "],
                    i <= 9,
                    spans@.len() == 2 * i,
                    forall|j: int| 0 <= j < 2 * i ==> (#[trigger] spans@[j]).text@ == expected[j].0 && spans@[j].style == expected[j].1,
                decreases 9 - i,
            {
                let ghost before = spans@;
                spans.push(StyledSpan { text: String::from_str(names[i]), style: TextStyle::Plain });
                spans.push(StyledSpan { text: String::from_str(keys[i]), style: TextStyle::KeyHint });
                assert forall|j: int| 0 <= j < 2 * i + 2 implies (#[trigger] spans@[j]).text@ == expected[j].0 && spans@[j].style == expected[j].1 by {
                    if j < 2 * i {
                        assert(spans@[j] == before[j]);
                    }
                }
                i = i + 1;
            }
            let line = StyledLine { spans };
            assert(line_view(line) =~= expected);
            line
        } else {
            spans.push(StyledSpan { text: String::from_str("Esc"), style: TextStyle::KeyHint });
            spans.push(StyledSpan { text: String::from_str(": go back"), style: TextStyle::Plain });
            let line = StyledLine { spans };
            assert(line_view(line) =~= status_line_spec(self.input_mode));
            line
        }
    }

    /// The colour of the input line.
    pub fn input_tint(&self) -> (tint: InputTint)
        ensures
            tint == input_tint_spec(self.input_mode),
    {
        match self.input_mode {
            InputMode::Help => InputTint::Red,
            InputMode::Generate => InputTint::Yellow,
            _ => InputTint::Default,
        }
    }

    /// A rectangle of `percent_x` by `percent_y` percent of `r`, centred in
    /// it: the middle of a vertical split of `r` into `(100 - percent_y) / 2`,
    /// `percent_y` and `(100 - percent_y) / 2` percent, split horizontally in
    /// the same way by `percent_x`. Rectangles are `(x, y, width, height)`.
    pub fn centered_rect(percent_x: u16, percent_y: u16, r: (u16, u16, u16, u16)) -> (c: (u16, u16, u16, u16))
        requires
            percent_x <= 100,
            percent_y <= 100,
        ensures
            c == layout_split(
                false,
                (side_percent(percent_x), percent_x, side_percent(percent_x)),
                layout_split(true, (side_percent(percent_y), percent_y, side_percent(percent_y)), r)[1],
            )[1],
    {
        let side_y = (100 - percent_y) / 2;
        let popup_layout = split_percentages(true, (side_y, percent_y, side_y), r);
        let side_x = (100 - percent_x) / 2;
        let columns = split_percentages(false, (side_x, percent_x, side_x), popup_layout[1]);
        columns[1]
    }

    /// Whether drawing the board reads only squares that exist.
    pub fn can_draw_board(&self) -> (r: bool)
        ensures
            r == board_drawable(self.board.board@),
    {
        let ghost rows = self.board.board@;
        let n = self.board.board.len();
        let mut y: usize = 0;
        while y < n
            invariant
                rows == self.board.board@,
                n == rows.len(),
                y <= n,
                forall|i: int, x: int|
                    0 <= i < y && 0 <= x < rows[i]@.len() ==> {
                        let f = #[trigger] rows[i]@[x];
                        (!f.is_flag && f.is_opened && !f.is_bomb) ==> (interior(rows, x, i) && x < isize::MAX
                            && i < isize::MAX)
                    },
            decreases n - y,
        {
            let row = &self.board.board[y];
            let mut x: usize = 0;
            while x < row.len()
                invariant
                    rows == self.board.board@,
                    n == rows.len(),
                    y < n,
                    row@ == rows[y as int]@,
                    x <= row@.len(),
                    forall|i: int, j: int|
                        0 <= i < y && 0 <= j < rows[i]@.len() ==> {
                            let f = #[trigger] rows[i]@[j];
                            (!f.is_flag && f.is_opened && !f.is_bomb) ==> (interior(rows, j, i) && j
                                < isize::MAX && i < isize::MAX)
                        },
                    forall|j: int|
                        0 <= j < x ==> {
                            let f = #[trigger] rows[y as int]@[j];
                            (!f.is_flag && f.is_opened && !f.is_bomb) ==> (interior(rows, j, y as int) && j
                                < isize::MAX && y < isize::MAX)
                        },
                decreases row@.len() - x,
            {
                let f = row[x];
                if !f.is_flag && f.is_opened && !f.is_bomb {
                    let ok = x >= 1 && x + 1 < n && y >= 1 && x < isize::MAX as usize && y
                        < isize::MAX as usize && y + 1 < self.board.board[x - 1].len() && y + 1
                        < self.board.board[x].len() && y + 1 < self.board.board[x + 1].len();
                    if !ok {
                        assert(!interior(rows, x as int, y as int) || x >= isize::MAX || y >= isize::MAX);
                        return false;
                    }
                }
                x = x + 1;
            }
            y = y + 1;
        }
        true
    }

    /// The help overlay: the system commands, two empty lines, then the turn
    /// commands.
    pub fn help_lines() -> (lines: Vec<StyledLine>)
        ensures
            lines_view(lines@) == help_lines_spec(),
    {
        let system = system_commands();
        let turn = turn_commands();
        let mut lines = Command::render_commands("SYSTEM COMMANDS", system.as_slice());
        let ghost first = lines@;
        lines.push(StyledLine { spans: Vec::new() });
        lines.push(StyledLine { spans: Vec::new() });
        let mut rest = Command::render_commands("TURN COMMANDS", turn.as_slice());
        let ghost second = lines@;
        lines.append(&mut rest);
        proof {
            assert(lines_view(second) =~= lines_view(first) + seq![seq![], seq![]]) by {
                assert(line_view(second[first.len() as int]) =~= seq![]);
                assert(line_view(second[first.len() as int + 1]) =~= seq![]);
            }
            assert(lines_view(lines@) =~= lines_view(second) + titled_commands_lines("TURN COMMANDS"@, turn_commands_spec()));
        }
        lines
    }
}

impl Default for App {
    /// A fresh 10 by 10 board with ten bombs and the start in its middle,
    /// in normal mode with an empty input.
    fn default() -> (app: Self)
        ensures
            is_fresh_board(app.board, 10, 10, 5, 5, 10),
            app.ui() == (UiState {
                exit: false,
                overlay: None,
                input: seq![],
                cursor: 0,
                input_mode: InputMode::Normal,
            }),
    {
        let board = match Board::new(10, 10, 5, 5, 10) {
            Ok(b) => b,
            Err(_) => {
                proof {
                    assert(false);
                }
                Board {
                    board: Vec::new(),
                    width: 0,
                    height: 0,
                    start_x: 0,
                    start_y: 0,
                    bomb_count: 0,
                }
            },
        };
        App {
            board,
            exit: false,
            overlay: None,
            input: String::new(),
            character_index: 0,
            input_mode: InputMode::Normal,
        }
    }
}

} // verus!
