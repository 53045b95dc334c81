//! The commands of the game and their help text, as styled lines.

use vstd::prelude::*;

use crate::text::{lines_of, push_char, split_lines, string_views};
use vstd::string::StringExecFns;

verus! {

/// A command: its name, the key that starts it, and what it does.
#[derive(Debug, Clone, Copy)]
pub struct Command {
    pub name: &'static str,
    pub key: char,
    pub description: &'static str,
}

/// How a piece of help text is shown.
#[derive(Debug, Clone, Copy, PartialEq, Eq, Structural)]
pub enum TextStyle {
    /// Ordinary text.
    Plain,
    /// A command's key: blue and bold.
    KeyHint,
    /// A section title: bold and underlined.
    Heading,
}

/// A piece of text in one style.
pub struct StyledSpan {
    pub text: String,
    pub style: TextStyle,
}

/// One line of text, made of spans.
pub struct StyledLine {
    pub spans: Vec<StyledSpan>,
}

/// A line as the texts and styles of its spans.
pub open spec fn line_view(l: StyledLine) -> Seq<(Seq<char>, TextStyle)> {
    l.spans@.map_values(|s: StyledSpan| (s.text@, s.style))
}

/// Lines as the texts and styles of their spans.
pub open spec fn lines_view(ls: Seq<StyledLine>) -> Seq<Seq<(Seq<char>, TextStyle)>> {
    ls.map_values(|l: StyledLine| line_view(l))
}

/// The help of one command: the key in brackets as a key hint followed by
/// the name; then each line of the description after a tab; then an empty
/// line.
pub open spec fn command_lines(c: Command) -> Seq<Seq<(Seq<char>, TextStyle)>> {
    seq![seq![(seq!['(', c.key, ')'], TextStyle::KeyHint), (c.name@, TextStyle::Plain)]]
        + lines_of(c.description@).map_values(
        |l: Seq<char>| seq![(seq!['\t'] + l, TextStyle::Plain)],
    ) + seq![seq![]]
}

/// The help of several commands, one after the other.
pub open spec fn commands_lines(cs: Seq<Command>) -> Seq<Seq<(Seq<char>, TextStyle)>>
    decreases cs.len(),
{
    if cs.len() == 0 {
        seq![]
    } else {
        commands_lines(cs.drop_last()) + command_lines(cs.last())
    }
}

/// A titled list of commands: the title's lines as headings, an empty line,
/// then the help of each command.
pub open spec fn titled_commands_lines(title: Seq<char>, cs: Seq<Command>) -> Seq<
    Seq<(Seq<char>, TextStyle)>,
> {
    seq![lines_of(title).map_values(|l: Seq<char>| (l, TextStyle::Heading)), seq![]]
        + commands_lines(cs)
}

/// The commands that manage the game.
pub open spec fn system_commands_spec() -> Seq<Command> {
    seq![
        Command { name: " Help", key: 'H', description: " Help: Prints an overview of all System and Turn Commands" },
        Command { name: " Generate", key: 'G', description: " Starts the generation of a new Board:\n\n\t<x-size> <y-size> <x-start> <y-start> <bomb-count> " },
        Command { name: " Redo", key: 'R', description: " Redo <count>:\n\tmakes your last <count> undo's done " },
        Command { name: " Save", key: 'S', description: " Save <filename>:\n\tsaves your game at a given file " },
        Command { name: " Load", key: 'L', description: " Load <filename>:\n\tloads the save game at the specified file " },
        Command { name: " Quit", key: 'Q', description: " Quit:\n\tcloses the game" },
    ]
}

/// The commands that play a turn.
pub open spec fn turn_commands_spec() -> Seq<Command> {
    seq![
        Command { name: " Flag", key: 'F', description: " Flag <x> <y>:\n\tmark this position as flag or remove the flag " },
        Command { name: " Open Field", key: 'O', description: " Open <x> <y>:\n\tOpens a field, and if you hit a bomb, you lose\n\tBut fortunately you can undo your destiny. " },
    ]
}

/// The commands that manage the game: help, generate, redo, save, load and
/// quit.
pub fn system_commands() -> (cs: Vec<Command>)
    ensures
        cs@ == system_commands_spec(),
{
    let cs = vec![
        Command { name: " Help", key: 'H', description: " Help: Prints an overview of all System and Turn Commands" },
        Command { name: " Generate", key: 'G', description: " Starts the generation of a new Board:\n\n\t<x-size> <y-size> <x-start> <y-start> <bomb-count> " },
        Command { name: " Redo", key: 'R', description: " Redo <count>:\n\tmakes your last <count> undo's done " },
        Command { name: " Save", key: 'S', description: " Save <filename>:\n\tsaves your game at a given file " },
        Command { name: " Load", key: 'L', description: " Load <filename>:\n\tloads the save game at the specified file " },
        Command { name: " Quit", key: 'Q', description: " Quit:\n\tcloses the game" },
    ];
    assert(cs@ =~= system_commands_spec());
    cs
}

/// The commands that play a turn: flag and open.
pub fn turn_commands() -> (cs: Vec<Command>)
    ensures
        cs@ == turn_commands_spec(),
{
    let cs = vec![
        Command { name: " Flag", key: 'F', description: " Flag <x> <y>:\n\tmark this position as flag or remove the flag " },
        Command { name: " Open Field", key: 'O', description: " Open <x> <y>:\n\tOpens a field, and if you hit a bomb, you lose\n\tBut fortunately you can undo your destiny. " },
    ];
    assert(cs@ =~= turn_commands_spec());
    cs
}

/// A line of one plain span.
fn plain_line(text: String) -> (l: StyledLine)
    ensures
        line_view(l) == seq![(text@, TextStyle::Plain)],
{
    let mut spans: Vec<StyledSpan> = Vec::new();
    spans.push(StyledSpan { text, style: TextStyle::Plain });
    let l = StyledLine { spans };
    assert(line_view(l) =~= seq![(text@, TextStyle::Plain)]);
    l
}

/// A line without spans.
fn empty_line() -> (l: StyledLine)
    ensures
        line_view(l) == Seq::<(Seq<char>, TextStyle)>::empty(),
{
    let l = StyledLine { spans: Vec::new() };
    assert(line_view(l) =~= Seq::<(Seq<char>, TextStyle)>::empty());
    l
}

impl Command {
    /// The help lines of this command.
    pub fn render(&self) -> (lines: Vec<StyledLine>)
        ensures
            lines_view(lines@) == command_lines(*self),
    {
        let mut lines: Vec<StyledLine> = Vec::new();
        let mut key = String::new();
        push_char(&mut key, '(');
        push_char(&mut key, self.key);
        push_char(&mut key, ')');
        assert(key@ =~= seq!['(', self.key, ')']);
        let mut spans: Vec<StyledSpan> = Vec::new();
        spans.push(StyledSpan { text: key, style: TextStyle::KeyHint });
        spans.push(StyledSpan { text: String::from_str(self.name), style: TextStyle::Plain });
        let first = StyledLine { spans };
        assert(line_view(first) =~= seq![(seq!['(', self.key, ')'], TextStyle::KeyHint), (self.name@, TextStyle::Plain)]);
        lines.push(first);

        let description = split_lines(self.description);
        let ghost desc = lines_of(self.description@);
        let ghost tabbed = desc.map_values(|l: Seq<char>| seq![(seq!['\t'] + l, TextStyle::Plain)]);
        let mut i: usize = 0;
        while i < description.len()
            invariant
                string_views(description@) == desc,
                desc == lines_of(self.description@),
                tabbed == desc.map_values(|l: Seq<char>| seq![(seq!['\t'] + l, TextStyle::Plain)]),
                i <= description@.len(),
                lines_view(lines@) == seq![seq![(seq!['(', self.key, ')'], TextStyle::KeyHint), (self.name@, TextStyle::Plain)]]
                    + tabbed.take(i as int),
            decreases description@.len() - i,
        {
            let ghost before = lines@;
            let mut text = String::new();
            push_char(&mut text, '\t');
            text.append(description[i].as_str());
            assert(text@ == seq!['\t'] + desc[i as int]);
            lines.push(plain_line(text));
            assert(lines_view(lines@) =~= lines_view(before).push(tabbed[i as int]));
            assert(tabbed.take(i + 1) =~= tabbed.take(i as int).push(tabbed[i as int]));
            i = i + 1;
        }
        assert(tabbed.take(i as int) =~= tabbed);
        let ghost before = lines@;
        lines.push(empty_line());
        assert(lines_view(lines@) =~= lines_view(before).push(seq![]));
        assert(lines_view(lines@) =~= command_lines(*self));
        lines
    }

    /// A titled list of commands: the title as a heading, an empty line, then
    /// the help lines of each command in order.
    pub fn render_commands(title: &str, commands: &[Command]) -> (lines: Vec<StyledLine>)
        ensures
            lines_view(lines@) == titled_commands_lines(title@, commands@),
    {
        let mut lines: Vec<StyledLine> = Vec::new();
        let title_lines = split_lines(title);
        let mut heading: Vec<StyledSpan> = Vec::new();
        let mut i: usize = 0;
        while i < title_lines.len()
            invariant
                string_views(title_lines@) == lines_of(title@),
                i <= title_lines@.len(),
                heading@.len() == i,
                heading@.map_values(|s: StyledSpan| (s.text@, s.style)) == lines_of(title@).take(i as int).map_values(
                    |l: Seq<char>| (l, TextStyle::Heading),
                ),
            decreases title_lines@.len() - i,
        {
            let ghost before = heading@;
            assert(string_views(title_lines@)[i as int] == title_lines@[i as int]@);
            heading.push(StyledSpan { text: String::from_str(title_lines[i].as_str()), style: TextStyle::Heading });
            assert(lines_of(title@).take(i + 1) =~= lines_of(title@).take(i as int).push(lines_of(title@)[i as int]));
            let ghost lt = lines_of(title@);
            let ghost m_after = heading@.map_values(|s: StyledSpan| (s.text@, s.style));
            let ghost m_before = before.map_values(|s: StyledSpan| (s.text@, s.style));
            let ghost r_after = lt.take(i + 1).map_values(|l: Seq<char>| (l, TextStyle::Heading));
            let ghost r_before = lt.take(i as int).map_values(|l: Seq<char>| (l, TextStyle::Heading));
            assert(m_before == r_before);
            assert forall|j: int| 0 <= j <= i implies m_after[j] == r_after[j] by {
                if j < i {
                    assert(heading@[j] == before[j]);
                    assert(m_after[j] == m_before[j]);
                    assert(r_before[j] == r_after[j]);
                } else {
                    assert(heading@[j].text@ == lt[j]);
                }
            }
            assert(m_after =~= r_after);
            i = i + 1;
        }
        assert(lines_of(title@).take(i as int) =~= lines_of(title@));
        lines.push(StyledLine { spans: heading });
        lines.push(empty_line());
        let mut k: usize = 0;
        while k < commands.len()
            invariant
                k <= commands@.len(),
                lines_view(lines@) == seq![lines_of(title@).map_values(|l: Seq<char>| (l, TextStyle::Heading)), seq![]]
                    + commands_lines(commands@.take(k as int)),
            decreases commands@.len() - k,
        {
            let ghost before = lines@;
            let mut more = commands[k].render();
            lines.append(&mut more);
            assert(commands@.take(k + 1).drop_last() =~= commands@.take(k as int));
            assert(lines_view(lines@) =~= lines_view(before) + command_lines(commands@[k as int]));
            k = k + 1;
        }
        assert(commands@.take(k as int) =~= commands@);
        lines
    }
}

} // verus!
