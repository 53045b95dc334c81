use winesmeeper::commands::{system_commands, turn_commands, Command, StyledLine, TextStyle};
use winesmeeper::text::{parse_usize, push_decimal, split_lines, str_eq};

fn flat(lines: &[StyledLine]) -> Vec<Vec<(String, TextStyle)>> {
    lines.iter().map(|l| l.spans.iter().map(|s| (s.text.clone(), s.style)).collect()).collect()
}

#[test]
fn push_decimal_writes_digits() {
    let mut s = String::from("n=");
    push_decimal(&mut s, 0);
    push_decimal(&mut s, 907);
    assert_eq!(s, "n=0907");
    let mut t = String::new();
    push_decimal(&mut t, usize::MAX);
    assert_eq!(t, usize::MAX.to_string());
}

#[test]
fn parse_usize_follows_str_parse() {
    for s in ["0", "42", "+7", "007", "", "+", "-1", "1a", " 1", "18446744073709551615", "18446744073709551616", "99999999999999999999"] {
        assert_eq!(parse_usize(s), s.parse::<usize>().ok(), "{s}");
    }
}

#[test]
fn split_lines_follows_str_lines() {
    for s in ["", "a", "a\n", "a\n\nb", "a\r\nb\r", "\n", "x\r\n", " Quit:\n\tcloses the game"] {
        let expected: Vec<String> = s.lines().map(|l| l.to_string()).collect();
        assert_eq!(split_lines(s), expected, "{s:?}");
    }
}

#[test]
fn str_eq_compares_characters() {
    assert!(str_eq("row", "row"));
    assert!(!str_eq("row", "rows"));
    assert!(!str_eq("row", "raw"));
    assert!(str_eq("", ""));
}

#[test]
fn command_lists() {
    let s = system_commands();
    assert_eq!(s.iter().map(|c| c.key).collect::<String>(), "HGRSLQ");
    assert_eq!(s[5].name, " Quit");
    let t = turn_commands();
    assert_eq!(t.iter().map(|c| c.key).collect::<String>(), "FO");
    assert_eq!(t[1].name, " Open Field");
}

#[test]
fn render_one_command() {
    let c = Command { name: " Quit", key: 'Q', description: " Quit:\n\tcloses the game" };
    let lines = flat(&c.render());
    assert_eq!(
        lines,
        vec![
            vec![("(Q)".to_string(), TextStyle::KeyHint), (" Quit".to_string(), TextStyle::Plain)],
            vec![("\t Quit:".to_string(), TextStyle::Plain)],
            vec![("\t\tcloses the game".to_string(), TextStyle::Plain)],
            vec![],
        ]
    );
}

#[test]
fn render_commands_titles_the_list() {
    let lines = flat(&Command::render_commands("TURN COMMANDS", &turn_commands()));
    assert_eq!(lines[0], vec![("TURN COMMANDS".to_string(), TextStyle::Heading)]);
    assert!(lines[1].is_empty());
    assert_eq!(lines[2][0].0, "(F)");
    assert_eq!(lines.len(), 2 + 4 + 5);
    assert_eq!(lines[9], vec![("\t\tBut fortunately you can undo your destiny. ".to_string(), TextStyle::Plain)]);
}

#[test]
fn parse_reads_back_decimal() {
    for n in [0usize, 9, 10, 12345, usize::MAX] {
        let mut s = String::new();
        push_decimal(&mut s, n);
        assert_eq!(parse_usize(&s), Some(n));
    }
}
