use edlite::buffer::{string_to_lines, Buffer, CommandIndex, Operation};
use edlite::commands;
use edlite::editor::{CreateError, Editor, Output, Request, WriteOutcome};

fn numbered(count: usize, cursor: usize) -> Buffer {
    let mut buffer = Buffer::default();
    buffer.cursor = cursor;
    buffer.lines = (0..count).map(|i| i.to_string()).collect();
    buffer
}

fn strings(items: &[&str]) -> Vec<String> {
    items.iter().map(|s| s.to_string()).collect()
}

#[test]
fn lines_of_text_drop_the_unterminated_tail() {
    assert_eq!(string_to_lines("a\nb\n"), strings(&["a", "b"]));
    assert_eq!(string_to_lines("a\nb"), strings(&["a"]));
    assert_eq!(string_to_lines(""), Vec::<String>::new());
    assert_eq!(string_to_lines("\n\n"), strings(&["", ""]));
    assert_eq!(string_to_lines("héllo\nwörld\n"), strings(&["héllo", "wörld"]));
}

#[test]
fn buffer_text_joins_lines() {
    let mut buffer = Buffer::default();
    assert_eq!(buffer.to_string(), "");
    buffer.lines = strings(&["one", "two", "three"]);
    assert_eq!(buffer.to_string(), "one\ntwo\nthree");
}

#[test]
fn text_ending_in_newline_round_trips() {
    let text = "first\nsecond\n\nlast\n";
    let mut buffer = Buffer::default();
    buffer.lines = string_to_lines(text);
    assert_eq!(buffer.to_string() + "\n", text);
}

#[test]
fn lines_round_trip_through_text() {
    let lines = strings(&["x", "", "y z"]);
    let mut buffer = Buffer::default();
    buffer.lines = lines.clone();
    assert_eq!(string_to_lines(&(buffer.to_string() + "\n")), lines);
    assert_eq!(string_to_lines(&buffer.to_string()), strings(&["x", ""]));
}

#[test]
fn new_buffer_reads_text() {
    let buffer = Buffer::new(Some("a\nb\nc"));
    assert_eq!(buffer.lines, strings(&["a", "b", "c"]));
    assert_eq!(buffer.to_string(), "a\nb\nc");
    assert_eq!(buffer.cursor, 0);
    assert!(!buffer.modified);
    assert_eq!(buffer.filename, "");
    assert_eq!(buffer.marker, 0);
    let ended = Buffer::new(Some("a\nb\n"));
    assert_eq!(ended.lines, strings(&["a", "b"]));
    assert_eq!(ended.to_string() + "\n", "a\nb\n");
    assert_eq!(Buffer::new(Some("\n")).lines, strings(&[""]));
    assert!(Buffer::new(Some("")).lines.is_empty());
    let empty = Buffer::new(None);
    assert!(empty.lines.is_empty());
}

#[test]
fn session_keeps_an_unterminated_last_line() {
    let mut editor = Editor::new(Some("one\ntwo"), None, false);
    assert_eq!(editor.buffer.lines, strings(&["one", "two"]));
    let (_, request) = editor.handle_line("wcopy.txt\n");
    match request {
        Request::WriteFile(_, text) => assert_eq!(text, "one\ntwo"),
        _ => panic!("expected a write request"),
    }
}

#[test]
fn dollar_and_dot_read_as_numbers() {
    let buffer = numbered(9, 4);
    assert_eq!(buffer.parse_index("$p").0, buffer.parse_index("9p").0);
    assert_eq!(buffer.parse_index(".p").0, buffer.parse_index("4p").0);
    assert_eq!(buffer.parse_index("2,$p").0, buffer.parse_index("2,9p").0);
    assert_eq!(buffer.parse_index("2,.p").0, buffer.parse_index("2,4p").0);
    assert_eq!(buffer.parse_index(".3p").0, buffer.parse_index("43p").0);
}

#[test]
fn signs_shift_line_numbers() {
    let buffer = numbered(9, 4);
    assert_eq!(buffer.parse_index("+-+3p").0, buffer.parse_index("4p").0);
    assert_eq!(buffer.parse_index("--5p").0, Ok(Some((3, None))));
    assert_eq!(buffer.parse_index("2,++5p").0, buffer.parse_index("2,7p").0);
    assert_eq!(buffer.parse_index("---3p").0, Err(()));
    assert_eq!(buffer.parse_index("1,-1p").0, Err(()));
}

#[test]
fn command_index_from_pair() {
    let index = CommandIndex::from((3, Some(7)));
    assert_eq!(index.begining, 3);
    assert_eq!(index.end, Some(7));
}

#[test]
fn plain_commands_are_read_by_first_character() {
    assert!(matches!(commands::parse_command("q"), commands::Operation::Quit));
    assert!(matches!(commands::parse_command("Q"), commands::Operation::Quit));
    assert!(matches!(commands::parse_command("P"), commands::Operation::TogglePrompt));
    assert!(matches!(commands::parse_command("i"), commands::Operation::Insert));
    assert!(matches!(commands::parse_command("a"), commands::Operation::Append));
    assert!(matches!(commands::parse_command("H"), commands::Operation::ToggleVerbose));
    assert!(matches!(commands::parse_command("p"), commands::Operation::Print));
    match commands::parse_command("w out.txt") {
        commands::Operation::Write(file) => assert_eq!(file, " out.txt"),
        _ => panic!("expected a write"),
    }
    match commands::parse_command("zap") {
        commands::Operation::Error(m) => assert_eq!(m, "Unknown command"),
        _ => panic!("expected an error"),
    }
    assert!(matches!(commands::parse_command(""), commands::Operation::Error(_)));
}

#[test]
fn addressed_print_gets_its_range() {
    let buffer = numbered(20, 1);
    match buffer.parse_command("2,5p") {
        Operation::Print(Some(index)) => {
            assert_eq!(index.begining, 2);
            assert_eq!(index.end, Some(5));
        },
        _ => panic!("expected a print with a range"),
    }
    assert!(matches!(buffer.parse_command("0p"), Operation::Print(None)));
    assert!(matches!(buffer.parse_command("0,5p"), Operation::Error(_)));
    assert!(matches!(buffer.parse_command("p"), Operation::Print(None)));
    match buffer.parse_command("7p") {
        Operation::Print(Some(index)) => {
            assert_eq!(index.begining, 7);
            assert_eq!(index.end, None);
        },
        _ => panic!("expected a print of one line"),
    }
}

#[test]
fn addressed_write_trims_its_file_name() {
    let buffer = numbered(3, 0);
    match buffer.parse_command("w   notes.txt") {
        Operation::Write(file) => assert_eq!(file, "notes.txt"),
        _ => panic!("expected a write"),
    }
    match buffer.parse_command("wx") {
        Operation::Write(file) => assert_eq!(file, ""),
        _ => panic!("expected a write"),
    }
    match buffer.parse_command("w") {
        Operation::Write(file) => assert_eq!(file, ""),
        _ => panic!("expected a write"),
    }
    match buffer.parse_command("w \u{3000}\tname") {
        Operation::Write(file) => assert_eq!(file, "name"),
        _ => panic!("expected a write"),
    }
}

#[test]
fn addressed_commands_by_name() {
    let buffer = numbered(3, 0);
    assert!(matches!(buffer.parse_command("q"), Operation::Quit));
    assert!(matches!(buffer.parse_command("1Q"), Operation::Quit));
    assert!(matches!(buffer.parse_command("P"), Operation::TogglePrompt));
    assert!(matches!(buffer.parse_command("2i"), Operation::Insert));
    assert!(matches!(buffer.parse_command("$a"), Operation::Append));
    assert!(matches!(buffer.parse_command("H"), Operation::ToggleVerbose));
    match buffer.parse_command("x") {
        Operation::Error(m) => assert_eq!(m, "Unknown command"),
        _ => panic!("expected an error"),
    }
}

#[test]
fn marker_ends_a_range() {
    let mut buffer = numbered(9, 1);
    buffer.marker = 4;
    let (index, rest) = buffer.parse_index("2,xp");
    assert_eq!(index, Ok(Some((2, Some(4)))));
    assert_eq!(rest, "p");
    let (index, _) = buffer.parse_index("2,x3p");
    assert_eq!(index, Err(()));
}

#[test]
fn lines_without_an_address() {
    let buffer = numbered(9, 1);
    assert_eq!(buffer.parse_index("abc"), (Ok(None), "abc"));
    assert_eq!(buffer.parse_index(""), (Ok(None), ""));
    assert_eq!(buffer.parse_index("1,5"), (Ok(None), "1,5"));
    assert_eq!(buffer.parse_index("3;p"), (Ok(Some((3, Some(9)))), "p"));
    assert_eq!(buffer.parse_index("..p"), (Err(()), ".p"));
    assert_eq!(buffer.parse_index(".5p"), (Err(()), "p"));
    assert_eq!(buffer.parse_index(".0é"), (Err(()), "é"));
    assert_eq!(buffer.parse_index("4é"), (Ok(Some((4, None))), "é"));
}

#[test]
fn session_quits_at_once_when_unmodified() {
    let mut editor = Editor::new(None, None, false);
    let (shown, request) = editor.handle_line("q\n");
    assert!(shown.is_empty());
    assert!(matches!(request, Request::Exit));
}

#[test]
fn session_end_of_input_quits() {
    let mut editor = Editor::new(Some("a\n"), Some("> ".to_string()), false);
    assert!(editor.shows_prompt());
    assert_eq!(editor.prompt, "> ");
    let (_, request) = editor.handle_line("");
    assert!(matches!(request, Request::Exit));
}

#[test]
fn session_appends_and_warns_before_quitting() {
    let mut editor = Editor::new(Some("one\n"), None, false);
    assert!(!editor.shows_prompt());
    assert_eq!(editor.prompt, "*");
    let (_, request) = editor.handle_line("a\n");
    assert!(matches!(request, Request::Read));
    assert!(!editor.shows_prompt());
    editor.handle_line("two\n");
    editor.handle_line("three\n");
    let (shown, _) = editor.handle_line(" . \n");
    match &shown[..] {
        [Output::Adding(text, at)] => {
            assert_eq!(text, "two\nthree\n");
            assert_eq!(*at, 0);
        },
        _ => panic!("expected the text being added"),
    }
    assert_eq!(editor.buffer.lines, strings(&["two", "three", "one"]));
    assert_eq!(editor.buffer.cursor, 3);
    assert!(editor.buffer.modified);
    let (shown, request) = editor.handle_line("q\n");
    assert!(matches!(&shown[..], [Output::Question]));
    assert!(matches!(request, Request::Read));
    assert_eq!(editor.last_error, "Warning: buffer modified");
    let (_, request) = editor.handle_line("q\n");
    assert!(matches!(request, Request::Exit));
}

#[test]
fn session_insert_starts_one_line_up() {
    let mut editor = Editor::new(Some("one\ntwo\n"), None, false);
    editor.buffer.cursor = 2;
    editor.handle_line("i\n");
    assert_eq!(editor.buffer.cursor, 1);
    editor.handle_line("new\n");
    editor.handle_line(".\n");
    assert_eq!(editor.buffer.lines, strings(&["one", "new", "two"]));
    assert_eq!(editor.buffer.cursor, 3);
}

#[test]
fn session_write_requests_and_reports() {
    let mut editor = Editor::new(Some("one\ntwo\n"), None, true);
    let (shown, request) = editor.handle_line("w\n");
    assert!(matches!(&shown[..], [Output::Question, Output::Message(m)] if m == "No current filename"));
    assert!(matches!(request, Request::Read));
    assert_eq!(editor.last_error, "");
    let (shown, request) = editor.handle_line("wout.txt\n");
    assert!(shown.is_empty());
    match request {
        Request::WriteFile(name, text) => {
            assert_eq!(name, "out.txt");
            assert_eq!(text, "one\ntwo");
        },
        _ => panic!("expected a write request"),
    }
    editor.buffer.modified = true;
    let shown = editor.finish_write(WriteOutcome::Written(7));
    assert!(matches!(&shown[..], [Output::Written(7)]));
    assert!(!editor.buffer.modified);
    let shown = editor.finish_write(WriteOutcome::CreateFailed(CreateError::PermissionDenied));
    assert!(matches!(&shown[..], [Output::Question, Output::Message(m)] if m == "out.txt: permission denied"));
    let shown = editor.finish_write(WriteOutcome::CreateFailed(CreateError::NotFound));
    assert!(matches!(&shown[..], [Output::Question, Output::Message(m)] if m == "out.txt: No such file or directory"));
    let shown = editor.finish_write(WriteOutcome::CreateFailed(CreateError::InvalidInput));
    assert!(matches!(&shown[..], [Output::Question, Output::Message(m)] if m == "out.txt: invalid filename"));
    let shown = editor.finish_write(WriteOutcome::CreateFailed(CreateError::Other("odd".to_string())));
    assert!(matches!(&shown[..], [Output::Question, Output::Message(m)]
        if m == "out.txt: odd \n btw how did you do this? srsly, i'm curious, feel free to msg me"));
    let shown = editor.finish_write(WriteOutcome::WriteFailed("disk full".to_string()));
    assert!(matches!(&shown[..], [Output::Question, Output::Message(m)] if m == "disk full"));
}

#[test]
fn session_quiet_errors_wait_for_verbose() {
    let mut editor = Editor::new(None, None, false);
    let (shown, _) = editor.handle_line("z\n");
    assert!(matches!(&shown[..], [Output::Question]));
    assert_eq!(editor.last_error, "Unknown command");
    let (shown, _) = editor.handle_line("H\n");
    assert!(matches!(&shown[..], [Output::Message(m)] if m == "Unknown command"));
    assert_eq!(editor.last_error, "");
    let (shown, _) = editor.handle_line("p\n");
    assert!(matches!(&shown[..], [Output::Lines]));
    let (_, _) = editor.handle_line("P\n");
    assert!(editor.shows_prompt());
}

#[test]
fn semicolon_reads_as_comma_dollar() {
    let buffer = numbered(12, 5);
    assert_eq!(buffer.parse_index("7;p"), (Ok(Some((7, Some(12)))), "p"));
    assert_eq!(buffer.parse_index("7,$p"), (Ok(Some((7, Some(12)))), "p"));
    assert_eq!(buffer.parse_index("007;w"), (Ok(Some((7, Some(12)))), "w"));
}

#[test]
fn single_character_addresses() {
    let buffer = numbered(12, 5);
    assert_eq!(buffer.parse_index(".p"), (Ok(Some((5, None))), "p"));
    assert_eq!(buffer.parse_index("$p"), (Ok(Some((12, None))), "p"));
    assert_eq!(buffer.parse_index(",p"), (Ok(Some((5, Some(12)))), "p"));
    assert_eq!(buffer.parse_index(";p"), (Ok(Some((0, Some(12)))), "p"));
}

#[test]
fn resolved_addresses_stay_in_the_buffer() {
    let buffer = numbered(6, 2);
    for line in ["0p", "7p", "1,7p", "5,3p", "--1p", "+6p", "6p", "+5p", "3,+3p"] {
        let (index, _) = buffer.parse_index(line);
        match index {
            Ok(Some((a, None))) => assert!(1 <= a && a <= 6, "{line}"),
            Ok(Some((a, Some(b)))) => assert!((1 <= a && a <= b && b <= 6) || b == 6, "{line}"),
            _ => {},
        }
    }
    assert_eq!(buffer.parse_index("7p").0, Err(()));
    assert_eq!(buffer.parse_index("5,3p").0, Err(()));
    assert_eq!(buffer.parse_index("+5p").0, Ok(Some((6, None))));
    assert_eq!(buffer.parse_index("3,+3p").0, Ok(Some((3, Some(4)))));
}
