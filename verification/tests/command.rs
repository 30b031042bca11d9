use hanoi::command::Command;

#[test]
fn first_character_names_the_command() {
    assert_eq!(Command::parse("q\n"), Command::Quit);
    assert_eq!(Command::parse("2\n"), Command::Drop);
    assert_eq!(Command::parse("8\n"), Command::Take);
    assert_eq!(Command::parse("4\n"), Command::MoveLeft);
    assert_eq!(Command::parse("6\n"), Command::MoveRight);
}

#[test]
fn only_the_first_character_counts() {
    assert_eq!(Command::parse("quit"), Command::Quit);
    assert_eq!(Command::parse("28\n"), Command::Drop);
    assert_eq!(Command::parse("82\n"), Command::Take);
    assert_eq!(Command::parse("4 6"), Command::MoveLeft);
    assert_eq!(Command::parse("6q"), Command::MoveRight);
    assert_eq!(Command::parse(" q\n"), Command::Unrecognized(' '));
}

#[test]
fn other_characters_are_unrecognized() {
    assert_eq!(Command::parse("x\n"), Command::Unrecognized('x'));
    assert_eq!(Command::parse("Q\n"), Command::Unrecognized('Q'));
    assert_eq!(Command::parse("5"), Command::Unrecognized('5'));
    assert_eq!(Command::parse("\u{e9}t\u{e9}"), Command::Unrecognized('\u{e9}'));
}

#[test]
fn a_line_without_characters_is_empty() {
    assert_eq!(Command::parse(""), Command::Empty);
}

#[test]
fn a_line_that_holds_only_its_end_is_empty() {
    assert_eq!(Command::parse("\n"), Command::Empty);
    assert_eq!(Command::parse("\r\n"), Command::Empty);
    assert_eq!(Command::parse("\nq"), Command::Empty);
    assert_eq!(Command::parse("\r\nq\n"), Command::Empty);
}

#[test]
fn a_carriage_return_without_a_line_feed_is_unrecognized() {
    assert_eq!(Command::parse("\r"), Command::Unrecognized('\r'));
    assert_eq!(Command::parse("\rq\n"), Command::Unrecognized('\r'));
    assert_eq!(Command::parse("\r\r\n"), Command::Unrecognized('\r'));
}

#[test]
fn a_command_counts_with_either_line_end() {
    assert_eq!(Command::parse("q"), Command::Quit);
    assert_eq!(Command::parse("q\n"), Command::Quit);
    assert_eq!(Command::parse("q\r\n"), Command::Quit);
    assert_eq!(Command::parse("8\r\n"), Command::Take);
}
