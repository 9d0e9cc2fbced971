use headache::{parse_program, render, to_command, Command};

#[test]
fn parse_table_maps_the_eight_symbols() {
    assert!(matches!(to_command('<'), Some(Command::MoveLeft)));
    assert!(matches!(to_command('>'), Some(Command::MoveRight)));
    assert!(matches!(to_command('+'), Some(Command::AddOne)));
    assert!(matches!(to_command('-'), Some(Command::SubOne)));
    assert!(matches!(to_command('.'), Some(Command::Output)));
    assert!(matches!(to_command(','), Some(Command::Input)));
    assert!(matches!(to_command('['), Some(Command::JumpForward)));
    assert!(matches!(to_command(']'), Some(Command::JumpBack)));
}

#[test]
fn parse_table_rejects_everything_else() {
    assert!(to_command('/').is_none());
    assert!(to_command('a').is_none());
    assert!(to_command(' ').is_none());
    assert!(to_command('\n').is_none());
    assert!(to_command('0').is_none());
}

#[test]
fn render_table_swaps_input_and_output() {
    assert_eq!(render(&Command::Input), '.');
    assert_eq!(render(&Command::Output), ',');
}

#[test]
fn render_table_keeps_the_other_six() {
    assert_eq!(render(&Command::MoveLeft), '<');
    assert_eq!(render(&Command::MoveRight), '>');
    assert_eq!(render(&Command::AddOne), '+');
    assert_eq!(render(&Command::SubOne), '-');
    assert_eq!(render(&Command::JumpForward), '[');
    assert_eq!(render(&Command::JumpBack), ']');
}

#[test]
fn parse_program_keeps_command_characters_in_order() {
    let chars: Vec<char> = "a+b[c]d.".chars().collect();
    let program = parse_program(&chars);
    assert_eq!(
        program,
        vec![Command::AddOne, Command::JumpForward, Command::JumpBack, Command::Output]
    );
}

#[test]
fn parse_program_of_plain_text_is_empty() {
    let chars: Vec<char> = "no commands here\n".chars().collect();
    assert!(parse_program(&chars).is_empty());
}
