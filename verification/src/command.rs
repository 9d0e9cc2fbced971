//! The command alphabet: parsing from source characters and the display
//! rendering used by debug traces.

use vstd::prelude::*;

verus! {

/// The eight primitive operations the virtual machine can execute.
#[derive(Clone, Copy, PartialEq, Eq, Structural, Debug)]
pub enum Command {
    MoveLeft,
    MoveRight,
    AddOne,
    SubOne,
    Output,
    Input,
    JumpForward,
    JumpBack,
}

/// The parse table: which source character stands for which command.
/// Every character outside the eight-symbol alphabet maps to `None`.
pub open spec fn spec_to_command(c: char) -> Option<Command> {
    if c == '<' {
        Some(Command::MoveLeft)
    } else if c == '>' {
        Some(Command::MoveRight)
    } else if c == '+' {
        Some(Command::AddOne)
    } else if c == '-' {
        Some(Command::SubOne)
    } else if c == '.' {
        Some(Command::Output)
    } else if c == ',' {
        Some(Command::Input)
    } else if c == '[' {
        Some(Command::JumpForward)
    } else if c == ']' {
        Some(Command::JumpBack)
    } else {
        None
    }
}

/// Parses one character into a command, returning `None` for any character
/// that is not one of the eight command symbols.
pub fn to_command(c: char) -> (r: Option<Command>)
    ensures
        r == spec_to_command(c),
{
    match c {
        '<' => Some(Command::MoveLeft),
        '>' => Some(Command::MoveRight),
        '+' => Some(Command::AddOne),
        '-' => Some(Command::SubOne),
        '.' => Some(Command::Output),
        ',' => Some(Command::Input),
        '[' => Some(Command::JumpForward),
        ']' => Some(Command::JumpBack),
        _ => None,
    }
}

/// The display table used for debug traces. It is deliberately not the
/// inverse of the parse table: `Input` renders as `'.'` and `Output` as
/// `','`, the swap the canonical rendering prescribes.
pub open spec fn spec_render(cmd: Command) -> char {
    match cmd {
        Command::MoveLeft => '<',
        Command::MoveRight => '>',
        Command::AddOne => '+',
        Command::SubOne => '-',
        Command::Input => '.',
        Command::Output => ',',
        Command::JumpForward => '[',
        Command::JumpBack => ']',
    }
}

/// Renders one command as its one-character debug representation.
pub fn render(cmd: &Command) -> (r: char)
    ensures
        r == spec_render(*cmd),
{
    match *cmd {
        Command::MoveLeft => '<',
        Command::MoveRight => '>',
        Command::AddOne => '+',
        Command::SubOne => '-',
        Command::Input => '.',
        Command::Output => ',',
        Command::JumpForward => '[',
        Command::JumpBack => ']',
    }
}

/// The program a character sequence denotes: each command symbol in order,
/// every other character discarded.
pub open spec fn spec_parse(s: Seq<char>) -> Seq<Command>
    decreases s.len(),
{
    if s.len() == 0 {
        Seq::empty()
    } else {
        spec_parse(s.drop_last()) + match spec_to_command(s.last()) {
            Some(cmd) => seq![cmd],
            None => Seq::empty(),
        }
    }
}

/// Turns source text into an ordered command sequence, silently dropping
/// every character outside the command alphabet.
pub fn parse_program(text: &Vec<char>) -> (r: Vec<Command>)
    ensures
        r@ == spec_parse(text@),
{
    let mut r: Vec<Command> = Vec::new();
    let mut i: usize = 0;
    while i < text.len()
        invariant
            i <= text.len(),
            r@ == spec_parse(text@.take(i as int)),
        decreases text.len() - i,
    {
        match to_command(text[i]) {
            Some(cmd) => {
                r.push(cmd);
            },
            None => {},
        }
        proof {
            let pre = text@.take(i as int);
            let cur = text@.take(i + 1int);
            assert(cur.drop_last() =~= pre);
            assert(cur.last() == text@[i as int]);
        }
        i = i + 1;
    }
    proof {
        assert(text@.take(text@.len() as int) =~= text@);
    }
    r
}

} // verus!
