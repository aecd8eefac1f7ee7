use vstd::prelude::*;

verus! {

/// One instruction of a lexed program. The two loop variants carry the index,
/// within the instruction sequence, of their partner bracket.
#[derive(Clone, Copy, Debug, PartialEq, Eq, Structural)]
pub enum Instruction {
    MoveLeft,
    MoveRight,
    Increment,
    Decrement,
    Print,
    Read,
    StartLoop(usize),
    EndLoop(usize),
}

/// Why source text could not be lexed.
#[derive(Clone, Copy, Debug, PartialEq, Eq, Structural)]
pub enum ParseError {
    /// A `[` or `]` has no partner within the source.
    UnmatchedLoop,
    /// A character outside the instruction alphabet was given to a mapping.
    InvalidCharacter(char),
}

/// The eight characters that carry meaning; every other character is ignored.
pub open spec fn is_command(c: char) -> bool {
    c == '<' || c == '>' || c == '+' || c == '-' || c == '.' || c == ',' || c == '['
        || c == ']'
}

/// The instruction for one of the six characters that are not brackets.
pub open spec fn simple_instruction(c: char) -> Option<Instruction> {
    if c == '+' {
        Some(Instruction::Increment)
    } else if c == '-' {
        Some(Instruction::Decrement)
    } else if c == '>' {
        Some(Instruction::MoveRight)
    } else if c == '<' {
        Some(Instruction::MoveLeft)
    } else if c == '.' {
        Some(Instruction::Print)
    } else if c == ',' {
        Some(Instruction::Read)
    } else {
        None
    }
}

/// Whether `c` belongs to the instruction alphabet.
pub fn is_command_char(c: char) -> (r: bool)
    ensures
        r == is_command(c),
{
    c == '<' || c == '>' || c == '+' || c == '-' || c == '.' || c == ',' || c == '['
        || c == ']'
}

impl Instruction {
    /// Maps one of the six non-bracket characters to its instruction; any other
    /// character, brackets included, is refused.
    pub fn from_char(c: char) -> (r: Result<Instruction, ParseError>)
        ensures
            match simple_instruction(c) {
                Some(i) => r == Ok::<Instruction, ParseError>(i),
                None => r == Err::<Instruction, ParseError>(ParseError::InvalidCharacter(c)),
            },
    {
        if c == '+' {
            Ok(Instruction::Increment)
        } else if c == '-' {
            Ok(Instruction::Decrement)
        } else if c == '>' {
            Ok(Instruction::MoveRight)
        } else if c == '<' {
            Ok(Instruction::MoveLeft)
        } else if c == '.' {
            Ok(Instruction::Print)
        } else if c == ',' {
            Ok(Instruction::Read)
        } else {
            Err(ParseError::InvalidCharacter(c))
        }
    }

    /// Maps a bracket and its partner's index to a loop instruction; any other
    /// character is refused.
    pub fn from_bracket(c: char, target: usize) -> (r: Result<Instruction, ParseError>)
        ensures
            c == '[' ==> r == Ok::<Instruction, ParseError>(Instruction::StartLoop(target)),
            c == ']' ==> r == Ok::<Instruction, ParseError>(Instruction::EndLoop(target)),
            c != '[' && c != ']' ==> r == Err::<Instruction, ParseError>(
                ParseError::InvalidCharacter(c),
            ),
    {
        if c == '[' {
            Ok(Instruction::StartLoop(target))
        } else if c == ']' {
            Ok(Instruction::EndLoop(target))
        } else {
            Err(ParseError::InvalidCharacter(c))
        }
    }
}

} // verus!
