use bf_interp::instruction::{is_command_char, Instruction, ParseError};
use bf_interp::lexer::{commands_of, find_index, parse};

#[test]
fn commands_of_keeps_only_the_alphabet() {
    assert_eq!(
        commands_of("a+b-c>d<e.f,g[h]i é"),
        vec!['+', '-', '>', '<', '.', ',', '[', ']']
    );
    assert_eq!(commands_of("no commands here"), Vec::<char>::new());
}

#[test]
fn is_command_char_matches_the_alphabet() {
    for c in "<>+-.,[]".chars() {
        assert!(is_command_char(c));
    }
    for c in "ab 09\n#".chars() {
        assert!(!is_command_char(c));
    }
}

#[test]
fn from_char_maps_each_simple_symbol() {
    assert_eq!(Instruction::from_char('+'), Ok(Instruction::Increment));
    assert_eq!(Instruction::from_char('-'), Ok(Instruction::Decrement));
    assert_eq!(Instruction::from_char('>'), Ok(Instruction::MoveRight));
    assert_eq!(Instruction::from_char('<'), Ok(Instruction::MoveLeft));
    assert_eq!(Instruction::from_char('.'), Ok(Instruction::Print));
    assert_eq!(Instruction::from_char(','), Ok(Instruction::Read));
}

#[test]
fn from_char_refuses_brackets_and_other_characters() {
    assert_eq!(Instruction::from_char('['), Err(ParseError::InvalidCharacter('[')));
    assert_eq!(Instruction::from_char('x'), Err(ParseError::InvalidCharacter('x')));
}

#[test]
fn from_bracket_maps_brackets_only() {
    assert_eq!(Instruction::from_bracket('[', 7), Ok(Instruction::StartLoop(7)));
    assert_eq!(Instruction::from_bracket(']', 2), Ok(Instruction::EndLoop(2)));
    assert_eq!(Instruction::from_bracket('+', 2), Err(ParseError::InvalidCharacter('+')));
}

#[test]
fn find_index_scans_forward_and_backward() {
    let code: Vec<char> = "[[]+]".chars().collect();
    assert_eq!(find_index(&code, '[', ']', 0, 4), Ok(4));
    assert_eq!(find_index(&code, '[', ']', 1, 4), Ok(2));
    assert_eq!(find_index(&code, ']', '[', 4, 0), Ok(0));
    assert_eq!(find_index(&code, ']', '[', 2, 0), Ok(1));
}

#[test]
fn find_index_reports_a_missing_partner() {
    let code: Vec<char> = "[[]".chars().collect();
    assert_eq!(find_index(&code, '[', ']', 0, 2), Err(ParseError::UnmatchedLoop));
    let last: Vec<char> = "+[".chars().collect();
    assert_eq!(find_index(&last, '[', ']', 1, 1), Err(ParseError::UnmatchedLoop));
}

#[test]
fn parse_maps_every_symbol() {
    assert_eq!(
        parse("+-<>.,"),
        Ok(vec![
            Instruction::Increment,
            Instruction::Decrement,
            Instruction::MoveLeft,
            Instruction::MoveRight,
            Instruction::Print,
            Instruction::Read,
        ])
    );
    assert_eq!(parse(""), Ok(vec![]));
}

#[test]
fn parse_ignores_other_characters() {
    let plain = parse("+[->+<]").unwrap();
    let commented = parse("add one +\n loop [ - move > + back < ] done").unwrap();
    assert_eq!(plain, commented);
    assert_eq!(plain.len(), 7);
}

#[test]
fn parse_indexes_targets_in_the_filtered_sequence() {
    assert_eq!(
        parse("x[ y ]z"),
        Ok(vec![Instruction::StartLoop(1), Instruction::EndLoop(0)])
    );
}

#[test]
fn parse_pairs_nested_loops() {
    let p = parse("+[>[-]<]").unwrap();
    assert_eq!(
        p,
        vec![
            Instruction::Increment,
            Instruction::StartLoop(7),
            Instruction::MoveRight,
            Instruction::StartLoop(5),
            Instruction::Decrement,
            Instruction::EndLoop(3),
            Instruction::MoveLeft,
            Instruction::EndLoop(1),
        ]
    );
    for (i, ins) in p.iter().enumerate() {
        match *ins {
            Instruction::StartLoop(t) => assert_eq!(p[t], Instruction::EndLoop(i)),
            Instruction::EndLoop(t) => assert_eq!(p[t], Instruction::StartLoop(i)),
            _ => {}
        }
    }
}

#[test]
fn parse_pairs_sibling_loops() {
    assert_eq!(
        parse("[][]"),
        Ok(vec![
            Instruction::StartLoop(1),
            Instruction::EndLoop(0),
            Instruction::StartLoop(3),
            Instruction::EndLoop(2),
        ])
    );
}

#[test]
fn unmatched_open_bracket_fails() {
    assert_eq!(parse("[[]"), Err(ParseError::UnmatchedLoop));
}

#[test]
fn unmatched_close_bracket_fails() {
    assert_eq!(parse("]"), Err(ParseError::UnmatchedLoop));
    assert_eq!(parse("[]]"), Err(ParseError::UnmatchedLoop));
    assert_eq!(parse("+["), Err(ParseError::UnmatchedLoop));
}
