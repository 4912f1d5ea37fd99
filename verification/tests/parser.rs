use tape_vm::{compile, is_executable, parse_code, Instruction, ParseError};

fn parse(text: &str) -> Result<Vec<Instruction>, ParseError> {
    parse_code(&text.to_string())
}

#[test]
fn empty_text_is_the_empty_program() {
    assert_eq!(parse(""), Ok(vec![]));
}

#[test]
fn each_plain_symbol_maps_to_its_instruction() {
    assert_eq!(
        parse("><+-.,"),
        Ok(vec![
            Instruction::IncrementPointer,
            Instruction::DecrementPointer,
            Instruction::IncrementValue,
            Instruction::DecrementValue,
            Instruction::OutputValue,
            Instruction::InputValue,
        ])
    );
}

#[test]
fn a_loop_carries_both_jump_targets() {
    assert_eq!(
        parse("[-]"),
        Ok(vec![
            Instruction::Begin(Some(3)),
            Instruction::DecrementValue,
            Instruction::End(1),
        ])
    );
}

#[test]
fn nested_loops_pair_innermost_first() {
    assert_eq!(
        parse("[[]]"),
        Ok(vec![
            Instruction::Begin(Some(4)),
            Instruction::Begin(Some(3)),
            Instruction::End(2),
            Instruction::End(1),
        ])
    );
}

#[test]
fn loops_side_by_side_do_not_share_targets() {
    assert_eq!(
        parse("+[]-[.]"),
        Ok(vec![
            Instruction::IncrementValue,
            Instruction::Begin(Some(3)),
            Instruction::End(2),
            Instruction::DecrementValue,
            Instruction::Begin(Some(7)),
            Instruction::OutputValue,
            Instruction::End(5),
        ])
    );
}

#[test]
fn every_pair_of_a_balanced_text_points_past_its_partner() {
    let program = parse("++[>[-]<[->+<]]>[[.]]").unwrap();
    let mut open = Vec::new();
    let mut pairs = 0;
    for (index, instruction) in program.iter().enumerate() {
        match instruction {
            Instruction::Begin(_) => open.push(index),
            Instruction::End(target) => {
                let begin = open.pop().unwrap();
                assert_eq!(*target, begin + 1);
                assert_eq!(program[begin], Instruction::Begin(Some(index + 1)));
                pairs += 1;
            }
            _ => {}
        }
    }
    assert!(open.is_empty());
    assert_eq!(pairs, 5);
}

#[test]
fn jump_targets_count_symbols_not_characters() {
    assert_eq!(
        parse("a loop: [ minus - ] done"),
        Ok(vec![
            Instruction::Begin(Some(3)),
            Instruction::DecrementValue,
            Instruction::End(1),
        ])
    );
}

#[test]
fn comments_change_nothing() {
    let bare = parse("++>+++++[<+>-]<.");
    assert!(bare.is_ok());
    assert_eq!(parse("+ +\n>\t+++++ [ < + > - ] <. end"), bare);
    assert_eq!(parse("x++>+++++[<+>-]<."), bare);
    assert_eq!(parse("++>+++++[<+>-]<.x"), bare);
    assert_eq!(parse("++>+++++[é<+>-]<.\u{1F600}"), bare);
}

#[test]
fn text_without_symbols_is_the_empty_program() {
    assert_eq!(parse("nothing to see here\n"), Ok(vec![]));
}

#[test]
fn lone_open_bracket_fails() {
    assert_eq!(parse("["), Err(ParseError::UnmatchedBegin));
}

#[test]
fn lone_close_bracket_fails() {
    assert_eq!(parse("]"), Err(ParseError::UnmatchedEnd));
}

#[test]
fn unmatched_close_fails_whatever_follows() {
    assert_eq!(parse("+]"), Err(ParseError::UnmatchedEnd));
    assert_eq!(parse("[]]"), Err(ParseError::UnmatchedEnd));
    assert_eq!(parse("[]]["), Err(ParseError::UnmatchedEnd));
    assert_eq!(parse("[]][]"), Err(ParseError::UnmatchedEnd));
    assert_eq!(parse("]+++[-]"), Err(ParseError::UnmatchedEnd));
    assert_eq!(parse("]["), Err(ParseError::UnmatchedEnd));
}

#[test]
fn unmatched_open_fails_wherever_it_stands() {
    assert_eq!(parse("[+"), Err(ParseError::UnmatchedBegin));
    assert_eq!(parse("[[]"), Err(ParseError::UnmatchedBegin));
    assert_eq!(parse("[][+-"), Err(ParseError::UnmatchedBegin));
    assert_eq!(parse("[[[]]"), Err(ParseError::UnmatchedBegin));
    assert_eq!(parse("+[-]>[<"), Err(ParseError::UnmatchedBegin));
}

#[test]
fn comments_do_not_hide_a_defect() {
    assert_eq!(parse("open [ and never close"), Err(ParseError::UnmatchedBegin));
    assert_eq!(parse("close ] with nothing open"), Err(ParseError::UnmatchedEnd));
}

#[test]
fn parsing_twice_gives_the_same_program() {
    let text = "++[>+++[>++<-]<-]>>.".to_string();
    let first = parse_code(&text);
    let second = parse_code(&text);
    assert!(first.is_ok());
    assert_eq!(first, second);
    let broken = "++[>+++[>++<-<-]>>.".to_string();
    assert_eq!(parse_code(&broken), parse_code(&broken));
}

#[test]
fn parse_errors_have_messages() {
    assert_eq!(ParseError::UnmatchedEnd.message(), "Unmatched `]`, missing `[`");
    assert_eq!(ParseError::UnmatchedBegin.message(), "Unmatched `[`, missing `]`");
}

#[test]
fn compile_adds_one_halt() {
    assert_eq!(compile(&"".to_string()), Ok(vec![Instruction::Halt]));
    assert_eq!(
        compile(&"+[-]".to_string()),
        Ok(vec![
            Instruction::IncrementValue,
            Instruction::Begin(Some(4)),
            Instruction::DecrementValue,
            Instruction::End(2),
            Instruction::Halt,
        ])
    );
}

#[test]
fn compile_fails_as_parsing_does() {
    assert_eq!(compile(&"[".to_string()), Err(ParseError::UnmatchedBegin));
    assert_eq!(compile(&"]".to_string()), Err(ParseError::UnmatchedEnd));
}

#[test]
fn compiled_programs_are_executable() {
    for text in ["", "+", "[]", "+[-]", "++>+++++[<+>-]<.", "[[[]]][]", ",[.,]"] {
        let program = compile(&text.to_string()).unwrap();
        assert!(is_executable(&program), "{}", text);
    }
}

#[test]
fn parsed_programs_lack_the_halt() {
    assert!(!is_executable(&parse("+").unwrap()));
    assert!(!is_executable(&parse("").unwrap()));
}

#[test]
fn programs_with_stray_jumps_are_not_executable() {
    assert!(!is_executable(&vec![]));
    assert!(!is_executable(&vec![Instruction::IncrementValue]));
    assert!(!is_executable(&vec![Instruction::Begin(None), Instruction::Halt]));
    assert!(!is_executable(&vec![Instruction::Begin(Some(2)), Instruction::Halt]));
    assert!(!is_executable(&vec![Instruction::End(2), Instruction::Halt]));
    assert!(!is_executable(&vec![Instruction::Halt, Instruction::End(0)]));
    assert!(is_executable(&vec![Instruction::Begin(Some(1)), Instruction::Halt]));
    assert!(is_executable(&vec![Instruction::End(1), Instruction::Halt]));
    assert!(is_executable(&vec![Instruction::Halt, Instruction::Halt]));
}
