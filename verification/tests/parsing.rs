use brainfuck::operator::Operator;
use brainfuck::parser::Parser;

#[test]
fn brainfuck_parser_works() {
    let program = "><+-.,[]".to_string();
    let instructions = Parser::new().run(program);

    let expected = vec![
        Operator::IncrementPointer,
        Operator::DecrementPointer,
        Operator::IncrementCell,
        Operator::DecrementCell,
        Operator::Output,
        Operator::Input,
        Operator::LoopStart,
        Operator::LoopEnd,
    ];

    assert_eq!(instructions, expected);
}

#[test]
fn brainfuck_parser_ignores_unknown_characters() {
    let program = "1234567890qwertyuiopasdfghjklzxcvbnm\n\r\t".to_string();
    let instructions = Parser::new().run(program);
    assert_eq!(instructions.len(), 0);
}

#[test]
fn parser_parser_works() {
    let program = "><+-.,[]".to_string();
    let instructions = Parser::new().run(program);

    let expected = vec![
        Operator::IncrementPointer,
        Operator::DecrementPointer,
        Operator::IncrementCell,
        Operator::DecrementCell,
        Operator::Output,
        Operator::Input,
        Operator::LoopStart,
        Operator::LoopEnd,
    ];

    assert_eq!(instructions, expected);
}

#[test]
fn parser_parser_ignores_unknown_characters() {
    let program = "1234567890qwertyuiopasdfghjklzxcvbnm\n\r\t".to_string();
    let instructions = Parser::new().run(program);
    assert_eq!(instructions.len(), 0);
}

#[test]
fn parser_keeps_source_order_among_comments() {
    let program = "say + twice . and loop [ here ]".to_string();
    let instructions = Parser::new().run(program);
    let expected = vec![
        Operator::IncrementCell,
        Operator::Output,
        Operator::LoopStart,
        Operator::LoopEnd,
    ];
    assert_eq!(instructions, expected);
}

#[test]
fn parser_of_empty_source_yields_empty_program() {
    let instructions = Parser::new().run(String::new());
    assert_eq!(instructions.len(), 0);
}
