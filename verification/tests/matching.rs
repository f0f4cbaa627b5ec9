use brainfuck::operator::Operator;
use brainfuck::vm::{find_next_loop_end_address, find_previous_loop_start_address};

#[test]
fn brainfuck_find_next_loop_end_address_finds_address_no_nesting() {
    let program = vec![Operator::LoopStart, Operator::LoopEnd];
    let addr = find_next_loop_end_address(0, &program);
    assert_eq!(addr, Some(1));
}

#[test]
fn brainfuck_find_next_loop_end_address_finds_address_nested() {
    let program = vec![
        Operator::LoopStart,
        Operator::LoopStart,
        Operator::LoopEnd,
        Operator::LoopEnd,
    ];
    let addr = find_next_loop_end_address(0, &program);
    assert_eq!(addr, Some(3));
}

#[test]
fn brainfuck_find_next_loop_end_address_finds_address_nested_starting_in_inner_loop() {
    let program = vec![
        Operator::LoopStart,
        Operator::LoopStart,
        Operator::LoopEnd,
        Operator::LoopEnd,
    ];
    let addr = find_next_loop_end_address(1, &program);
    assert_eq!(addr, Some(2));
}

#[test]
fn brainfuck_find_previous_loop_start_address_finds_address_no_nesting() {
    let program = vec![Operator::LoopStart, Operator::LoopEnd];
    let addr = find_previous_loop_start_address(1, &program);
    assert_eq!(addr, Some(0));
}

#[test]
fn brainfuck_find_previous_loop_start_address_finds_address_nested() {
    let program = vec![
        Operator::LoopStart,
        Operator::LoopStart,
        Operator::LoopEnd,
        Operator::LoopEnd,
    ];
    let addr = find_previous_loop_start_address(3, &program);
    assert_eq!(addr, Some(0));
}

#[test]
fn brainfuck_find_previous_loop_start_address_finds_address_nested_starting_in_inner_loop() {
    let program = vec![
        Operator::LoopStart,
        Operator::LoopStart,
        Operator::LoopEnd,
        Operator::LoopEnd,
    ];
    let addr = find_previous_loop_start_address(2, &program);
    assert_eq!(addr, Some(1));
}

#[test]
fn vm_find_next_loop_end_address_finds_address_no_nesting() {
    let program = vec![Operator::LoopStart, Operator::LoopEnd];
    let addr = find_next_loop_end_address(0, &program);
    assert_eq!(addr, Some(1));
}

#[test]
fn vm_find_next_loop_end_address_finds_address_nested() {
    let program = vec![
        Operator::LoopStart,
        Operator::LoopStart,
        Operator::LoopEnd,
        Operator::LoopEnd,
    ];
    let addr = find_next_loop_end_address(0, &program);
    assert_eq!(addr, Some(3));
}

#[test]
fn vm_find_next_loop_end_address_finds_address_nested_starting_in_inner_loop() {
    let program = vec![
        Operator::LoopStart,
        Operator::LoopStart,
        Operator::LoopEnd,
        Operator::LoopEnd,
    ];
    let addr = find_next_loop_end_address(1, &program);
    assert_eq!(addr, Some(2));
}

#[test]
fn vm_find_previous_loop_start_address_finds_address_no_nesting() {
    let program = vec![Operator::LoopStart, Operator::LoopEnd];
    let addr = find_previous_loop_start_address(1, &program);
    assert_eq!(addr, Some(0));
}

#[test]
fn vm_find_previous_loop_start_address_finds_address_nested() {
    let program = vec![
        Operator::LoopStart,
        Operator::LoopStart,
        Operator::LoopEnd,
        Operator::LoopEnd,
    ];
    let addr = find_previous_loop_start_address(3, &program);
    assert_eq!(addr, Some(0));
}

#[test]
fn vm_find_previous_loop_start_address_finds_address_nested_starting_in_inner_loop() {
    let program = vec![
        Operator::LoopStart,
        Operator::LoopStart,
        Operator::LoopEnd,
        Operator::LoopEnd,
    ];
    let addr = find_previous_loop_start_address(2, &program);
    assert_eq!(addr, Some(1));
}

#[test]
fn find_next_loop_end_address_reports_missing_match() {
    let program = vec![Operator::LoopStart];
    assert_eq!(find_next_loop_end_address(0, &program), None);
}

#[test]
fn find_next_loop_end_address_skips_unclosed_inner_loop() {
    let program = vec![Operator::LoopStart, Operator::LoopStart, Operator::LoopEnd];
    assert_eq!(find_next_loop_end_address(0, &program), None);
}

#[test]
fn find_previous_loop_start_address_reports_missing_match() {
    let program = vec![Operator::IncrementCell, Operator::LoopEnd];
    assert_eq!(find_previous_loop_start_address(1, &program), None);
}

#[test]
fn matching_scans_are_mutual_inverses_on_a_nested_program() {
    let program = vec![
        Operator::LoopStart,
        Operator::IncrementCell,
        Operator::LoopStart,
        Operator::DecrementCell,
        Operator::LoopEnd,
        Operator::LoopEnd,
    ];
    for start in [0usize, 2usize] {
        let end = find_next_loop_end_address(start, &program).unwrap();
        assert_eq!(find_previous_loop_start_address(end, &program), Some(start));
    }
}
