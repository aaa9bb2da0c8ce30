use putlang::fault::{Fault, FaultKind};
use putlang::interpreter::{Action, Interpreter};
use putlang::lexer::{Arithmetic, Equality, Lexer, OpCodes, Procedure, Scan, Syscalls, Types};
use putlang::program::Program;
use putlang::Args;
use std::collections::HashMap;

fn load(source: &str) -> Program {
    let mut lexer = Lexer::new();
    match lexer.tokenize(&source.as_bytes().to_vec(), 0) {
        Ok(Scan::Done) => lexer.finish().unwrap(),
        other => panic!("unexpected end of scan: {:?}", other),
    }
}

/// A program whose `main` is the given instructions.
fn assemble(tokens: Vec<OpCodes>) -> Program {
    Program {
        tokens,
        scopes: HashMap::new(),
        procedures: vec![Procedure {
            Proc: b"main".to_vec(),
            Location: 0,
            ParameterTypes: Vec::new(),
            ReturnTypes: Vec::new(),
        }],
        labels: Vec::new(),
    }
}

struct Run {
    lines: Vec<String>,
    writes: Vec<(u64, Vec<u8>)>,
    end: Result<(), Fault>,
    engine: Option<Interpreter>,
}

/// Runs a program that reads nothing.
fn run(program: &Program) -> Run {
    let mut lines = Vec::new();
    let mut writes = Vec::new();
    let mut engine = match Interpreter::new(program) {
        Ok(engine) => engine,
        Err(fault) => {
            return Run {
                lines,
                writes,
                end: Err(fault),
                engine: None,
            }
        }
    };
    let args = Args { debug: false };
    let end = loop {
        match engine.run(program, &args, 1000) {
            Ok(Action::Continue) => {}
            Ok(Action::Print(line)) => lines.push(String::from_utf8(line).unwrap()),
            Ok(Action::Write { fd, bytes }) => writes.push((fd, bytes)),
            Ok(Action::Read { .. }) => panic!("the program reads"),
            Ok(Action::Halt) => break Ok(()),
            Err(fault) => break Err(fault),
        }
    };
    Run {
        lines,
        writes,
        end,
        engine: Some(engine),
    }
}

fn run_source(source: &str) -> Run {
    run(&load(source))
}

fn lines(source: &str) -> Vec<String> {
    let done = run_source(source);
    assert_eq!(done.end, Ok(()));
    done.lines
}

fn stack(source: &str) -> Vec<(Types, u64)> {
    let done = run_source(source);
    assert_eq!(done.end, Ok(()));
    done.engine.unwrap().stack().clone()
}

fn fault(source: &str) -> Fault {
    run_source(source).end.unwrap_err()
}

fn number(n: u64) -> OpCodes {
    OpCodes::Push(Types::Int, n, Vec::new())
}

#[test]
fn main_adds_and_prints() {
    let done = run_source("proc main : in 1 2 + . end");
    assert_eq!(done.lines, vec!["3"]);
    assert!(done.writes.is_empty());
    assert_eq!(done.end, Ok(()));
}

#[test]
fn main_adds_and_prints_with_a_closing_line_feed() {
    assert_eq!(lines("proc main : in 1 2 + . end\n"), vec!["3"]);
}

#[test]
fn square_is_called_and_returns() {
    assert_eq!(
        lines("proc square int : int in dup * end\nproc main : in 5 square . end\n"),
        vec!["25"]
    );
}

#[test]
fn subtraction_takes_the_top_from_the_value_below() {
    assert_eq!(lines("proc main : in 10 3 - . end "), vec!["7"]);
}

#[test]
fn division_truncates() {
    assert_eq!(lines("proc main : in 10 3 / . 9 3 / . 2 3 / . end "), vec!["3", "3", "0"]);
}

#[test]
fn division_by_zero_is_a_fault() {
    let done = run_source("proc main : in 10 0 / . end ");
    assert_eq!(done.end, Err(Fault::DivisionByZero));
    assert!(done.lines.is_empty());
    let engine = done.engine.unwrap();
    assert_eq!(engine.stack(), &vec![(Types::Int, 10), (Types::Int, 0)]);
    assert_eq!(engine.ip(), 2);
}

#[test]
fn subtraction_wraps() {
    assert_eq!(lines("proc main : in 3 10 - . end "), vec!["18446744073709551609"]);
}

#[test]
fn addition_and_multiplication_wrap() {
    assert_eq!(
        lines("proc main : in 18446744073709551615 1 + . 18446744073709551615 2 * . end "),
        vec!["0", "18446744073709551614"]
    );
}

#[test]
fn addition_and_multiplication() {
    assert_eq!(lines("proc main : in 40 2 + . 6 7 * . end "), vec!["42", "42"]);
}

#[test]
fn bigger_holds_where_the_value_below_is_bigger() {
    assert_eq!(
        lines("proc main : in 5 3 > . 3 5 > . 4 4 > . end "),
        vec!["true", "false", "false"]
    );
}

#[test]
fn smaller_holds_where_the_value_below_is_smaller() {
    assert_eq!(
        lines("proc main : in 3 5 < . 5 3 < . 4 4 < . end "),
        vec!["true", "false", "false"]
    );
}

#[test]
fn equal_holds_for_the_same_number() {
    assert_eq!(lines("proc main : in 5 5 = . 5 6 = . end "), vec!["true", "false"]);
}

#[test]
fn a_comparison_leaves_a_truth_value() {
    assert_eq!(stack("proc main : in 1 2 < 2 1 < end "), vec![(Types::Bool, 1), (Types::Bool, 0)]);
}

#[test]
fn a_false_condition_skips_its_block() {
    assert_eq!(lines("proc main : in false if 1 . end 2 . end "), vec!["2"]);
}

#[test]
fn a_true_condition_runs_its_block() {
    assert_eq!(lines("proc main : in true if 1 . end 2 . end "), vec!["1", "2"]);
}

#[test]
fn a_false_condition_skips_the_blocks_inside() {
    assert_eq!(
        lines("proc main : in false if 1 . true if 2 . end 3 . end 4 . end "),
        vec!["4"]
    );
}

#[test]
fn any_payload_but_zero_is_a_true_condition() {
    assert_eq!(lines("proc main : in 7 (bool) if 1 . end end "), vec!["1"]);
}

#[test]
fn a_condition_without_a_closed_block_is_a_fault() {
    let body = |condition: u64| {
        assemble(vec![
            OpCodes::Push(Types::Bool, condition, Vec::new()),
            OpCodes::If,
            number(1),
            OpCodes::Print,
        ])
    };
    let done = run(&body(0));
    assert_eq!(done.end, Err(Fault::UnclosedBlock));
    assert!(done.lines.is_empty());
    let engine = done.engine.unwrap();
    assert_eq!(engine.stack(), &vec![(Types::Bool, 0)]);
    assert_eq!(engine.ip(), 1);
    let done = run(&body(1));
    assert_eq!(done.end, Ok(()));
    assert_eq!(done.lines, vec!["1"]);
}

#[test]
fn write_hands_out_the_bytes_of_a_literal() {
    let done = run_source("proc main : in 5 \"hello\" 1 write end ");
    assert_eq!(done.end, Ok(()));
    assert_eq!(done.writes, vec![(1, b"hello".to_vec())]);
    assert!(done.engine.unwrap().stack().is_empty());
}

#[test]
fn write_hands_out_a_part_of_a_literal() {
    let done = run_source("proc main : in 2 \"hello\" 2 write 0 \"x\" 1 write end ");
    assert_eq!(done.writes, vec![(2, b"he".to_vec()), (1, Vec::new())]);
}

#[test]
fn write_reads_zero_where_nothing_stands() {
    let done = run_source("proc main : in 8 \"hello\" 1 write end ");
    assert_eq!(done.writes, vec![(1, b"hello\0\0\0".to_vec())]);
}

#[test]
fn write_reads_zero_beyond_the_last_address() {
    let done = run_source(
        "proc main : in 65 18446744073709551615 (ptr) store 3 18446744073709551615 (ptr) 1 write end ",
    );
    assert_eq!(done.end, Ok(()));
    assert_eq!(done.writes, vec![(1, vec![65, 0, 0])]);
}

#[test]
fn write_takes_the_low_byte_of_a_value() {
    let done = run_source("proc main : in 321 0 (ptr) store 1 0 (ptr) 1 write end ");
    assert_eq!(done.writes, vec![(1, vec![65])]);
}

#[test]
fn a_literal_leaves_a_pointer_and_its_bytes_with_a_closing_zero() {
    let done = run_source("proc main : in \"hi\" \"!\" end ");
    let engine = done.engine.unwrap();
    assert_eq!(engine.stack(), &vec![(Types::Pointer, 0), (Types::Pointer, 3)]);
    assert_eq!(engine.memory().slots(), &vec![104, 105, 0, 33, 0]);
    assert_eq!(engine.memory().next(), 5);
}

#[test]
fn an_empty_literal_is_a_closing_zero() {
    let done = run_source("proc main : in \"\" end ");
    let engine = done.engine.unwrap();
    assert_eq!(engine.stack(), &vec![(Types::Pointer, 0)]);
    assert_eq!(engine.memory().slots(), &vec![0]);
}

#[test]
fn escapes_of_a_literal_are_resolved_when_it_is_pushed() {
    let done = run_source("proc main : in \"a\\nb\\\\c\\td\\\"e\" end ");
    assert_eq!(
        done.engine.unwrap().memory().slots(),
        &vec![97, 10, 98, 92, 99, 100, 101, 0]
    );
}

#[test]
fn a_literal_is_allocated_every_time_it_is_pushed() {
    let done = run_source("proc f : in \"ab\" drop end proc main : in f f end ");
    let engine = done.engine.unwrap();
    assert_eq!(engine.memory().slots(), &vec![97, 98, 0, 97, 98, 0]);
}

#[test]
fn print_renders_by_tag() {
    assert_eq!(
        lines("proc main : in 0 . 18446744073709551615 . 12 (ptr) . true . false . 7 (bool) . end "),
        vec!["0", "18446744073709551615", "12", "true", "false", "false"]
    );
}

#[test]
fn a_program_without_main_does_not_start() {
    let program = load("proc other : in 1 . end ");
    assert!(matches!(Interpreter::new(&program), Err(Fault::MissingMain)));
    assert_eq!(run(&program).end, Err(Fault::MissingMain));
}

#[test]
fn the_run_starts_at_main() {
    let program = load("proc other : in 1 . end proc main : in 2 . end ");
    let engine = Interpreter::new(&program).unwrap();
    assert_eq!(engine.ip(), 3);
    assert!(engine.stack().is_empty());
    assert!(engine.return_stack().is_empty());
    assert!(engine.memory().slots().is_empty());
    assert_eq!(run(&program).lines, vec!["2"]);
}

#[test]
fn an_unknown_name_is_a_fault() {
    let done = run_source("proc main : in 1 nothing 2 . end ");
    assert_eq!(done.end, Err(Fault::UnknownIdent));
    let engine = done.engine.unwrap();
    assert_eq!(engine.ip(), 1);
    assert!(engine.return_stack().is_empty());
}

#[test]
fn an_unknown_label_is_a_fault() {
    let done = run_source("proc main : in here: goto here end ");
    assert_eq!(done.end, Err(Fault::UnknownLabel));
    assert_eq!(done.engine.unwrap().ip(), 0);
}

#[test]
fn goto_resumes_after_the_label() {
    assert_eq!(
        lines("proc main : in 1 . goto skip: 2 . skip: 3 . end "),
        vec!["1", "3"]
    );
}

#[test]
fn goto_may_jump_back() {
    assert_eq!(
        lines(
            "proc main : in 3 loop: dup . 1 - dup 0 = if goto done: end goto loop: done: drop end "
        ),
        vec!["3", "2", "1"]
    );
}

#[test]
fn goto_may_jump_to_the_first_instruction() {
    let program = load("top: proc main : in 1 . goto top: end ");
    let mut engine = Interpreter::new(&program).unwrap();
    assert_eq!(engine.ip(), 0);
    let args = Args { debug: false };
    assert_eq!(engine.run(&program, &args, 10), Ok(Action::Print(b"1".to_vec())));
    assert_eq!(engine.ip(), 2);
    assert_eq!(engine.step(&program), Ok(Action::Continue));
    assert_eq!(engine.ip(), 0);
    assert_eq!(engine.run(&program, &args, 10), Ok(Action::Print(b"1".to_vec())));
}

#[test]
fn a_tag_that_is_not_met_is_named() {
    assert_eq!(
        fault("proc main : in true 1 + end "),
        Fault::TypeMismatch {
            expected: Types::Int,
            actual: Types::Bool
        }
    );
    assert_eq!(
        fault("proc main : in 1 true + end "),
        Fault::TypeMismatch {
            expected: Types::Int,
            actual: Types::Bool
        }
    );
    assert_eq!(
        fault("proc main : in 1 if end end "),
        Fault::TypeMismatch {
            expected: Types::Bool,
            actual: Types::Int
        }
    );
    assert_eq!(
        fault("proc main : in 5 load end "),
        Fault::TypeMismatch {
            expected: Types::Pointer,
            actual: Types::Int
        }
    );
}

#[test]
fn an_underflow_comes_before_a_tag_further_down() {
    assert_eq!(fault("proc main : in 1 + end "), Fault::StackUnderflow);
    assert_eq!(
        fault("proc main : in true + end "),
        Fault::TypeMismatch {
            expected: Types::Int,
            actual: Types::Bool
        }
    );
}

#[test]
fn expect_holds_the_top_against_the_first_tag() {
    let held = vec![(Types::Int, 1), (Types::Bool, 0), (Types::Pointer, 9)];
    let ok = |tags: Vec<Types>| Interpreter::expect(&held, &tags);
    assert_eq!(ok(vec![]), Ok(()));
    assert_eq!(ok(vec![Types::Pointer]), Ok(()));
    assert_eq!(ok(vec![Types::Pointer, Types::Bool, Types::Int]), Ok(()));
    assert_eq!(ok(vec![Types::Unknown, Types::Unknown, Types::Unknown]), Ok(()));
    assert_eq!(ok(vec![Types::Unknown, Types::Bool]), Ok(()));
    assert_eq!(
        ok(vec![Types::Int]),
        Err(Fault::TypeMismatch {
            expected: Types::Int,
            actual: Types::Pointer
        })
    );
    assert_eq!(
        ok(vec![Types::Unknown, Types::Int]),
        Err(Fault::TypeMismatch {
            expected: Types::Int,
            actual: Types::Bool
        })
    );
    assert_eq!(
        ok(vec![Types::String]),
        Err(Fault::TypeMismatch {
            expected: Types::String,
            actual: Types::Pointer
        })
    );
    assert_eq!(
        ok(vec![Types::Pointer, Types::Bool, Types::Int, Types::Unknown]),
        Err(Fault::StackUnderflow)
    );
    assert_eq!(
        ok(vec![Types::Int, Types::Bool, Types::Int, Types::Unknown]),
        Err(Fault::TypeMismatch {
            expected: Types::Int,
            actual: Types::Pointer
        })
    );
}

#[test]
fn expect_on_an_empty_stack() {
    let empty: Vec<(Types, u64)> = Vec::new();
    assert_eq!(Interpreter::expect(&empty, &vec![]), Ok(()));
    assert_eq!(
        Interpreter::expect(&empty, &vec![Types::Unknown]),
        Err(Fault::StackUnderflow)
    );
    assert_eq!(
        Interpreter::expect(&empty, &vec![Types::Int]),
        Err(Fault::StackUnderflow)
    );
}

/// Steps a one-instruction program on the stack that `before` leaves, and
/// checks that the step fails and changes nothing.
fn fails_and_changes_nothing(before: &str, op: OpCodes) {
    let mut source = String::from("proc main : in \"m\" drop ");
    source.push_str(before);
    source.push_str(" open end ");
    let mut lexer = Lexer::new();
    assert_eq!(lexer.tokenize(&source.as_bytes().to_vec(), 0), Ok(Scan::Done));
    let mut program = lexer.finish().unwrap();
    let at = program.tokens.len() - 3;
    assert_eq!(program.tokens[at], OpCodes::Syscalls(Syscalls::Open));
    program.tokens[at] = op;
    let mut engine = Interpreter::new(&program).unwrap();
    let args = Args { debug: false };
    assert_eq!(engine.run(&program, &args, at), Ok(Action::Continue));
    assert_eq!(engine.ip(), at);
    let held = engine.stack().clone();
    let slots = engine.memory().slots().clone();
    let calls = engine.return_stack().clone();
    let result = engine.step(&program);
    assert!(
        matches!(
            result,
            Err(Fault::StackUnderflow) | Err(Fault::TypeMismatch { .. })
        ),
        "{:?}",
        result
    );
    assert_eq!(engine.ip(), at);
    assert_eq!(engine.stack(), &held);
    assert_eq!(engine.memory().slots(), &slots);
    assert_eq!(engine.memory().next(), 2);
    assert_eq!(engine.return_stack(), &calls);
}

#[test]
fn a_short_stack_is_reported_and_nothing_changes() {
    fails_and_changes_nothing("", OpCodes::Drop);
    fails_and_changes_nothing("", OpCodes::Dup);
    fails_and_changes_nothing("", OpCodes::Swap);
    fails_and_changes_nothing("1", OpCodes::Swap);
    fails_and_changes_nothing("", OpCodes::Rot);
    fails_and_changes_nothing("1 2", OpCodes::Rot);
    fails_and_changes_nothing("", OpCodes::Cast(Types::Int));
    fails_and_changes_nothing("", OpCodes::Arithmetic(Arithmetic::Plus));
    fails_and_changes_nothing("1", OpCodes::Arithmetic(Arithmetic::Minus));
    fails_and_changes_nothing("1", OpCodes::Arithmetic(Arithmetic::Mul));
    fails_and_changes_nothing("0", OpCodes::Arithmetic(Arithmetic::Div));
    fails_and_changes_nothing("", OpCodes::Equality(Equality::Equal));
    fails_and_changes_nothing("1", OpCodes::Equality(Equality::Bigger));
    fails_and_changes_nothing("1", OpCodes::Equality(Equality::Smaller));
    fails_and_changes_nothing("", OpCodes::If);
    fails_and_changes_nothing("", OpCodes::Load);
    fails_and_changes_nothing("", OpCodes::Store);
    fails_and_changes_nothing("1", OpCodes::Store);
    fails_and_changes_nothing("", OpCodes::Print);
    fails_and_changes_nothing("", OpCodes::Syscalls(Syscalls::Read));
    fails_and_changes_nothing("1", OpCodes::Syscalls(Syscalls::Read));
    fails_and_changes_nothing("", OpCodes::Syscalls(Syscalls::Write));
    fails_and_changes_nothing("1", OpCodes::Syscalls(Syscalls::Write));
    fails_and_changes_nothing("5 0 (ptr)", OpCodes::Syscalls(Syscalls::Write));
}

#[test]
fn a_call_on_a_short_stack_is_reported_and_nothing_changes() {
    let program = load("proc f int int : in + end proc main : in \"m\" drop 1 f end ");
    let mut engine = Interpreter::new(&program).unwrap();
    let args = Args { debug: false };
    assert_eq!(engine.run(&program, &args, 1000), Err(Fault::StackUnderflow));
    assert_eq!(engine.ip(), 5);
    assert_eq!(engine.stack(), &vec![(Types::Int, 1)]);
    assert!(engine.return_stack().is_empty());
    assert_eq!(engine.memory().slots(), &vec![109, 0]);
}

#[test]
fn a_return_on_a_short_stack_is_reported_and_nothing_changes() {
    let program = load("proc f : int int in 1 end proc main : in f end ");
    let mut engine = Interpreter::new(&program).unwrap();
    let args = Args { debug: false };
    assert_eq!(engine.run(&program, &args, 1000), Err(Fault::StackUnderflow));
    assert_eq!(engine.ip(), 1);
    assert_eq!(engine.stack(), &vec![(Types::Int, 1)]);
    assert_eq!(engine.return_stack(), &vec![(2, b"f".to_vec())]);
}

#[test]
fn dup_then_drop_changes_nothing() {
    assert_eq!(stack("proc main : in 7 dup drop end "), vec![(Types::Int, 7)]);
    assert_eq!(
        stack("proc main : in 1 true dup drop end "),
        vec![(Types::Int, 1), (Types::Bool, 1)]
    );
    assert_eq!(
        stack("proc main : in 9 (ptr) dup drop end "),
        vec![(Types::Pointer, 9)]
    );
}

#[test]
fn dup_copies_the_top() {
    assert_eq!(
        stack("proc main : in 1 true dup end "),
        vec![(Types::Int, 1), (Types::Bool, 1), (Types::Bool, 1)]
    );
}

#[test]
fn drop_takes_the_top() {
    assert_eq!(stack("proc main : in 1 2 drop end "), vec![(Types::Int, 1)]);
}

#[test]
fn swap_exchanges_the_top_two() {
    assert_eq!(
        stack("proc main : in 1 2 true swap end "),
        vec![(Types::Int, 1), (Types::Bool, 1), (Types::Int, 2)]
    );
}

#[test]
fn rot_leaves_three_values_as_they_are() {
    assert_eq!(
        stack("proc main : in 1 2 3 rot end "),
        vec![(Types::Int, 1), (Types::Int, 2), (Types::Int, 3)]
    );
    assert_eq!(fault("proc main : in 1 2 rot end "), Fault::StackUnderflow);
}

#[test]
fn a_cast_keeps_the_payload() {
    assert_eq!(
        stack("proc main : in 7 (ptr) 8 (bool) true (int) 9 (int) end "),
        vec![
            (Types::Pointer, 7),
            (Types::Bool, 8),
            (Types::Int, 1),
            (Types::Int, 9)
        ]
    );
}

#[test]
fn a_cast_to_a_tag_that_no_value_carries_takes_the_value() {
    let program = assemble(vec![
        number(1),
        number(2),
        OpCodes::Cast(Types::String),
        number(3),
        OpCodes::Cast(Types::Unknown),
    ]);
    let done = run(&program);
    assert_eq!(done.end, Ok(()));
    assert_eq!(done.engine.unwrap().stack(), &vec![(Types::Int, 1)]);
}

#[test]
fn a_push_of_a_tag_that_has_no_literal_does_nothing() {
    let program = assemble(vec![
        OpCodes::Push(Types::Pointer, 5, Vec::new()),
        OpCodes::Push(Types::Unknown, 6, b"x".to_vec()),
        OpCodes::Push(Types::Bool, 7, Vec::new()),
    ]);
    let done = run(&program);
    let engine = done.engine.unwrap();
    assert_eq!(engine.stack(), &vec![(Types::Bool, 7)]);
    assert!(engine.memory().slots().is_empty());
    assert_eq!(engine.ip(), 3);
}

#[test]
fn open_does_nothing() {
    assert_eq!(stack("proc main : in 1 open end "), vec![(Types::Int, 1)]);
    assert!(stack("proc main : in open end ").is_empty());
}

#[test]
fn a_store_and_then_a_load_give_the_value() {
    assert_eq!(lines("proc main : in 42 100 (ptr) store 100 (ptr) load . end "), vec!["42"]);
}

#[test]
fn a_store_takes_any_tags() {
    let done = run_source("proc main : in true 7 store 7 (ptr) load end ");
    assert_eq!(done.end, Ok(()));
    assert_eq!(done.engine.unwrap().stack(), &vec![(Types::Int, 1)]);
}

#[test]
fn a_second_store_overwrites_in_place() {
    let done = run_source(
        "proc main : in 1 5 (ptr) store 9 6 (ptr) store 2 5 (ptr) store 5 (ptr) load . 6 (ptr) load . end ",
    );
    assert_eq!(done.lines, vec!["2", "9"]);
    let engine = done.engine.unwrap();
    assert_eq!(engine.memory().slots(), &vec![2, 9]);
    assert_eq!(engine.memory().next(), 2);
}

#[test]
fn a_load_of_an_address_never_written_gives_zero() {
    assert_eq!(lines("proc main : in 123 (ptr) load . 0 (ptr) load . end "), vec!["0", "0"]);
    assert_eq!(stack("proc main : in 123 (ptr) load end "), vec![(Types::Int, 0)]);
}

#[test]
fn a_load_gives_an_int_whatever_was_stored() {
    assert_eq!(
        stack("proc main : in true 3 (ptr) store 3 (ptr) load end "),
        vec![(Types::Int, 1)]
    );
}

#[test]
fn a_literal_can_be_read_back_byte_by_byte() {
    assert_eq!(
        lines(
            "proc main : in \"hi\" dup load . (int) 1 + (ptr) dup load . (int) 1 + (ptr) load . end "
        ),
        vec!["104", "105", "0"]
    );
}

#[test]
fn a_call_checks_the_parameters() {
    let done = run_source("proc f int : in drop end proc main : in true f end ");
    assert_eq!(
        done.end,
        Err(Fault::TypeMismatch {
            expected: Types::Int,
            actual: Types::Bool
        })
    );
    assert!(done.engine.unwrap().return_stack().is_empty());
}

#[test]
fn a_call_holds_the_top_against_the_first_parameter() {
    assert_eq!(lines("proc f bool int : in drop . end proc main : in 4 true f end "), vec!["4"]);
    assert_eq!(
        fault("proc f bool int : in drop . end proc main : in true 4 f end "),
        Fault::TypeMismatch {
            expected: Types::Bool,
            actual: Types::Int
        }
    );
}

#[test]
fn a_return_checks_the_results() {
    let done = run_source("proc f : int in true end proc main : in f end ");
    assert_eq!(
        done.end,
        Err(Fault::TypeMismatch {
            expected: Types::Int,
            actual: Types::Bool
        })
    );
    let engine = done.engine.unwrap();
    assert_eq!(engine.return_stack(), &vec![(2, b"f".to_vec())]);
    assert_eq!(engine.ip(), 1);
}

#[test]
fn a_return_resumes_after_the_call() {
    assert_eq!(
        lines("proc f : in 1 . end proc main : in f 2 . f 3 . end "),
        vec!["1", "2", "1", "3"]
    );
}

#[test]
fn calls_nest() {
    assert_eq!(
        lines("proc g : in 1 . end proc f : in g 2 . end proc main : in f 3 . end "),
        vec!["1", "2", "3"]
    );
}

#[test]
fn a_call_notes_where_it_came_from() {
    let program = load("proc f : in 1 end proc main : in 5 f end ");
    let mut engine = Interpreter::new(&program).unwrap();
    assert_eq!(engine.ip(), 2);
    assert_eq!(engine.step(&program), Ok(Action::Continue));
    assert_eq!(engine.step(&program), Ok(Action::Continue));
    assert_eq!(engine.ip(), 0);
    assert_eq!(engine.return_stack(), &vec![(3, b"f".to_vec())]);
    assert_eq!(engine.step(&program), Ok(Action::Continue));
    assert_eq!(engine.step(&program), Ok(Action::Continue));
    assert_eq!(engine.ip(), 4);
    assert!(engine.return_stack().is_empty());
}

#[test]
fn a_return_of_main_ends_the_run() {
    let program = load("proc main : in 1 end 2 . ");
    let mut engine = Interpreter::new(&program).unwrap();
    assert_eq!(engine.step(&program), Ok(Action::Continue));
    assert_eq!(engine.step(&program), Ok(Action::Continue));
    assert_eq!(engine.ip(), program.tokens.len());
    assert_eq!(engine.step(&program), Ok(Action::Halt));
    assert_eq!(engine.step(&program), Ok(Action::Halt));
    assert_eq!(engine.ip(), program.tokens.len());
    assert_eq!(engine.stack(), &vec![(Types::Int, 1)]);
}

#[test]
fn the_end_marker_is_stepped_over() {
    let program = assemble(vec![OpCodes::EOP, number(1), OpCodes::EOP]);
    let done = run(&program);
    assert_eq!(done.end, Ok(()));
    let engine = done.engine.unwrap();
    assert_eq!(engine.stack(), &vec![(Types::Int, 1)]);
    assert_eq!(engine.ip(), 3);
}

#[test]
fn a_procedure_without_a_return_runs_into_what_follows() {
    let program = assemble(vec![number(1), OpCodes::Print, number(2), OpCodes::Print]);
    let done = run(&program);
    assert_eq!(done.end, Ok(()));
    assert_eq!(done.lines, vec!["1", "2"]);
}

#[test]
fn a_source_with_an_open_block_is_not_run() {
    let mut lexer = Lexer::new();
    let source = b"proc main : in 1 . proc other : in 2 . end ".to_vec();
    assert_eq!(lexer.tokenize(&source, 0), Ok(Scan::Done));
    assert!(matches!(lexer.finish(), Err(Fault::UnclosedBlock)));
}

#[test]
fn read_asks_for_the_bytes_and_deliver_takes_them_in() {
    let program = load("proc main : in \"ab\" drop 3 0 read dup load . end ");
    let mut engine = Interpreter::new(&program).unwrap();
    let args = Args { debug: false };
    assert_eq!(
        engine.run(&program, &args, 1000),
        Ok(Action::Read { fd: 0, len: 3 })
    );
    assert!(engine.stack().is_empty());
    assert_eq!(engine.ip(), 5);
    let mut buffer = [0u8; 200];
    buffer[0] = b'x';
    buffer[1] = b'y';
    buffer[199] = b'z';
    engine.deliver(&buffer);
    assert_eq!(engine.stack(), &vec![(Types::Pointer, 3)]);
    assert_eq!(engine.ip(), 5);
    let slots = engine.memory().slots().clone();
    assert_eq!(slots.len(), 3 + 201);
    assert_eq!(&slots[..3], &[97, 98, 0]);
    assert_eq!(&slots[3..5], &[120, 121]);
    assert!(slots[5..202].iter().all(|byte| *byte == 0));
    assert_eq!(slots[202], 122);
    assert_eq!(slots[203], 0);
    assert_eq!(engine.memory().next(), 204);
    assert_eq!(
        engine.run(&program, &args, 1000),
        Ok(Action::Print(b"120".to_vec()))
    );
    assert_eq!(engine.run(&program, &args, 1000), Ok(Action::Halt));
    assert_eq!(engine.stack(), &vec![(Types::Pointer, 3)]);
}

#[test]
fn a_read_of_more_than_199_bytes_is_a_fault() {
    let done = run_source("proc main : in 200 0 read end ");
    assert_eq!(done.end, Err(Fault::ReadTooLong));
    assert_eq!(
        done.engine.unwrap().stack(),
        &vec![(Types::Int, 200), (Types::Int, 0)]
    );
    let program = load("proc main : in 199 4 read end ");
    let mut engine = Interpreter::new(&program).unwrap();
    let args = Args { debug: false };
    assert_eq!(
        engine.run(&program, &args, 1000),
        Ok(Action::Read { fd: 4, len: 199 })
    );
}

#[test]
fn written_judges_what_a_write_returned() {
    assert_eq!(Interpreter::written(-1), Err(Fault::WriteFailed));
    assert_eq!(Interpreter::written(isize::MIN), Err(Fault::WriteFailed));
    assert_eq!(Interpreter::written(0), Ok(()));
    assert_eq!(Interpreter::written(5), Ok(()));
}

#[test]
fn write_checks_its_three_tags() {
    assert_eq!(
        fault("proc main : in 1 2 3 write end "),
        Fault::TypeMismatch {
            expected: Types::Pointer,
            actual: Types::Int
        }
    );
    assert_eq!(
        fault("proc main : in 1 \"x\" true write end "),
        Fault::TypeMismatch {
            expected: Types::Int,
            actual: Types::Bool
        }
    );
}

#[test]
fn in_debug_mode_run_yields_after_every_instruction() {
    let program = load("proc main : in 1 2 + . end ");
    let mut engine = Interpreter::new(&program).unwrap();
    let args = Args { debug: true };
    assert_eq!(engine.run(&program, &args, 1000), Ok(Action::Continue));
    assert_eq!(engine.ip(), 1);
    assert_eq!(engine.run(&program, &args, 1000), Ok(Action::Continue));
    assert_eq!(engine.ip(), 2);
    assert_eq!(engine.run(&program, &args, 1000), Ok(Action::Continue));
    assert_eq!(engine.ip(), 3);
    assert_eq!(engine.stack(), &vec![(Types::Int, 3)]);
    assert_eq!(
        engine.run(&program, &args, 1000),
        Ok(Action::Print(b"3".to_vec()))
    );
    assert_eq!(engine.run(&program, &args, 1000), Ok(Action::Continue));
    assert_eq!(engine.run(&program, &args, 1000), Ok(Action::Halt));
}

#[test]
fn run_makes_no_more_steps_than_its_fuel() {
    let program = load("proc main : in 1 2 3 4 5 end ");
    let mut engine = Interpreter::new(&program).unwrap();
    let args = Args { debug: false };
    assert_eq!(engine.run(&program, &args, 0), Ok(Action::Continue));
    assert_eq!(engine.ip(), 0);
    assert_eq!(engine.run(&program, &args, 2), Ok(Action::Continue));
    assert_eq!(engine.ip(), 2);
    assert_eq!(engine.run(&program, &args, 3), Ok(Action::Continue));
    assert_eq!(engine.ip(), 5);
    let debug = Args { debug: true };
    assert_eq!(engine.run(&program, &debug, 0), Ok(Action::Continue));
    assert_eq!(engine.ip(), 5);
}

#[test]
fn a_run_in_bursts_comes_to_the_same() {
    let source = "proc f int : int in dup * end proc main : in 3 f 4 f + 1 (ptr) store \"ab\" end ";
    let program = load(source);
    let args = Args { debug: false };
    let mut whole = Interpreter::new(&program).unwrap();
    assert_eq!(whole.run(&program, &args, 15), Ok(Action::Continue));
    let mut parts = Interpreter::new(&program).unwrap();
    assert_eq!(parts.run(&program, &args, 5), Ok(Action::Continue));
    assert_eq!(parts.run(&program, &args, 10), Ok(Action::Continue));
    let mut single = Interpreter::new(&program).unwrap();
    let debug = Args { debug: true };
    for _ in 0..15 {
        assert_eq!(single.run(&program, &debug, 100), Ok(Action::Continue));
    }
    for other in [&parts, &single] {
        assert_eq!(other.ip(), whole.ip());
        assert_eq!(other.stack(), whole.stack());
        assert_eq!(other.return_stack(), whole.return_stack());
        assert_eq!(other.memory().slots(), whole.memory().slots());
    }
    assert_eq!(whole.stack(), &vec![(Types::Pointer, 1)]);
    assert_eq!(whole.memory().slots(), &vec![25, 97, 98, 0]);
}

#[test]
fn a_fault_has_a_family() {
    assert_eq!(Fault::UnexpectedEnd.kind(), FaultKind::Lexical);
    assert_eq!(Fault::UnclosedBlock.kind(), FaultKind::Lexical);
    assert_eq!(Fault::Unfinished.kind(), FaultKind::Lexical);
    assert_eq!(Fault::MissingMain.kind(), FaultKind::Link);
    assert_eq!(Fault::UnknownIdent.kind(), FaultKind::Link);
    assert_eq!(Fault::UnknownLabel.kind(), FaultKind::Link);
    assert_eq!(
        Fault::TypeMismatch {
            expected: Types::Int,
            actual: Types::Bool
        }
        .kind(),
        FaultKind::Type
    );
    assert_eq!(Fault::StackUnderflow.kind(), FaultKind::Runtime);
    assert_eq!(Fault::ReadTooLong.kind(), FaultKind::Runtime);
    assert_eq!(Fault::WriteFailed.kind(), FaultKind::Runtime);
    assert_eq!(Fault::DivisionByZero.kind(), FaultKind::Runtime);
}

#[test]
fn a_call_of_an_empty_procedure_changes_nothing_but_the_pointer() {
    let program = load("proc f int : int in end proc main : in 1 f end ");
    let mut engine = Interpreter::new(&program).unwrap();
    assert_eq!(engine.step(&program), Ok(Action::Continue));
    assert_eq!(engine.ip(), 2);
    assert_eq!(engine.step(&program), Ok(Action::Continue));
    assert_eq!(engine.ip(), 0);
    assert_eq!(engine.step(&program), Ok(Action::Continue));
    assert_eq!(engine.ip(), 3);
    assert_eq!(engine.stack(), &vec![(Types::Int, 1)]);
    assert!(engine.return_stack().is_empty());
    assert!(engine.memory().slots().is_empty());
}

#[test]
fn a_loaded_program_with_closed_blocks_never_lacks_a_block() {
    let mut lexer = Lexer::new();
    let source = b"proc main : in 0 (bool) if 1 . 0 (bool) if 2 . end end 3 . end ".to_vec();
    assert_eq!(lexer.tokenize(&source, 0), Ok(Scan::Done));
    assert_eq!(lexer.depth(), 0);
    let done = run(&lexer.finish().unwrap());
    assert_eq!(done.end, Ok(()));
    assert_eq!(done.lines, vec!["3"]);
}
