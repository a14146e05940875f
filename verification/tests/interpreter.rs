use d6_cmd::Cmd;
use d6_cmd::Error;
use d6_cmd::Frame;
use d6_cmd::Loc;
use d6_cmd::SyntaxKind;
use d6_cmd::Value;
use d6_cmd::Var;
use d6_cmd::Vm;
use d6_cmd::parser;

fn run_src(src: &str) -> Vm {
    let cmds = parser::cmds(src).unwrap();
    let mut vm = Vm::default();
    vm.run_to_finish(&cmds).unwrap();
    vm
}

fn check_run(src: &str, expected: Vec<(Var, Value)>) {
    let vm = run_src(src);
    let got = vm.vars_list();
    if got != expected {
        panic!("vars not equal\n left: {:?}\nright: {:?}", got, expected);
    }
}

#[test]
fn it_works() {
    check_run("=a", vec![(Var('a'), Value::Num(0))]);
    check_run("+a", vec![(Var('a'), Value::Num(1))]);
    check_run("2+a", vec![(Var('a'), Value::Num(2))]);
    check_run("2[+a]", vec![(Var('a'), Value::Num(2))]);
    check_run("=a+a", vec![(Var('a'), Value::Num(1))]);
    check_run("2=a", vec![(Var('a'), Value::Num(2))]);
    check_run("2[=a]", vec![(Var('a'), Value::Num(0))]);
    check_run("2=a-a", vec![(Var('a'), Value::Num(1))]);
    check_run("2 3=a", vec![(Var('a'), Value::Num(6))]);
    check_run(
        "-x-x%x3=a",
        vec![(Var('x'), Value::Num(-2)), (Var('a'), Value::Num(-6))],
    );
    check_run("$a", vec![(Var('a'), Value::Stack(vec![]))]);
    check_run("2$a", vec![(Var('a'), Value::Stack(vec![0, 0]))]);
    check_run("2$a+a", vec![(Var('a'), Value::Stack(vec![0, 1]))]);
    check_run("2$a+a+a", vec![(Var('a'), Value::Stack(vec![0, 2]))]);
    check_run("2$a+a$a", vec![(Var('a'), Value::Stack(vec![0, 1]))]);
    check_run("2$a+a=a", vec![(Var('a'), Value::Stack(vec![0, 0]))]);
    check_run(
        "2$a+a-b%b$a",
        vec![
            (Var('a'), Value::Stack(vec![0])),
            (Var('b'), Value::Num(-1)),
        ],
    );
    check_run("2$a+a1$a", vec![(Var('a'), Value::Stack(vec![0, 1, 0]))]);
    check_run(
        "4=x*m+a-x%x^m",
        vec![(Var('x'), Value::Num(-3)), (Var('a'), Value::Num(7))],
    );
    check_run("{m+a+a+a}@m@m", vec![(Var('a'), Value::Num(6))]);
    check_run("+a;...\n+a", vec![(Var('a'), Value::Num(2))]);
}

#[test]
fn reparse_same_text_gives_identical_ast() {
    let src = "2 3=a{m+a[2-b]}@m*k%x^k";
    let first = parser::cmds(src).unwrap();
    let second = parser::cmds(src).unwrap();
    assert_eq!(format!("{:?}", first), format!("{:?}", second));
}

#[test]
fn resize_by_zero_is_idempotent() {
    // A scalar collapses to an empty stack once; a second resize changes
    // nothing, and a stack is untouched from the start.
    let mut v = Value::Num(5);
    v.set_stack(0);
    assert_eq!(v, Value::Stack(vec![]));
    v.set_stack(0);
    assert_eq!(v, Value::Stack(vec![]));
    let mut s = Value::Stack(vec![1, 2]);
    s.set_stack(0);
    assert_eq!(s, Value::Stack(vec![1, 2]));
}

#[test]
fn fresh_variable_reads_zero() {
    let mut vm = Vm::default();
    let got = vm.get_var(&Var('z'));
    assert_eq!(got, Value::Num(0));
    assert_eq!(vm.vars_list(), vec![(Var('z'), Value::Num(0))]);
    // A read through the count register materialises the variable too.
    check_run("%x", vec![(Var('x'), Value::Num(0))]);
}

#[test]
fn consecutive_literals_multiply() {
    check_run("2 3=a", vec![(Var('a'), Value::Num(6))]);
    check_run("2 3 4=a", vec![(Var('a'), Value::Num(24))]);
}

#[test]
fn increment_on_empty_stack_pushes() {
    check_run("$a+a", vec![(Var('a'), Value::Stack(vec![1]))]);
    check_run("2$a+a", vec![(Var('a'), Value::Stack(vec![0, 1]))]);
}

#[test]
fn macro_reinvocation_accumulates() {
    check_run("{m+a+a+a}@m@m", vec![(Var('a'), Value::Num(6))]);
    check_run("{m+a}@m@m@m", vec![(Var('a'), Value::Num(3))]);
}

#[test]
fn mark_goto_replays_with_count() {
    check_run(
        "4=x*m+a-x%x^m",
        vec![(Var('x'), Value::Num(-3)), (Var('a'), Value::Num(7))],
    );
}

#[test]
fn undefined_macro_reports_name_and_location() {
    let cmds = parser::cmds("@m").unwrap();
    let mut vm = Vm::default();
    let err = vm.run_to_finish(&cmds).unwrap_err();
    assert_eq!(err, Error::UndefinedMacro(Var('m'), Loc(0)));
}

#[test]
fn undefined_mark_reports_name_and_location() {
    let cmds = parser::cmds("+a^k").unwrap();
    let mut vm = Vm::default();
    let err = vm.run_to_finish(&cmds).unwrap_err();
    assert_eq!(err, Error::UndefinedMark(Var('k'), Loc(2)));
}

#[test]
fn failing_call_keeps_committed_state() {
    let cmds = parser::cmds("+a+a@m+a").unwrap();
    let mut vm = Vm::default();
    let err = vm.run_to_finish(&cmds).unwrap_err();
    assert_eq!(err, Error::UndefinedMacro(Var('m'), Loc(4)));
    assert_eq!(vm.vars_list(), vec![(Var('a'), Value::Num(2))]);
}

#[test]
fn zero_count_call_still_requires_the_name() {
    // The name is looked up before the repetition count: an undefined macro
    // or mark fails even when no run is owed.
    let cmds = parser::cmds("0@m").unwrap();
    let mut vm = Vm::default();
    let err = vm.run_to_finish(&cmds).unwrap_err();
    assert_eq!(err, Error::UndefinedMacro(Var('m'), Loc(1)));
    let cmds2 = parser::cmds("0^k").unwrap();
    let mut vm2 = Vm::default();
    let err2 = vm2.run_to_finish(&cmds2).unwrap_err();
    assert_eq!(err2, Error::UndefinedMark(Var('k'), Loc(1)));
}

#[test]
fn zero_count_call_of_a_defined_name_runs_zero_times() {
    check_run("{m+a}0@m", vec![]);
    check_run("*k0^k", vec![]);
}

#[test]
fn each_repetition_starts_with_no_pending_count() {
    // A literal left dangling at the end of a group body does not reach the
    // next run of that body; it pends only for the step after the group.
    check_run("2[3]+a", vec![(Var('a'), Value::Num(3))]);
    check_run("{m3}2@m+a", vec![(Var('a'), Value::Num(3))]);
}

#[test]
fn error_location_is_a_byte_offset() {
    // 'é' takes two bytes, so the '@' sits at byte offset 3.
    let cmds = parser::cmds("+\u{e9}@m").unwrap();
    let mut vm = Vm::default();
    let err = vm.run_to_finish(&cmds).unwrap_err();
    assert_eq!(err, Error::UndefinedMacro(Var('m'), Loc(3)));
}

#[test]
fn comments_are_ignored() {
    check_run("+a;...\n+a", vec![(Var('a'), Value::Num(2))]);
    check_run(";only a comment", vec![]);
}

#[test]
fn bare_character_is_a_syntax_error() {
    let err = parser::cmds("a").unwrap_err();
    assert_eq!(err.loc, Loc(0));
    assert_eq!(err.kind, SyntaxKind::Unexpected);
}

#[test]
fn unclosed_group_is_a_syntax_error() {
    let err = parser::cmds("[+a").unwrap_err();
    assert_eq!(err.kind, SyntaxKind::Unexpected);
    let err2 = parser::cmds("{m+a").unwrap_err();
    assert_eq!(err2.kind, SyntaxKind::Unexpected);
}

#[test]
fn missing_name_after_prefix_is_a_syntax_error() {
    let err = parser::cmds("+").unwrap_err();
    assert_eq!(err.kind, SyntaxKind::Unexpected);
}

#[test]
fn oversized_literal_is_a_syntax_error() {
    let err = parser::cmds("99999999999999999999=a").unwrap_err();
    assert_eq!(err.loc, Loc(0));
    assert_eq!(err.kind, SyntaxKind::NumberTooLarge);
    // The largest representable literal still parses.
    check_run(
        "9223372036854775807=a",
        vec![(Var('a'), Value::Num(i64::MAX))],
    );
}

#[test]
fn arithmetic_wraps_around() {
    check_run(
        "9223372036854775807 2=a",
        vec![(Var('a'), Value::Num(-2))],
    );
    check_run(
        "9223372036854775807=a+a",
        vec![(Var('a'), Value::Num(i64::MIN))],
    );
}

#[test]
fn empty_input_parses_to_nothing() {
    let cmds = parser::cmds("").unwrap();
    assert_eq!(cmds.len(), 0);
    check_run("", vec![]);
    check_run(" \t\r\n", vec![]);
}

#[test]
fn single_steps_reach_the_same_result() {
    let cmds = parser::cmds("2+a{m+b}@m").unwrap();
    let mut vm = Vm::default();
    let mut frames = vec![Frame::Run { body: cmds, pos: 0 }];
    loop {
        match vm.run(&mut frames) {
            Ok(()) => {},
            Err(None) => break,
            Err(Some(e)) => panic!("unexpected error {:?}", e),
        }
    }
    assert_eq!(
        vm.vars_list(),
        vec![(Var('a'), Value::Num(2)), (Var('b'), Value::Num(1))]
    );
}

#[test]
fn value_from_conversions() {
    assert_eq!(Value::from(6i64), Value::Num(6));
    assert_eq!(Value::from(vec![0i64, 1]), Value::Stack(vec![0, 1]));
}

#[test]
fn preset_count_defaults() {
    assert_eq!(Cmd::Assign(Var('a')).preset_count(None), 0);
    assert_eq!(Cmd::Stack(Var('a')).preset_count(None), 0);
    assert_eq!(Cmd::Add(Var('a')).preset_count(None), 1);
    assert_eq!(Cmd::Sub(Var('a')).preset_count(None), 1);
    assert_eq!(Cmd::Num(3).preset_count(None), 1);
    assert_eq!(Cmd::Add(Var('a')).preset_count(Some(7)), 7);
    assert_eq!(Cmd::Assign(Var('a')).preset_count(Some(-4)), -4);
}

#[test]
fn value_operations() {
    let mut v = Value::Num(5);
    assert_eq!(v.num(), 5);
    v.inc(3);
    assert_eq!(v, Value::Num(8));
    v.set(1);
    assert_eq!(v, Value::Num(1));
    v.set_stack(3);
    assert_eq!(v, Value::Stack(vec![1, 1, 1]));
    assert_eq!(v.num(), 1);
    v.inc(4);
    assert_eq!(v, Value::Stack(vec![1, 1, 5]));
    v.set(9);
    assert_eq!(v, Value::Stack(vec![1, 1, 9]));
    v.set_stack(-2);
    assert_eq!(v, Value::Stack(vec![1]));
    v.set_stack(-5);
    assert_eq!(v, Value::Stack(vec![]));
    assert_eq!(v.num(), 0);
    let mut e = Value::Stack(vec![]);
    e.inc(4);
    assert_eq!(e, Value::Stack(vec![4]));
    let mut f = Value::Stack(vec![]);
    f.set(7);
    assert_eq!(f, Value::Stack(vec![7]));
}

#[test]
fn whitespace_between_prefix_and_name() {
    check_run("+ \n a", vec![(Var('a'), Value::Num(1))]);
    check_run("+;note\na", vec![(Var('a'), Value::Num(1))]);
}

#[test]
fn macro_redefinition_overwrites() {
    check_run("{m+a}{m+a+a}@m", vec![(Var('a'), Value::Num(2))]);
}

#[test]
fn later_mark_with_same_name_wins() {
    // The second `*m` overwrites the first, so the replays never touch `a`
    // again; the countdown through `c` ends the replay chain.
    check_run("3=c*m+a*m+b-c%c^m", vec![
        (Var('c'), Value::Num(-1)),
        (Var('a'), Value::Num(1)),
        (Var('b'), Value::Num(4)),
    ]);
}
