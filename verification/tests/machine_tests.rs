use piet_interp::command::{command_from_deltas, exec_cmd, Command, DataType, Output};
use piet_interp::state::{CodelChooser, Direction, State};

fn state_with_stack(stack: Vec<i32>) -> State {
    let mut s = State::new();
    s.stack = stack;
    s
}

fn run(cmd: Command, stack: Vec<i32>) -> (Vec<i32>, Option<Output>) {
    let mut s = state_with_stack(stack);
    let out = exec_cmd(cmd, 0, None, &mut s);
    (s.stack, out)
}

#[test]
fn decoder_is_total_over_all_eighteen_delta_pairs() {
    let expected = [
        [Command::Nop, Command::Push, Command::Pop],
        [Command::Add, Command::Subtract, Command::Multiply],
        [Command::Divide, Command::Mod, Command::Not],
        [Command::Greater, Command::Pointer, Command::Switch],
        [Command::Duplicate, Command::Roll, Command::In(DataType::Number)],
        [Command::In(DataType::Char), Command::Out(DataType::Number), Command::Out(DataType::Char)],
    ];
    for hd in 0..6u8 {
        for ld in 0..3u8 {
            let c = command_from_deltas(hd, ld);
            assert_eq!(c, expected[hd as usize][ld as usize]);
        }
    }
}

#[test]
fn add_sums_the_two_top_entries() {
    let (stack, out) = run(Command::Add, vec![3, 4]);
    assert_eq!(stack, vec![7]);
    assert!(out.is_none());
}

#[test]
fn add_with_one_entry_is_a_no_op() {
    let (stack, _) = run(Command::Add, vec![5]);
    assert_eq!(stack, vec![5]);
}

#[test]
fn add_wraps_on_overflow() {
    let (stack, _) = run(Command::Add, vec![i32::MAX, 1]);
    assert_eq!(stack, vec![i32::MIN]);
}

#[test]
fn subtract_takes_the_top_from_the_second() {
    let (stack, _) = run(Command::Subtract, vec![5, 3]);
    assert_eq!(stack, vec![2]);
}

#[test]
fn multiply_multiplies_the_two_top_entries() {
    let (stack, _) = run(Command::Multiply, vec![6, -7]);
    assert_eq!(stack, vec![-42]);
}

#[test]
fn divide_by_zero_discards_both_operands() {
    let (stack, _) = run(Command::Divide, vec![10, 0]);
    assert_eq!(stack, Vec::<i32>::new());
}

#[test]
fn divide_truncates_toward_zero() {
    let (stack, _) = run(Command::Divide, vec![7, 2]);
    assert_eq!(stack, vec![3]);
    let (stack, _) = run(Command::Divide, vec![-7, 2]);
    assert_eq!(stack, vec![-3]);
}

#[test]
fn modulo_follows_the_dividend_sign() {
    let (stack, _) = run(Command::Mod, vec![7, -2]);
    assert_eq!(stack, vec![1]);
    let (stack, _) = run(Command::Mod, vec![-7, 2]);
    assert_eq!(stack, vec![-1]);
    let (stack, _) = run(Command::Mod, vec![9, 0]);
    assert_eq!(stack, Vec::<i32>::new());
}

#[test]
fn not_replaces_zero_with_one_and_nonzero_with_zero() {
    let (stack, _) = run(Command::Not, vec![0]);
    assert_eq!(stack, vec![1]);
    let (stack, _) = run(Command::Not, vec![17]);
    assert_eq!(stack, vec![0]);
    let (stack, _) = run(Command::Not, vec![]);
    assert_eq!(stack, Vec::<i32>::new());
}

#[test]
fn greater_compares_second_against_top() {
    let (stack, _) = run(Command::Greater, vec![5, 3]);
    assert_eq!(stack, vec![1]);
    let (stack, _) = run(Command::Greater, vec![3, 5]);
    assert_eq!(stack, vec![0]);
    let (stack, _) = run(Command::Greater, vec![4]);
    assert_eq!(stack, vec![4]);
}

#[test]
fn pop_and_duplicate() {
    let (stack, _) = run(Command::Pop, vec![1, 2]);
    assert_eq!(stack, vec![1]);
    let (stack, _) = run(Command::Pop, vec![]);
    assert_eq!(stack, Vec::<i32>::new());
    let (stack, _) = run(Command::Duplicate, vec![9]);
    assert_eq!(stack, vec![9, 9]);
    let (stack, _) = run(Command::Duplicate, vec![]);
    assert_eq!(stack, Vec::<i32>::new());
}

#[test]
fn pointer_rotates_by_the_popped_count() {
    let mut s = state_with_stack(vec![1]);
    exec_cmd(Command::Pointer, 0, None, &mut s);
    assert_eq!(s.dp, Direction::Down);
    assert_eq!(s.stack, Vec::<i32>::new());

    let mut s = state_with_stack(vec![-1]);
    exec_cmd(Command::Pointer, 0, None, &mut s);
    assert_eq!(s.dp, Direction::Up);

    let mut s = state_with_stack(vec![5]);
    exec_cmd(Command::Pointer, 0, None, &mut s);
    assert_eq!(s.dp, Direction::Down);

    let mut s = state_with_stack(vec![0]);
    exec_cmd(Command::Pointer, 0, None, &mut s);
    assert_eq!(s.dp, Direction::Right);

    let mut s = state_with_stack(vec![]);
    exec_cmd(Command::Pointer, 0, None, &mut s);
    assert_eq!(s.dp, Direction::Right);
}

#[test]
fn switch_toggles_for_odd_positive_counts_only() {
    let mut s = state_with_stack(vec![3]);
    exec_cmd(Command::Switch, 0, None, &mut s);
    assert_eq!(s.cc, CodelChooser::Right);
    assert_eq!(s.stack, Vec::<i32>::new());

    let mut s = state_with_stack(vec![2]);
    exec_cmd(Command::Switch, 0, None, &mut s);
    assert_eq!(s.cc, CodelChooser::Left);

    // a negative operand performs zero toggles
    let mut s = state_with_stack(vec![-5]);
    exec_cmd(Command::Switch, 0, None, &mut s);
    assert_eq!(s.cc, CodelChooser::Left);
    assert_eq!(s.stack, Vec::<i32>::new());
}

#[test]
fn roll_buries_the_top_entry() {
    // operands: depth three, one roll
    let (stack, _) = run(Command::Roll, vec![1, 2, 3, 3, 1]);
    assert_eq!(stack, vec![3, 1, 2]);
}

#[test]
fn roll_twice_within_depth_two() {
    let (stack, _) = run(Command::Roll, vec![1, 2, 3, 2, 2]);
    assert_eq!(stack, vec![1, 2, 3]);
}

#[test]
fn roll_with_invalid_depth_discards_its_operands() {
    let (stack, _) = run(Command::Roll, vec![1, 2, 5, 1]);
    assert_eq!(stack, vec![1, 2]);
    let (stack, _) = run(Command::Roll, vec![1, 2, 0, 1]);
    assert_eq!(stack, vec![1, 2]);
    let (stack, _) = run(Command::Roll, vec![1, 2, -1, 1]);
    assert_eq!(stack, vec![1, 2]);
}

#[test]
fn roll_with_negative_count_rederives_the_depth() {
    let (stack, _) = run(Command::Roll, vec![1, 2, 3, 3, -1]);
    assert_eq!(stack, vec![3, 1, 2]);
}

#[test]
fn in_number_with_unparsable_line_is_a_no_op() {
    let mut s = state_with_stack(vec![8]);
    let line: Vec<u8> = b"abc".to_vec();
    let out = exec_cmd(Command::In(DataType::Number), 0, Some(&line), &mut s);
    assert!(out.is_none());
    assert_eq!(s.stack, vec![8]);
}

#[test]
fn in_number_parses_trimmed_decimal_lines() {
    let cases: [(&[u8], Option<i32>); 8] = [
        (b"42\n", Some(42)),
        (b"  -17 \r\n", Some(-17)),
        (b"+7", Some(7)),
        (b"-2147483648", Some(i32::MIN)),
        (b"2147483647", Some(i32::MAX)),
        (b"2147483648", None),
        (b"1 2", None),
        (b"", None),
    ];
    for (line, expected) in cases {
        let mut s = State::new();
        let bytes: Vec<u8> = line.to_vec();
        exec_cmd(Command::In(DataType::Number), 0, Some(&bytes), &mut s);
        match expected {
            Some(v) => assert_eq!(s.stack, vec![v], "line {:?}", line),
            None => assert_eq!(s.stack, Vec::<i32>::new(), "line {:?}", line),
        }
    }
}

#[test]
fn in_char_requires_a_valid_code_point() {
    let mut s = State::new();
    let line: Vec<u8> = b"65\n".to_vec();
    exec_cmd(Command::In(DataType::Char), 0, Some(&line), &mut s);
    assert_eq!(s.stack, vec![65]);

    let mut s = State::new();
    let surrogate: Vec<u8> = b"55296".to_vec();
    exec_cmd(Command::In(DataType::Char), 0, Some(&surrogate), &mut s);
    assert_eq!(s.stack, Vec::<i32>::new());

    let mut s = State::new();
    let negative: Vec<u8> = b"-1".to_vec();
    exec_cmd(Command::In(DataType::Char), 0, Some(&negative), &mut s);
    assert_eq!(s.stack, Vec::<i32>::new());
}

#[test]
fn in_with_no_line_available_is_a_no_op() {
    let mut s = state_with_stack(vec![1]);
    let out = exec_cmd(Command::In(DataType::Number), 0, None, &mut s);
    assert!(out.is_none());
    assert_eq!(s.stack, vec![1]);
}

#[test]
fn out_number_emits_the_popped_value() {
    let mut s = state_with_stack(vec![12]);
    let out = exec_cmd(Command::Out(DataType::Number), 0, None, &mut s);
    assert_eq!(out, Some(Output::Number(12)));
    assert_eq!(s.stack, Vec::<i32>::new());

    let mut s = State::new();
    let out = exec_cmd(Command::Out(DataType::Number), 0, None, &mut s);
    assert!(out.is_none());
}

#[test]
fn out_char_validates_the_code_point() {
    let mut s = state_with_stack(vec![65]);
    let out = exec_cmd(Command::Out(DataType::Char), 0, None, &mut s);
    assert_eq!(out, Some(Output::Character(65)));
    assert_eq!(s.stack, Vec::<i32>::new());

    // an invalid code point is discarded with no output
    let mut s = state_with_stack(vec![-1]);
    let out = exec_cmd(Command::Out(DataType::Char), 0, None, &mut s);
    assert!(out.is_none());
    assert_eq!(s.stack, Vec::<i32>::new());
}

#[test]
fn nop_changes_nothing() {
    let mut s = state_with_stack(vec![1, 2]);
    let out = exec_cmd(Command::Nop, 0, None, &mut s);
    assert!(out.is_none());
    assert_eq!(s.stack, vec![1, 2]);
    assert_eq!(s.dp, Direction::Right);
    assert_eq!(s.cc, CodelChooser::Left);
}

#[test]
fn push_pushes_the_block_value() {
    let mut s = State::new();
    exec_cmd(Command::Push, 20, None, &mut s);
    assert_eq!(s.stack, vec![20]);
}
