use push_swap_tester::check_output::{check, check_lines, execute, trimmed_lines, ExecError, Move};
use push_swap_tester::get_threshold_values::{get_threshold_index, get_threshold_values};
use push_swap_tester::stack::Stack;

fn contents(s: &Stack) -> Vec<i32> {
    s.iter().copied().collect()
}

fn is_bad_command(r: &Result<usize, ExecError>, token: &str) -> bool {
    match r {
        Err(ExecError::BadCommand(t)) => t == token,
        _ => false,
    }
}

#[test]
fn short_stacks_are_sorted() {
    assert!(Stack::from_vec(vec![]).is_sorted());
    assert!(Stack::from_vec(vec![42]).is_sorted());
    assert!(Stack::from_vec(vec![-5]).is_sorted());
}

#[test]
fn sortedness_is_strict() {
    assert!(Stack::from_vec(vec![1, 2, 3]).is_sorted());
    assert!(!Stack::from_vec(vec![1, 1, 2]).is_sorted());
    assert!(!Stack::from_vec(vec![2, 1]).is_sorted());
    let mut s = Stack::from_vec(vec![3, 1, 2]);
    assert!(!s.is_sorted());
    assert_eq!(contents(&s), vec![3, 1, 2]);
}

#[test]
fn swap_exchanges_top_two() {
    let mut s = Stack::from_vec(vec![1, 2, 3]);
    s.swap();
    assert_eq!(contents(&s), vec![2, 1, 3]);
    let mut one = Stack::from_vec(vec![7]);
    one.swap();
    assert_eq!(contents(&one), vec![7]);
}

#[test]
fn rotate_moves_top_to_bottom() {
    let mut s = Stack::from_vec(vec![1, 2, 3]);
    s.rotate();
    assert_eq!(contents(&s), vec![2, 3, 1]);
    let mut empty = Stack::with_capacity(4);
    empty.rotate();
    assert!(empty.is_empty());
}

#[test]
fn reverse_rotate_moves_bottom_to_top() {
    let mut s = Stack::from_vec(vec![1, 2, 3]);
    s.reverse_rotate();
    assert_eq!(contents(&s), vec![3, 1, 2]);
    let mut empty = Stack::with_capacity(0);
    empty.reverse_rotate();
    assert_eq!(empty.len(), 0);
}

#[test]
fn rotate_round_trip() {
    let mut s = Stack::from_vec(vec![4, 8, 15, 16]);
    s.rotate();
    s.reverse_rotate();
    assert_eq!(contents(&s), vec![4, 8, 15, 16]);
    s.reverse_rotate();
    s.rotate();
    assert_eq!(contents(&s), vec![4, 8, 15, 16]);
}

#[test]
fn transfer_round_trip() {
    let mut from = Stack::from_vec(vec![1, 2]);
    let mut to = Stack::from_vec(vec![9]);
    to.receive_push_from_other(&mut from);
    assert_eq!(contents(&from), vec![2]);
    assert_eq!(contents(&to), vec![1, 9]);
    from.receive_push_from_other(&mut to);
    assert_eq!(contents(&from), vec![1, 2]);
    assert_eq!(contents(&to), vec![9]);
}

#[test]
fn transfer_from_empty_does_nothing() {
    let mut from = Stack::with_capacity(2);
    let mut to = Stack::from_vec(vec![3]);
    to.receive_push_from_other(&mut from);
    assert!(from.is_empty());
    assert_eq!(contents(&to), vec![3]);
}

#[test]
fn execute_double_moves() {
    let mut a = Stack::from_vec(vec![1, 2, 3]);
    let mut b = Stack::from_vec(vec![4, 5]);
    execute(Move::Ss, &mut a, &mut b);
    assert_eq!(contents(&a), vec![2, 1, 3]);
    assert_eq!(contents(&b), vec![5, 4]);
    execute(Move::Rr, &mut a, &mut b);
    assert_eq!(contents(&a), vec![1, 3, 2]);
    assert_eq!(contents(&b), vec![4, 5]);
    execute(Move::Rrr, &mut a, &mut b);
    assert_eq!(contents(&a), vec![2, 1, 3]);
    assert_eq!(contents(&b), vec![5, 4]);
    execute(Move::Pa, &mut a, &mut b);
    assert_eq!(contents(&a), vec![5, 2, 1, 3]);
    assert_eq!(contents(&b), vec![4]);
    execute(Move::Pb, &mut a, &mut b);
    assert_eq!(contents(&a), vec![2, 1, 3]);
    assert_eq!(contents(&b), vec![5, 4]);
}

#[test]
fn validate_empty_script() {
    assert!(matches!(check(Stack::from_vec(vec![]), ""), Ok(0)));
}

#[test]
fn validate_one_swap_sorts() {
    assert!(matches!(check(Stack::from_vec(vec![2, 1]), "sa\n"), Ok(1)));
}

#[test]
fn validate_not_sorted() {
    assert!(matches!(
        check(Stack::from_vec(vec![3, 1, 2]), "sa\n"),
        Err(ExecError::NotSorted)
    ));
}

#[test]
fn validate_bad_command() {
    let r = check(Stack::from_vec(vec![1, 2]), "xx\n");
    assert!(is_bad_command(&r, "xx"));
}

#[test]
fn validate_stack_b_not_empty() {
    assert!(matches!(
        check(Stack::from_vec(vec![1, 2]), "pb\n"),
        Err(ExecError::StackBNotEmpty)
    ));
}

#[test]
fn validate_trims_lines() {
    let r = check(Stack::from_vec(vec![2, 1]), "  sa\t\r\n");
    assert!(matches!(r, Ok(1)));
    let r = check(Stack::from_vec(vec![3, 2, 1]), " sa \r\n\trra\r\n");
    assert!(matches!(r, Ok(2)));
    let r = check(Stack::from_vec(vec![1, 2, 3]), "pb\r\n pa \r\npb\npa");
    assert!(matches!(r, Ok(4)));
}

#[test]
fn validate_bad_command_is_trimmed() {
    let r = check(Stack::from_vec(vec![1, 2]), "ra\n  Sa \nxx\n");
    assert!(is_bad_command(&r, "Sa"));
    let r = check(Stack::from_vec(vec![1, 2]), "r a\n");
    assert!(is_bad_command(&r, "r a"));
}

#[test]
fn validate_empty_line_is_bad() {
    let r = check(Stack::from_vec(vec![1, 2]), "ra\n\nra\n");
    assert!(is_bad_command(&r, ""));
}

#[test]
fn validate_bad_command_stops_before_judging() {
    let r = check(Stack::from_vec(vec![1, 2]), "pb\nnope\n");
    assert!(is_bad_command(&r, "nope"));
}

#[test]
fn validate_every_move() {
    let script = "pb\npb\nsb\nrb\nrrb\nrr\nrrr\nss\nsa\nra\nrra\npa\npa\n";
    let r = check(Stack::from_vec(vec![1, 2, 3, 4]), script);
    assert!(matches!(r, Ok(13)));
}

#[test]
fn validate_sorts_with_rotations() {
    let r = check(Stack::from_vec(vec![3, 1, 2]), "ra");
    assert!(matches!(r, Ok(1)));
    let r = check(Stack::from_vec(vec![2, 3, 1]), "rra\n");
    assert!(matches!(r, Ok(1)));
}

#[test]
fn error_texts() {
    assert_eq!(
        ExecError::BadCommand("xx".to_string()).to_string(),
        "unknown command: xx"
    );
    assert_eq!(ExecError::StackBNotEmpty.to_string(), "stack b is not empty");
    assert_eq!(ExecError::NotSorted.to_string(), "stack a is not sorted");
}

#[test]
fn buckets_example() {
    assert_eq!(get_threshold_values(&[1, 2, 3, 10, 20], &[5, 15]), vec![3, 1, 1]);
}

#[test]
fn buckets_of_nothing() {
    assert_eq!(get_threshold_values(&[], &[5, 10]), vec![0, 0, 0]);
}

#[test]
fn buckets_without_thresholds() {
    assert_eq!(get_threshold_values(&[4, 5, 6], &[]), vec![3]);
}

#[test]
fn buckets_threshold_is_exclusive() {
    let moves = [700, 899, 900, 1500, 2000];
    let counts = get_threshold_values(&moves, &[700, 900, 1_100, 1_300, 1_500]);
    assert_eq!(counts, vec![0, 2, 1, 0, 0, 2]);
    assert_eq!(counts.iter().sum::<usize>(), moves.len());
}

#[test]
fn threshold_index_counts_lower_thresholds() {
    let thresholds = [5_500, 7_000, 8_500, 10_000, 11_500];
    assert_eq!(get_threshold_index(&thresholds, 100), 0);
    assert_eq!(get_threshold_index(&thresholds, 5_500), 0);
    assert_eq!(get_threshold_index(&thresholds, 7_001), 2);
    assert_eq!(get_threshold_index(&thresholds, 20_000), 5);
}

#[test]
fn lines_are_split_and_trimmed() {
    assert_eq!(trimmed_lines(""), Vec::<String>::new());
    assert_eq!(trimmed_lines("sa\n"), vec!["sa".to_string()]);
    assert_eq!(
        trimmed_lines("  pb \r\n\n\tra\u{a0}\nrra"),
        vec!["pb".to_string(), "".to_string(), "ra".to_string(), "rra".to_string()]
    );
    assert_eq!(trimmed_lines("\n\n"), vec!["".to_string(), "".to_string()]);
}

#[test]
fn check_lines_runs_trimmed_lines() {
    let lines = vec!["pb".to_string(), "sa".to_string(), "pa".to_string()];
    assert!(matches!(check_lines(Stack::from_vec(vec![1, 3, 2]), &lines), Ok(3)));
    let lines = vec!["pb".to_string(), " sa".to_string()];
    let r = check_lines(Stack::from_vec(vec![1, 3, 2]), &lines);
    assert!(is_bad_command(&r, " sa"));
    let r = check_lines(Stack::from_vec(vec![2, 1]), &Vec::new());
    assert!(matches!(r, Err(ExecError::NotSorted)));
}
