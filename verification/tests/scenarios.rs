use golfscript::interp::Gs;
use golfscript::session::{golfscript, golfscript_bytes};
use golfscript::value::Gval;

/// The final stack of a program, as one array, inspected.
fn stack_after(src: &str) -> String {
    let mut gs = Gs::new();
    gs.set_max_loops(2000);
    gs.run(src.as_bytes());
    let all = Gval::Arr(gs.stack.clone());
    String::from_utf8(all.inspect()).unwrap()
}

/// What the sandbox prints for a program that drops its input first and
/// collects and inspects its stack last.
fn collected(src: &str) -> String {
    golfscript(String::new(), format!(";{}]`", src))
}

#[test]
fn sum_of_two_integers() {
    assert_eq!(stack_after("5 6 +"), "[11]");
    assert_eq!(collected("5 6 +"), "[11]\n");
    assert_eq!(golfscript(String::new(), "5 6 +".to_string()), "11\n");
}

#[test]
fn map_over_string_increments_each_byte() {
    assert_eq!(stack_after("\"hello\"{1+}%"), "[\"ifmmp\"]");
    assert_eq!(golfscript(String::new(), "\"hello\"{1+}%".to_string()), "ifmmp\n");
    assert_eq!(golfscript(String::new(), ";\"[[\"\"hello\"{1+}%\"]]\"".to_string()), "[[ifmmp]]\n");
}

#[test]
fn map_over_array_squares() {
    assert_eq!(stack_after("[1 2 3 4]{.*}%"), "[[1 4 9 16]]");
    assert_eq!(collected("[1 2 3 4]{.*}%"), "[[1 4 9 16]]\n");
}

#[test]
fn comma_makes_range() {
    assert_eq!(stack_after("5,"), "[[0 1 2 3 4]]");
    assert_eq!(collected("5,"), "[[0 1 2 3 4]]\n");
}

#[test]
fn power_of_two() {
    assert_eq!(stack_after("2 10?"), "[1024]");
    assert_eq!(collected("2 10?"), "[1024]\n");
}

#[test]
fn filter_multiples_of_three() {
    assert_eq!(stack_after("10,{3%!},"), "[[0 3 6 9]]");
    assert_eq!(collected("10,{3%!},"), "[[0 3 6 9]]\n");
    assert_eq!(stack_after("10,{3%!},,"), "[4]");
}

#[test]
fn sort_array() {
    assert_eq!(stack_after("[3 1 2]$"), "[[1 2 3]]");
    assert_eq!(collected("[3 1 2]$"), "[[1 2 3]]\n");
}

#[test]
fn unfold_collects_fibonacci_numbers_below_hundred() {
    assert_eq!(
        stack_after("0 1{100<}{.@+}/"),
        "[89 [1 1 2 3 5 8 13 21 34 55 89]]"
    );
    let printed = collected("0 1{100<}{.@+}/\\;0\\+");
    assert!(printed.starts_with("[[0 1 1 2 3 5 8 13 21 34 55 89"));
    assert_eq!(printed, "[[0 1 1 2 3 5 8 13 21 34 55 89]]\n");
}

#[test]
fn pops_below_a_bracket_lower_its_mark() {
    assert_eq!(stack_after("[;;;1 2 3]"), "[[1 2 3]]");
    assert_eq!(collected("[;;;1 2 3]"), "[[1 2 3]]\n");
    let mut gs = Gs::new();
    gs.run(b"[;;;1 2 3]");
    assert!(!gs.is_stable());
    assert_eq!(golfscript(String::new(), "[;;;1 2 3]".to_string()), "123\n");
}

#[test]
fn sandbox_prints_input_and_stack_unadorned() {
    assert_eq!(golfscript("ab".to_string(), "1 2".to_string()), "ab12\n");
    assert_eq!(golfscript_bytes(b"ab", b"~"), b"\n".to_vec());
}
