use golfscript::interp::Gs;
use golfscript::session::{golfscript, golfscript_bytes, GsError, Golfscript};
use golfscript::value::Gval;

fn shown(gs: &Gs) -> String {
    String::from_utf8(Gval::Arr(gs.stack.clone()).inspect()).unwrap()
}

#[test]
fn new_evaluator_is_empty_and_stable() {
    let gs = Gs::new();
    assert_eq!(gs.stack.len(), 0);
    assert!(gs.is_stable());
    assert_eq!(gs.output(), &Vec::<u8>::new());
    assert_eq!(gs.max_loops(), u64::MAX);
    assert_eq!(gs.max_depth(), 200);
}

#[test]
fn run_keeps_state_between_calls() {
    let mut gs = Gs::new();
    gs.run(b"1 2:x");
    gs.run(b"x+");
    assert_eq!(shown(&gs), "[1 4]");
}

#[test]
fn sandbox_starts_with_the_input_on_the_stack() {
    assert_eq!(golfscript("1 2 3".to_string(), "~++".to_string()), "6\n");
    assert_eq!(golfscript("abc".to_string(), "".to_string()), "abc\n");
    assert_eq!(golfscript("abc".to_string(), "-1%".to_string()), "cba\n");
    assert_eq!(golfscript("".to_string(), "\"a\"print 1".to_string()), "a1\n");
}

#[test]
fn sandbox_caps_loops_at_two_thousand() {
    assert_eq!(golfscript("".to_string(), ";0{1+1}do".to_string()), "2000\n");
    assert_eq!(golfscript("".to_string(), ";5000,,".to_string()), "2000\n");
}

#[test]
fn sandbox_output_that_is_not_utf8_is_replaced() {
    assert_eq!(golfscript("".to_string(), "\"\\xff\"".to_string()), "\u{fffd}\n");
    assert_eq!(golfscript_bytes(b"", b"\"\\xff\""), vec![255, 10]);
    assert_eq!(golfscript("\u{e9}".to_string(), "".to_string()), "\u{e9}\n");
    assert_eq!(golfscript("\u{e9}".to_string(), ",".to_string()), "2\n");
}

#[test]
fn sandbox_final_puts_can_be_rebound() {
    assert_eq!(golfscript("".to_string(), "{;}:puts;1".to_string()), "");
}

#[test]
fn stepped_runs_like_run_where_nothing_is_wrong() {
    let mut gs = Gs::new();
    assert_eq!(gs.stepped(b"1 2+:x;x x*"), Ok(()));
    assert_eq!(shown(&gs), "[9]");
}

#[test]
fn stepped_reports_source_that_is_not_all_tokens() {
    let mut gs = Gs::new();
    assert_eq!(gs.stepped(b"1 2}"), Err(GsError::ParseIncomplete));
    assert_eq!(shown(&gs), "[]");
}

#[test]
fn stepped_reports_assignment_without_a_name() {
    let mut gs = Gs::new();
    assert_eq!(gs.stepped(b"1 2:"), Err(GsError::ParseIncomplete));
    assert_eq!(shown(&gs), "[1 2]");
}

#[test]
fn stepped_reports_assignment_on_an_empty_stack() {
    let mut gs = Gs::new();
    assert_eq!(gs.stepped(b"1;:x 5"), Err(GsError::StackUnderflow));
    assert_eq!(shown(&gs), "[]");
}

#[test]
fn front_end_state_runs_the_source_once() {
    let g = Golfscript::new("4".to_string(), "~.*".to_string());
    assert_eq!(shown(&g.gs), "[16]");
    assert_eq!(g.input, "4");
    assert_eq!(g.source, b"~.*".to_vec());
    assert_eq!(g.selected_start, 0);
    assert_eq!(g.selected_end, 0);
}

#[test]
fn entry_points_are_at_the_crate_root() {
    assert_eq!(golfscript::golfscript("2".to_string(), "~3*".to_string()), "6\n");
    let mut gs = golfscript::Gs::new();
    gs.run(b"1");
    assert_eq!(gs.stack[0], golfscript::Gval::from_len(1));
}
