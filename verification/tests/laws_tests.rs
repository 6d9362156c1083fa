use golfscript::interp::Gs;
use golfscript::value::Gval;

fn after(src: &str) -> String {
    let mut gs = Gs::new();
    gs.run(src.as_bytes());
    String::from_utf8(Gval::Arr(gs.stack.clone()).inspect()).unwrap()
}

#[test]
fn comma_on_a_sequence_is_its_length() {
    assert_eq!(after("[7 8 9 [1 2]],"), "[4]");
    assert_eq!(after("\"four\","), "[4]");
}

#[test]
fn comma_on_an_integer_is_the_range_below_it() {
    assert_eq!(after("7,"), "[[0 1 2 3 4 5 6]]");
    assert_eq!(after("1,"), "[[0]]");
}

#[test]
fn dup_then_drop_changes_nothing() {
    assert_eq!(after("1 [2 \"x\"] .;"), after("1 [2 \"x\"]"));
    assert_eq!(after("1 [2 \"x\"] ."), "[1 [2 \"x\"] [2 \"x\"]]");
}

#[test]
fn swap_twice_changes_nothing() {
    assert_eq!(after("1 \"a\" [2] \\\\"), after("1 \"a\" [2]"));
}

#[test]
fn inspect_reads_back_as_the_same_value() {
    for src in ["-12", "0", "\"a\\\"b\\\\c\nd\"", "[1 [2 \"x y\" []] -3 \"]\"]", "[]", "\"\""] {
        let mut gs = Gs::new();
        gs.run(src.as_bytes());
        let v = gs.stack[0].clone();
        let mut again = Gs::new();
        again.run(&v.inspect());
        assert_eq!(again.stack.len(), 1);
        assert!(again.stack[0].same(&v));
        assert_eq!(again.stack[0].inspect(), v.inspect());
    }
}

#[test]
fn to_gs_distributes_over_concatenation() {
    let a = Gval::Arr(vec![Gval::from_len(1), Gval::Str(b"x".to_vec())]);
    let b = Gval::Arr(vec![Gval::Blk(b"y".to_vec()), Gval::from_len(23)]);
    let mut both = a.to_gs();
    both.extend(b.to_gs());
    assert_eq!(a.clone().plus(b.clone()).to_gs(), both);
    assert_eq!(both, b"1x{y}23".to_vec());
    let s = Gval::Str(b"ab".to_vec()).plus(Gval::Str(b"cd".to_vec()));
    assert_eq!(s.to_gs(), b"abcd".to_vec());
}

#[test]
fn base_then_base_gives_the_magnitude() {
    assert_eq!(after("1000 7base 7base"), "[1000]");
    assert_eq!(after("-1000 7base 7base"), "[1000]");
    assert_eq!(after("123456789012345678901234567890 2base 2base"), "[123456789012345678901234567890]");
    assert_eq!(after("0 5base 5base"), "[0]");
}

#[test]
fn split_then_join_gives_the_sequence_back() {
    assert_eq!(after("\"a,b,,c,\"\",\"/\",\"*"), "[\"a,b,,c,\"]");
    assert_eq!(after("\",,\"\",\"/\",\"*"), "[\",,\"]");
    assert_eq!(after("\"abc\"\",\"/\",\"*"), "[\"abc\"]");
    assert_eq!(after("[1 0 2 0 0 3][0]/[0]*"), "[[1 0 2 0 0 3]]");
    assert_eq!(after("\"a,b,c\"\",\"%\",\"*"), "[\"a,b,c\"]");
    assert_eq!(after("\"a,b,,c,\"\",\"%\",\"*"), "[\"a,b,c\"]");
}

#[test]
fn bitwise_operators_commute_on_integers() {
    assert_eq!(after("12 -7&"), after("-7 12&"));
    assert_eq!(after("12 -7|"), after("-7 12|"));
    assert_eq!(after("12 -7^"), after("-7 12^"));
    assert_eq!(after("12 -7&"), "[8]");
    assert_eq!(after("12 -7|"), "[-3]");
    assert_eq!(after("12 -7^"), "[-11]");
}

#[test]
fn set_operators_commute_up_to_order() {
    assert_eq!(after("[1 2 3][3 4]|$"), after("[3 4][1 2 3]|$"));
    assert_eq!(after("[1 2 3][3 2]&$"), after("[3 2][1 2 3]&$"));
    assert_eq!(after("[1 2 3][3 4]^$"), after("[3 4][1 2 3]^$"));
    assert_eq!(after("[1 2][2 1]&"), "[[1 2]]");
    assert_eq!(after("[2 1][1 2]&"), "[[2 1]]");
}

#[test]
fn operators_on_equal_operands() {
    assert_eq!(after("-37 -37^"), "[0]");
    assert_eq!(after("-37 -37&"), "[-37]");
    assert_eq!(after("-37 -37|"), "[-37]");
    assert_eq!(after("[1 1 2].^"), "[[]]");
    assert_eq!(after("[1 1 2].&"), "[[1 1 2]]");
    assert_eq!(after("[1 1 2].|"), "[[1 1 2]]");
    assert_eq!(after("\"aab\".^"), "[\"\"]");
    assert_eq!(after("\"aab\".&"), "[\"aab\"]");
    assert_eq!(after("\"aab\".|"), "[\"aab\"]");
}
