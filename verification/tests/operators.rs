use golfscript::interp::Gs;
use golfscript::value::Gval;

fn eval(src: &str) -> String {
    let mut gs = Gs::new();
    gs.set_max_loops(2000);
    gs.run(src.as_bytes());
    let all = Gval::Arr(gs.stack.clone());
    String::from_utf8(all.inspect()).unwrap()
}

fn printed(src: &str) -> String {
    let mut gs = Gs::new();
    gs.set_max_loops(2000);
    gs.run(src.as_bytes());
    String::from_utf8(gs.output().clone()).unwrap()
}

#[test]
fn integer_arithmetic() {
    assert_eq!(eval("1 2+"), "[3]");
    assert_eq!(eval("1 2-"), "[-1]");
    assert_eq!(eval("2 4*"), "[8]");
    assert_eq!(eval("7 2/"), "[3]");
    assert_eq!(eval("7 2%"), "[1]");
    assert_eq!(eval("100000000000000000000 100000000000000000000*"), "[10000000000000000000000000000000000000000]");
}

#[test]
fn division_rounds_towards_negative_infinity() {
    assert_eq!(eval("-7 2/"), "[-4]");
    assert_eq!(eval("-7 2%"), "[1]");
    assert_eq!(eval("7 -2/"), "[-4]");
    assert_eq!(eval("7 -2%"), "[-1]");
    assert_eq!(eval("-7 -2/"), "[3]");
    assert_eq!(eval("-7 -2%"), "[-1]");
}

#[test]
fn division_and_modulo_by_zero_give_zero() {
    assert_eq!(eval("7 0/"), "[0]");
    assert_eq!(eval("7 0%"), "[0]");
}

#[test]
fn negative_literal_takes_its_sign_along() {
    assert_eq!(eval("5 3-1"), "[5 3 -1]");
    assert_eq!(eval("5 3- 1"), "[2 1]");
}

#[test]
fn bitwise_operators_on_integers() {
    assert_eq!(eval("5 3|"), "[7]");
    assert_eq!(eval("5 3&"), "[1]");
    assert_eq!(eval("5 3^"), "[6]");
    assert_eq!(eval("-1 5&"), "[5]");
    assert_eq!(eval("-4 5|"), "[-3]");
    assert_eq!(eval("-4 5^"), "[-7]");
    assert_eq!(eval("5~"), "[-6]");
    assert_eq!(eval("-1~"), "[0]");
}

#[test]
fn set_operators_on_arrays_and_strings() {
    assert_eq!(eval("[1 2 3 2][2]-"), "[[1 3]]");
    assert_eq!(eval("[1 2][2 3 3]|"), "[[1 2 3 3]]");
    assert_eq!(eval("[1 2 2 3][2 4]&"), "[[2 2]]");
    assert_eq!(eval("[1 2 3][2 3 4]^"), "[[1 4]]");
    assert_eq!(eval("\"hello\"\"l\"-"), "[\"heo\"]");
    assert_eq!(eval("\"abc\"\"cd\"|"), "[\"abcd\"]");
    assert_eq!(eval("\"abc\"\"cab\"&"), "[\"abc\"]");
    assert_eq!(eval("\"abc\"\"cd\"^"), "[\"abd\"]");
}

#[test]
fn set_operators_coerce_to_the_higher_kind() {
    assert_eq!(eval("[1 2 3] 2-"), "[[1 3]]");
    assert_eq!(eval("1 [1 2]|"), "[[1 2]]");
    assert_eq!(eval("\"a1b\" 1-"), "[\"ab\"]");
}

#[test]
fn plus_concatenates_after_coercion() {
    assert_eq!(eval("[1 2][3]+"), "[[1 2 3]]");
    assert_eq!(eval("1[2]+"), "[[1 2]]");
    assert_eq!(eval("[1]2+"), "[[1 2]]");
    assert_eq!(eval("\"ab\"\"cd\"+"), "[\"abcd\"]");
    assert_eq!(eval("\"ab\"12+"), "[\"ab12\"]");
    assert_eq!(eval("[1 2]\"ab\"+"), "[\"12ab\"]");
    assert_eq!(eval("{a}\"b\"+"), "[{ab}]");
    assert_eq!(eval("{a}1+"), "[{a1}]");
}

#[test]
fn asterisk_joins_repeats_folds_and_iterates() {
    assert_eq!(eval("[1 2 3][0]*"), "[[1 0 2 0 3]]");
    assert_eq!(eval("[1 2 3]\",\"*"), "[\"1,2,3\"]");
    assert_eq!(eval("\",\"[1 2 3]*"), "[\"1,2,3\"]");
    assert_eq!(eval("\"abc\"\"-\"*"), "[\"a-b-c\"]");
    assert_eq!(eval("[[1 2][3]][9]*"), "[[1 2 9 3]]");
    assert_eq!(eval("[][0]*"), "[[]]");
    assert_eq!(eval("[1 2]3*"), "[[1 2 1 2 1 2]]");
    assert_eq!(eval("3[1 2]*"), "[[1 2 1 2 1 2]]");
    assert_eq!(eval("\"ab\"2*"), "[\"abab\"]");
    assert_eq!(eval("[1 2]0*"), "[[]]");
    assert_eq!(eval("[1 2]-1*"), "[[]]");
    assert_eq!(eval("[1 2 3 4]{+}*"), "[10]");
    assert_eq!(eval("{+}[1 2 3 4]*"), "[10]");
    assert_eq!(eval("\"abc\"{+}*"), "[294]");
    assert_eq!(eval("1 5{2*}*"), "[32]");
    assert_eq!(eval("1 {2*}5*"), "[32]");
    assert_eq!(eval("1 0{2*}*"), "[1]");
}

#[test]
fn slash_splits_chunks_and_iterates() {
    assert_eq!(eval("[1 2 3 2 4][2]/"), "[[[1] [3] [4]]]");
    assert_eq!(eval("\"a,b,,c\"\",\"/"), "[[\"a\" \"b\" \"\" \"c\"]]");
    assert_eq!(eval("\",a,\"\",\"/"), "[[\"\" \"a\" \"\"]]");
    assert_eq!(eval("\"aaa\"\"aa\"/"), "[[\"\" \"a\"]]");
    assert_eq!(eval("[1 2 3]\"\"/"), "[[1 2 3]]");
    assert_eq!(eval("\"abc\"\"\"/"), "[\"abc\"]");
    assert_eq!(eval("[1 2 3 4 5]2/"), "[[[1 2] [3 4] [5]]]");
    assert_eq!(eval("2[1 2 3 4 5]/"), "[[[1 2] [3 4] [5]]]");
    assert_eq!(eval("[1 2 3 4 5]-2/"), "[[[5 4] [3 2] [1]]]");
    assert_eq!(eval("\"abcde\"2/"), "[[\"ab\" \"cd\" \"e\"]]");
    assert_eq!(eval("[1 2 3]0/"), "[[1 2 3]]");
    assert_eq!(eval("[1 2 3]9/"), "[[[1 2 3]]]");
    assert_eq!(eval("[]3/"), "[[]]");
    assert_eq!(eval("[1 2 3]{1+}/"), "[2 3 4]");
    assert_eq!(eval("\"ab\"{1+}/"), "[98 99]");
    assert_eq!(eval("5{1+}/"), "[6]");
    assert_eq!(eval("[97 1 97]\"a\"/"), "[[[] [1] []]]");
}

#[test]
fn percent_cleans_maps_and_strides() {
    assert_eq!(eval("\"a,b,,c\"\",\"%"), "[[\"a\" \"b\" \"c\"]]");
    assert_eq!(eval("[2 1 2 2 3 2][2]%"), "[[[1] [3]]]");
    assert_eq!(eval("[1 2 3]{.}%"), "[[1 1 2 2 3 3]]");
    assert_eq!(eval("[1 2 3]{;}%"), "[[]]");
    assert_eq!(eval("\"abc\"{1+}%"), "[\"bcd\"]");
    assert_eq!(eval("[1 2 3 4 5]2%"), "[[1 3 5]]");
    assert_eq!(eval("[1 2 3 4 5]-2%"), "[[5 3 1]]");
    assert_eq!(eval("[1 2 3 4 5]-1%"), "[[5 4 3 2 1]]");
    assert_eq!(eval("\"abcdef\"3%"), "[\"ad\"]");
    assert_eq!(eval("[1 2 3]0%"), "[[1 2 3]]");
    assert_eq!(eval("5{1+}%"), "[[6]]");
    assert_eq!(eval("{a}{.}%"), "[[{a} {a}]]");
}

#[test]
fn map_takes_only_what_lies_above_the_old_level() {
    assert_eq!(eval("7 8[1 2]{;;}%"), "[[]]");
    assert_eq!(eval("7 8[1 2]{;;9 9 9}%"), "[7 9 [9 9 9 9]]");
}

#[test]
fn comparisons_of_values() {
    assert_eq!(eval("1 2<"), "[1]");
    assert_eq!(eval("2 1<"), "[0]");
    assert_eq!(eval("2 2="), "[1]");
    assert_eq!(eval("3 2>"), "[1]");
    assert_eq!(eval("\"abc\"\"abd\"<"), "[1]");
    assert_eq!(eval("\"ab\"\"abc\"<"), "[1]");
    assert_eq!(eval("\"b\"\"abc\">"), "[1]");
    assert_eq!(eval("[1 2][1 3]<"), "[1]");
    assert_eq!(eval("[1 2][1 2]="), "[1]");
    assert_eq!(eval("[1]\"a\"<"), "[1]");
    assert_eq!(eval("\"a\"{a}<"), "[1]");
    assert_eq!(eval("\"a\"{a}="), "[0]");
    assert_eq!(eval("{a}{a}="), "[1]");
}

#[test]
fn index_and_slice_with_an_integer() {
    assert_eq!(eval("[10 20 30]1="), "[20]");
    assert_eq!(eval("1[10 20 30]="), "[20]");
    assert_eq!(eval("[10 20 30]-1="), "[30]");
    assert_eq!(eval("[10 20 30]4="), "[20]");
    assert_eq!(eval("[]0="), "[]");
    assert_eq!(eval("\"abc\"0="), "[97]");
    assert_eq!(eval("{abc}-1="), "[99]");
    assert_eq!(eval("[1 2 3 4]2<"), "[[1 2]]");
    assert_eq!(eval("[1 2 3 4]2>"), "[[3 4]]");
    assert_eq!(eval("[1 2 3 4]-1<"), "[[1 2 3]]");
    assert_eq!(eval("[1 2 3 4]-1>"), "[[4]]");
    assert_eq!(eval("[1 2 3 4]9<"), "[[1 2 3 4]]");
    assert_eq!(eval("[1 2 3 4]9>"), "[[]]");
    assert_eq!(eval("[1 2 3 4]-9<"), "[[]]");
    assert_eq!(eval("\"hello\"2<"), "[\"he\"]");
    assert_eq!(eval("{hello}2>"), "[{llo}]");
}

#[test]
fn comma_range_length_and_filter() {
    assert_eq!(eval("0,"), "[[]]");
    assert_eq!(eval("-3,"), "[[]]");
    assert_eq!(eval("3,"), "[[0 1 2]]");
    assert_eq!(eval("[1 2 3],"), "[3]");
    assert_eq!(eval("\"hello\","), "[5]");
    assert_eq!(eval("[],"), "[0]");
    assert_eq!(eval("[1 2 3 4]{2%},"), "[[1 3]]");
    assert_eq!(eval("\"a1b2\"{58<},"), "[\"12\"]");
    assert_eq!(eval("5{},"), "[[5]]");
    assert_eq!(eval("0{},"), "[[]]");
}

#[test]
fn range_is_cut_off_at_the_loop_cap() {
    let mut gs = Gs::new();
    gs.set_max_loops(3);
    gs.run(b"10,");
    assert_eq!(String::from_utf8(Gval::Arr(gs.stack.clone()).inspect()).unwrap(), "[[0 1 2]]");
}

#[test]
fn question_power_index_and_find() {
    assert_eq!(eval("2 10?"), "[1024]");
    assert_eq!(eval("-2 3?"), "[-8]");
    assert_eq!(eval("0 0?"), "[1]");
    assert_eq!(eval("2 -1?"), "[0]");
    assert_eq!(eval("2 4294967296?"), "[0]");
    assert_eq!(eval("[5 6 7]6?"), "[1]");
    assert_eq!(eval("6[5 6 7]?"), "[1]");
    assert_eq!(eval("[5 6 7]9?"), "[-1]");
    assert_eq!(eval("[1 \"a\" 2]\"a\"?"), "[1]");
    assert_eq!(eval("[1 [2] 3][2]?"), "[1]");
    assert_eq!(eval("\"hello\"108?"), "[2]");
    assert_eq!(eval("\"hello\"300?"), "[-1]");
    assert_eq!(eval("\"hello\"\"ll\"?"), "[2]");
    assert_eq!(eval("\"hello\"\"z\"?"), "[-1]");
    assert_eq!(eval("\"hello\"\"\"?"), "[0]");
    assert_eq!(eval("[1 2 3 4]{2>}?"), "[3]");
    assert_eq!(eval("[1 2]{5>}?"), "[]");
    assert_eq!(eval("\"abc\"{98=}?"), "[98]");
}

#[test]
fn power_that_is_too_large_gives_the_base() {
    assert_eq!(
        eval("10 99?"),
        "[1000000000000000000000000000000000000000000000000000000000000000000000000000000000000000000000000000]"
    );
    assert_eq!(eval("10 100?"), "[10]");
    assert_eq!(eval("-10 100?"), "[-10]");
    assert_eq!(eval("2 333?"), "[2]");
    assert_eq!(eval("1 4000000000?"), "[1]");
    assert_eq!(eval("-1 4000000001?"), "[-1]");
    assert_eq!(eval("0 4000000000?"), "[0]");
}

#[test]
fn parentheses_step_and_uncons() {
    assert_eq!(eval("5("), "[4]");
    assert_eq!(eval("5)"), "[6]");
    assert_eq!(eval("[1 2 3]("), "[[2 3] 1]");
    assert_eq!(eval("[1 2 3])"), "[[1 2] 3]");
    assert_eq!(eval("\"abc\"("), "[\"bc\" 97]");
    assert_eq!(eval("\"abc\")"), "[\"ab\" 99]");
    assert_eq!(eval("{abc}("), "[{bc} 97]");
    assert_eq!(eval("[]("), "[]");
    assert_eq!(eval("\"\")"), "[]");
    assert_eq!(eval("("), "[-1]");
    assert_eq!(eval(")"), "[1]");
}

#[test]
fn stack_symbols() {
    assert_eq!(eval("1 2 3@"), "[2 3 1]");
    assert_eq!(eval("1 2\\"), "[2 1]");
    assert_eq!(eval("1 2;"), "[1]");
    assert_eq!(eval("1 2."), "[1 2 2]");
    assert_eq!(eval("1 2 3 0$"), "[1 2 3 3]");
    assert_eq!(eval("1 2 3 2$"), "[1 2 3 1]");
    assert_eq!(eval("1 2 3 5$"), "[1 2 3]");
    assert_eq!(eval("1 2 3 -2$"), "[1 2 3 1]");
    assert_eq!(eval("1 2 3 -4$"), "[1 2 3 3]");
    assert_eq!(eval("1 2 3 -1$"), "[1 2 3]");
}

#[test]
fn symbols_on_too_short_a_stack() {
    assert_eq!(eval("."), "[[] []]");
    assert_eq!(eval("@"), "[[] [] []]");
    assert_eq!(eval("1@"), "[[] 1 []]");
    assert_eq!(eval("1 2@"), "[1 2 []]");
    assert_eq!(eval("1\\"), "[1]");
    assert_eq!(eval("\\"), "[]");
    assert_eq!(eval("+"), "[[]]");
    assert_eq!(eval("1+"), "[[1]]");
    assert_eq!(eval("!"), "[1]");
    assert_eq!(eval("`"), "[\"\"]");
    assert_eq!(eval("~"), "[[]]");
    assert_eq!(eval("$"), "[[]]");
    assert_eq!(eval("{}$"), "[[]]");
    assert_eq!(eval(","), "[[]]");
    assert_eq!(eval("abs"), "[0]");
    assert_eq!(eval("and"), "[0]");
    assert_eq!(eval("rand"), "[0]");
}

#[test]
fn a_pop_from_an_empty_stack_makes_the_state_unstable() {
    let mut gs = Gs::new();
    gs.run(b"1;");
    assert!(gs.is_stable());
    gs.run(b";");
    assert!(!gs.is_stable());
    let mut other = Gs::new();
    other.set_unstable();
    assert!(!other.is_stable());
}

#[test]
fn tilde_complements_spreads_and_runs() {
    assert_eq!(eval("[1 2 3]~"), "[1 2 3]");
    assert_eq!(eval("\"1 2+\"~"), "[3]");
    assert_eq!(eval("{1 2+}~"), "[3]");
    assert_eq!(eval("0~"), "[-1]");
}

#[test]
fn backtick_and_bang() {
    assert_eq!(eval("[1 \"a\"]`"), "[\"[1 \\\"a\\\"]\"]");
    assert_eq!(eval("0!"), "[1]");
    assert_eq!(eval("5!"), "[0]");
    assert_eq!(eval("\"\"!"), "[1]");
    assert_eq!(eval("[]!"), "[1]");
    assert_eq!(eval("{}!"), "[1]");
    assert_eq!(eval("[0]!"), "[0]");
}

#[test]
fn dollar_sorts() {
    assert_eq!(eval("\"hello\"$"), "[\"ehllo\"]");
    assert_eq!(eval("[3 [1] \"a\" 1 {b}]$"), "[[1 3 [1] \"a\" {b}]]");
    assert_eq!(eval("[3 1 2]{-1*}$"), "[[3 2 1]]");
    assert_eq!(eval("{-1*}[3 1 2]\\$"), "[[3 2 1]]");
    assert_eq!(eval("\"bca\"{-1*}$"), "[\"cba\"]");
    assert_eq!(eval("5{}$"), "[5]");
}

#[test]
fn sorting_by_key_is_stable() {
    assert_eq!(eval("[21 10 22 11 20]{10/}$"), "[[10 11 21 22 20]]");
}

#[test]
fn brackets_collect_what_was_pushed_since() {
    assert_eq!(eval("1[2 3]"), "[1 [2 3]]");
    assert_eq!(eval("1 2]"), "[[1 2]]");
    assert_eq!(eval("[[1][2 [3]]]"), "[[[1] [2 [3]]]]");
    assert_eq!(eval("1 2[\\]"), "[[2 1]]");
    assert_eq!(eval("1 2 3[;;]"), "[1 []]");
    assert_eq!(eval("1 2[[;;;4]5]"), "[[[4] 5]]");
}

#[test]
fn assignment_binds_the_next_token() {
    assert_eq!(eval("5:a;a a+"), "[10]");
    assert_eq!(eval("{1+}:inc;5 inc inc"), "[7]");
    assert_eq!(eval("3:+;1 2+"), "[1 2 3]");
    assert_eq!(eval("7:\"x\";\"x\""), "[7]");
    assert_eq!(eval("7:5;5"), "[7]");
    assert_eq!(eval("1: ;"), "[]");
    assert_eq!(eval(":a"), "[]");
    assert_eq!(eval("1:"), "[1]");
    assert_eq!(eval("5:a 6:a;a"), "[5 6]");
}

#[test]
fn names_without_meaning_do_nothing() {
    assert_eq!(eval("1 foo 2 bar_9"), "[1 2]");
    assert_eq!(eval("1 #comment 5\n2"), "[1 2]");
}

#[test]
fn source_that_is_not_all_tokens_is_not_run() {
    assert_eq!(eval("1 2}3"), "[]");
    assert_eq!(eval("1 \"abc"), "[]");
    assert_eq!(eval("1 {2"), "[]");
    assert_eq!(eval("1 \"2}\"~"), "[1]");
}

#[test]
fn newline_and_string_literals() {
    assert_eq!(eval("n"), "[\"\n\"]");
    assert_eq!(eval("'a\\'b\\\\c\\n'"), "[\"a'b\\\\c\\\\n\"]");
    assert_eq!(eval("\"a\\nb\\t\\\"\\\\\\x41\\101\\0\""), "[\"a\nb\t\\\"\\\\AA\0\"]");
    assert_eq!(eval("\"\\q\\x4\\xg\\7\\18\""), "[\"q\u{4}xg\u{7}\u{1}8\"]");
}

#[test]
fn printing() {
    assert_eq!(printed("[1 \"a\"]print"), "1a");
    assert_eq!(printed("[1 \"a\"]puts"), "1a\n");
    assert_eq!(printed("[1 \"a\"]p"), "[1 \"a\"]\n");
    assert_eq!(printed("{x}puts 3p"), "{x}\n3\n");
    assert_eq!(printed("print"), "");
    assert_eq!(printed("puts p"), "\n\n");
    let mut gs = Gs::new();
    gs.print(b"ab");
    gs.print(b"c");
    assert_eq!(gs.output(), &b"abc".to_vec());
}

#[test]
fn conditionals() {
    assert_eq!(eval("1 2 3if"), "[2]");
    assert_eq!(eval("0 2 3if"), "[3]");
    assert_eq!(eval("1{5 6}{7}if"), "[5 6]");
    assert_eq!(eval("\"\"{5}{7}if"), "[7]");
    assert_eq!(eval("if"), "[0]");
    assert_eq!(eval("1 2and"), "[2]");
    assert_eq!(eval("0 2and"), "[0]");
    assert_eq!(eval("1{9}and"), "[9]");
    assert_eq!(eval("1 2or"), "[1]");
    assert_eq!(eval("0 2or"), "[2]");
    assert_eq!(eval("0{9}or"), "[9]");
    assert_eq!(eval("1 0xor"), "[1]");
    assert_eq!(eval("0 2xor"), "[2]");
    assert_eq!(eval("1 2xor"), "[0]");
    assert_eq!(eval("0 0xor"), "[0]");
    assert_eq!(eval("{3}0xor"), "[3]");
}

#[test]
fn loops() {
    assert_eq!(eval("5{1-..}do"), "[4 3 2 1 0 0]");
    assert_eq!(eval("5{.}{1-.}while"), "[4 3 2 1 0 0]");
    assert_eq!(eval("5{.!}{1-.}until"), "[4 3 2 1 0 0]");
    assert_eq!(eval("0{.5<}{1+}while"), "[5]");
    assert_eq!(eval("0{.5=}{1+}until"), "[5]");
    assert_eq!(eval("3{1-.}do"), "[0]");
    assert_eq!(eval("1{0}do"), "[1]");
}

#[test]
fn loops_are_cut_off_at_the_loop_cap() {
    let mut gs = Gs::new();
    gs.set_max_loops(4);
    gs.run(b"0{1+1}do");
    assert_eq!(String::from_utf8(Gval::Arr(gs.stack.clone()).inspect()).unwrap(), "[4]");
    let mut gs = Gs::new();
    gs.set_max_loops(4);
    gs.run(b"0{1}{1+}while");
    assert_eq!(String::from_utf8(Gval::Arr(gs.stack.clone()).inspect()).unwrap(), "[4]");
    let mut gs = Gs::new();
    gs.set_max_loops(4);
    gs.run(b"0 9{1+}*");
    assert_eq!(String::from_utf8(Gval::Arr(gs.stack.clone()).inspect()).unwrap(), "[4]");
    let mut gs = Gs::new();
    gs.set_max_loops(4);
    gs.run(b"1{}{2*}/");
    assert_eq!(String::from_utf8(Gval::Arr(gs.stack.clone()).inspect()).unwrap(), "[[1 2 4 8]]");
    assert_eq!(gs.max_loops(), 4);
}

#[test]
fn unfold_collects_until_the_condition_fails() {
    assert_eq!(eval("1{50<}{2*}/"), "[[1 2 4 8 16 32]]");
    assert_eq!(eval("9{5<}{2*}/"), "[[]]");
}

#[test]
fn abs_zip_base() {
    assert_eq!(eval("-5abs"), "[5]");
    assert_eq!(eval("5abs"), "[5]");
    assert_eq!(eval("\"a\"abs"), "[\"a\"]");
    assert_eq!(eval("[[1 2 3][4 5 6]]zip"), "[[[1 4] [2 5] [3 6]]]");
    assert_eq!(eval("[[1 2 3][4]]zip"), "[[[1 4] [2] [3]]]");
    assert_eq!(eval("[\"abc\"\"de\"]zip"), "[[\"ad\" \"be\" \"c\"]]");
    assert_eq!(eval("[]zip"), "[[]]");
    assert_eq!(eval("[1 [2 3]]zip"), "[[[1 2] [3]]]");
    assert_eq!(eval("5zip"), "[5]");
    assert_eq!(eval("6 2base"), "[[1 1 0]]");
    assert_eq!(eval("-6 2base"), "[[1 1 0]]");
    assert_eq!(eval("255 16base"), "[[15 15]]");
    assert_eq!(eval("0 2base"), "[[]]");
    assert_eq!(eval("[1 1 0]2base"), "[6]");
    assert_eq!(eval("[1 [9] 0]2base"), "[4]");
    assert_eq!(eval("\"ab\"256base"), "[24930]");
    assert_eq!(eval("5 0base"), "[[0]]");
    assert_eq!(eval("2base"), "[0]");
}

#[test]
fn digits_are_cut_off_at_the_loop_cap() {
    let mut gs = Gs::new();
    gs.set_max_loops(2);
    gs.run(b"6 2base");
    assert_eq!(String::from_utf8(Gval::Arr(gs.stack.clone()).inspect()).unwrap(), "[[1 0]]");
}

#[test]
fn rand_follows_the_generator() {
    assert_eq!(eval("100rand"), "[48]");
    assert_eq!(eval("100rand 100rand 100rand"), "[48 35 30]");
    assert_eq!(eval("6rand;6rand"), "[3]");
    assert_eq!(eval("0rand"), "[0]");
    assert_eq!(eval("-5rand"), "[0]");
    assert_eq!(eval("\"a\"rand"), "[0]");
    assert_eq!(eval("1000000000000000000000000000000rand"), "[205497925614448]");
}

#[test]
fn a_bound_variable_overrides_a_builtin() {
    assert_eq!(eval("{2*}:+;3 4+"), "[3 8]");
    assert_eq!(eval("\"x\":n n"), "[\"x\" \"x\"]");
}

#[test]
fn blocks_run_at_most_as_deep_as_allowed() {
    let mut gs = Gs::new();
    gs.set_max_depth(3);
    assert_eq!(gs.max_depth(), 3);
    gs.run(b"{1 f}:f;f");
    assert_eq!(String::from_utf8(Gval::Arr(gs.stack.clone()).inspect()).unwrap(), "[1 1 1]");
    let mut gs = Gs::new();
    gs.set_max_depth(0);
    gs.run(b"1{2}~3");
    assert_eq!(String::from_utf8(Gval::Arr(gs.stack.clone()).inspect()).unwrap(), "[1 3]");
}

#[test]
fn stack_accessors() {
    let mut gs = Gs::new();
    assert_eq!(gs.depth_of_stack(), 0);
    assert!(gs.top().is_none());
    gs.push(Gval::from_len(7));
    gs.push(Gval::bool(true));
    assert_eq!(gs.depth_of_stack(), 2);
    assert_eq!(gs.top().unwrap().inspect(), b"1".to_vec());
    assert_eq!(gs.pop().unwrap().inspect(), b"1".to_vec());
    assert_eq!(gs.pop_or_empty().inspect(), b"7".to_vec());
    assert_eq!(gs.pop_or_empty().inspect(), b"[]".to_vec());
    assert!(gs.pop().is_none());
    gs.push(Gval::from_len(1));
    gs.push(Gval::from_len(2));
    gs.wrap_stack();
    assert_eq!(gs.stack.len(), 1);
    assert_eq!(gs.stack[0].inspect(), b"[1 2]".to_vec());
}
