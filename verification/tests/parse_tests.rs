use golfscript::parse::{parse_code, Gtoken};
use golfscript::unescape::unescape;

fn kinds(src: &[u8]) -> (Vec<u8>, Vec<String>) {
    let (rest, toks) = parse_code(src);
    let shown = toks
        .iter()
        .map(|t| match t {
            Gtoken::IntLiteral(b) => format!("int:{}", String::from_utf8_lossy(b)),
            Gtoken::SingleQuotedString(b) => format!("single:{}", String::from_utf8_lossy(b)),
            Gtoken::DoubleQuotedString(b) => format!("double:{}", String::from_utf8_lossy(b)),
            Gtoken::Symbol(b) => format!("sym:{}", String::from_utf8_lossy(b)),
            Gtoken::Block(l, b) => {
                format!("block:{}:{}", String::from_utf8_lossy(l), String::from_utf8_lossy(b))
            }
            Gtoken::Comment(b) => format!("comment:{}", String::from_utf8_lossy(b)),
        })
        .collect();
    (rest, shown)
}

#[test]
fn tokens_of_a_simple_program() {
    let (rest, toks) = kinds(b"12 -3+foo_1;");
    assert_eq!(rest, b"".to_vec());
    assert_eq!(toks, vec!["int:12", "sym: ", "int:-3", "sym:+", "sym:foo_1", "sym:;"]);
}

#[test]
fn minus_without_a_digit_is_a_symbol() {
    let (rest, toks) = kinds(b"1-a -");
    assert_eq!(rest, b"".to_vec());
    assert_eq!(toks, vec!["int:1", "sym:-", "sym:a", "sym: ", "sym:-"]);
}

#[test]
fn identifiers_take_letters_digits_and_underscores() {
    let (_, toks) = kinds(b"ab1_c 1ab");
    assert_eq!(toks, vec!["sym:ab1_c", "sym: ", "int:1", "sym:ab"]);
}

#[test]
fn strings_keep_their_escapes() {
    let (rest, toks) = kinds(b"'a\\'b'\"c\\\"d\\\\\"");
    assert_eq!(rest, b"".to_vec());
    assert_eq!(toks, vec!["single:a\\'b", "double:c\\\"d\\\\"]);
}

#[test]
fn blocks_nest_and_hold_strings_with_braces() {
    let (rest, toks) = kinds(b"{1{2}'}'}3");
    assert_eq!(rest, b"".to_vec());
    assert_eq!(toks, vec!["block:{1{2}'}'}:1{2}'}'", "int:3"]);
    let (rest, toks) = kinds(b"{}");
    assert_eq!(rest, b"".to_vec());
    assert_eq!(toks, vec!["block:{}:"]);
}

#[test]
fn comments_run_to_the_end_of_the_line() {
    let (rest, toks) = kinds(b"1#two}\n3#");
    assert_eq!(rest, b"".to_vec());
    assert_eq!(toks, vec!["int:1", "comment:#two}", "sym:\n", "int:3", "comment:#"]);
}

#[test]
fn reading_stops_where_no_token_starts() {
    let (rest, toks) = kinds(b"1 }2");
    assert_eq!(rest, b"}2".to_vec());
    assert_eq!(toks, vec!["int:1", "sym: "]);
    let (rest, toks) = kinds(b"1'abc");
    assert_eq!(rest, b"'abc".to_vec());
    assert_eq!(toks, vec!["int:1"]);
    let (rest, toks) = kinds(b"{1{2}");
    assert_eq!(rest, b"{1{2}".to_vec());
    assert_eq!(toks, Vec::<String>::new());
    let (rest, _) = kinds(b"\"abc\\");
    assert_eq!(rest, b"\"abc\\".to_vec());
    let (rest, _) = kinds(b"{'}");
    assert_eq!(rest, b"{'}".to_vec());
}

#[test]
fn lexeme_is_what_a_name_is_looked_up_by() {
    let (_, toks) = parse_code(b"12'ab'{c}x#d");
    let names: Vec<Vec<u8>> = toks.iter().map(|t| t.lexeme().clone()).collect();
    assert_eq!(
        names,
        vec![b"12".to_vec(), b"ab".to_vec(), b"{c}".to_vec(), b"x".to_vec(), b"#d".to_vec()]
    );
}

#[test]
fn empty_source_has_no_tokens() {
    let (rest, toks) = kinds(b"");
    assert_eq!(rest, b"".to_vec());
    assert_eq!(toks, Vec::<String>::new());
}

#[test]
fn unescape_between_single_quotes() {
    assert_eq!(unescape(b"a\\\\b", true), b"a\\b".to_vec());
    assert_eq!(unescape(b"a\\'b", true), b"a'b".to_vec());
    assert_eq!(unescape(b"a\\nb", true), b"a\\nb".to_vec());
    assert_eq!(unescape(b"a\\", true), b"a\\".to_vec());
    assert_eq!(unescape(b"", true), b"".to_vec());
}

#[test]
fn unescape_between_double_quotes() {
    assert_eq!(unescape(b"a\\nb", false), b"a\nb".to_vec());
    assert_eq!(unescape(b"\\t\\r", false), b"\t\r".to_vec());
    assert_eq!(unescape(b"\\\"\\\\", false), b"\"\\".to_vec());
    assert_eq!(unescape(b"\\0", false), vec![0]);
    assert_eq!(unescape(b"\\101\\60", false), b"A0".to_vec());
    assert_eq!(unescape(b"\\1012", false), b"A2".to_vec());
    assert_eq!(unescape(b"\\777", false), vec![255]);
    assert_eq!(unescape(b"\\x41\\x4a\\x4A", false), b"AJJ".to_vec());
    assert_eq!(unescape(b"\\x4", false), vec![4]);
    assert_eq!(unescape(b"\\x4g", false), vec![4, b'g']);
    assert_eq!(unescape(b"\\xg", false), b"xg".to_vec());
    assert_eq!(unescape(b"\\x", false), b"x".to_vec());
    assert_eq!(unescape(b"\\q", false), b"q".to_vec());
    assert_eq!(unescape(b"a\\", false), b"a\\".to_vec());
    assert_eq!(unescape(b"\\8", false), b"8".to_vec());
}
