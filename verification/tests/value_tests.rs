use golfscript::coerce::{coerce, join, Coerced};
use golfscript::value::{Gval, Order};
use num::BigInt;

fn num(n: i64) -> Gval {
    Gval::Int(BigInt::from(n))
}

fn text(s: &str) -> Gval {
    Gval::Str(s.as_bytes().to_vec())
}

fn block(s: &str) -> Gval {
    Gval::Blk(s.as_bytes().to_vec())
}

#[test]
fn to_gs_renders_nested_arrays_without_adornment() {
    let v = Gval::Arr(vec![num(1), text("ab"), Gval::Arr(vec![num(-20)]), block("1+")]);
    assert_eq!(v.to_gs(), b"1ab-20{1+}".to_vec());
}

#[test]
fn to_gs_of_integers_is_signed_decimal() {
    assert_eq!(num(0).to_gs(), b"0".to_vec());
    assert_eq!(num(-7).to_gs(), b"-7".to_vec());
    assert_eq!(num(1234567890).to_gs(), b"1234567890".to_vec());
    let big = Gval::Int(BigInt::parse_bytes(b"-123456789012345678901234567890", 10).unwrap());
    assert_eq!(big.to_gs(), b"-123456789012345678901234567890".to_vec());
}

#[test]
fn inspect_quotes_and_escapes_strings() {
    let v = Gval::Arr(vec![num(1), text("a\"b\\"), Gval::Arr(vec![])]);
    assert_eq!(v.inspect(), b"[1 \"a\\\"b\\\\\" []]".to_vec());
    assert_eq!(block("a b").inspect(), b"{a b}".to_vec());
    assert_eq!(text("").inspect(), b"\"\"".to_vec());
}

#[test]
fn truthiness() {
    assert!(num(1).truthy());
    assert!(num(-1).truthy());
    assert!(num(0).falsey());
    assert!(text("").falsey());
    assert!(text("0").truthy());
    assert!(Gval::Arr(vec![]).falsey());
    assert!(Gval::Arr(vec![num(0)]).truthy());
    assert!(block("").falsey());
    assert!(block(" ").truthy());
    assert_eq!(Gval::bool(true).inspect(), b"1".to_vec());
    assert_eq!(Gval::bool(false).inspect(), b"0".to_vec());
}

#[test]
fn equality_within_and_across_kinds() {
    assert!(num(3).same(&num(3)));
    assert!(!num(3).same(&num(4)));
    assert!(text("ab").same(&text("ab")));
    assert!(text("ab").same(&block("ab")));
    assert!(block("ab").same(&text("ab")));
    assert!(!text("ab").same(&block("ac")));
    assert!(!num(1).same(&text("1")));
    assert!(!num(1).same(&Gval::Arr(vec![num(1)])));
    assert!(Gval::Arr(vec![num(1), text("a")]).same(&Gval::Arr(vec![num(1), block("a")])));
    assert!(!Gval::Arr(vec![num(1)]).same(&Gval::Arr(vec![num(1), num(2)])));
    assert!(!Gval::Arr(vec![]).same(&text("")));
}

#[test]
fn ordering_within_and_across_kinds() {
    assert_eq!(num(1).order(&num(2)), Order::Less);
    assert_eq!(num(2).order(&num(2)), Order::Equal);
    assert_eq!(num(3).order(&num(-2)), Order::Greater);
    assert_eq!(text("ab").order(&text("abc")), Order::Less);
    assert_eq!(text("b").order(&text("abc")), Order::Greater);
    assert_eq!(text("").order(&text("")), Order::Equal);
    assert_eq!(block("a").order(&block("b")), Order::Less);
    let a = Gval::Arr(vec![num(1), num(2)]);
    let b = Gval::Arr(vec![num(1), num(3)]);
    let c = Gval::Arr(vec![num(1)]);
    assert_eq!(a.order(&b), Order::Less);
    assert_eq!(b.order(&a), Order::Greater);
    assert_eq!(c.order(&a), Order::Less);
    assert_eq!(a.order(&a), Order::Equal);
    assert_eq!(num(99).order(&Gval::Arr(vec![])), Order::Less);
    assert_eq!(Gval::Arr(vec![num(9)]).order(&text("")), Order::Less);
    assert_eq!(text("z").order(&block("a")), Order::Less);
    assert_eq!(block("a").order(&num(5)), Order::Greater);
    assert_eq!(text("a").order(&block("a")), Order::Less);
}

#[test]
fn rank_and_factory() {
    assert_eq!(num(5).rank(), 0);
    assert_eq!(Gval::Arr(vec![]).rank(), 1);
    assert_eq!(text("").rank(), 2);
    assert_eq!(block("").rank(), 3);
    assert_eq!(num(5).factory().inspect(), b"0".to_vec());
    assert_eq!(Gval::Arr(vec![num(1)]).factory().inspect(), b"[]".to_vec());
    assert_eq!(text("abc").factory().inspect(), b"\"\"".to_vec());
    assert_eq!(block("abc").factory().inspect(), b"{}".to_vec());
    assert_eq!(Gval::empty_arr().inspect(), b"[]".to_vec());
    assert_eq!(Gval::from_len(42).inspect(), b"42".to_vec());
}

#[test]
fn clone_copies_deeply() {
    let v = Gval::Arr(vec![num(1), text("ab"), Gval::Arr(vec![block("x")])]);
    let w = v.clone();
    assert!(v.same(&w));
    assert_eq!(v.inspect(), w.inspect());
}

#[test]
fn plus_adds_integers_and_concatenates_the_rest() {
    assert_eq!(num(2).plus(num(3)).inspect(), b"5".to_vec());
    assert_eq!(num(2).plus(Gval::Arr(vec![num(3)])).inspect(), b"[2 3]".to_vec());
    assert_eq!(Gval::Arr(vec![num(3)]).plus(num(2)).inspect(), b"[3 2]".to_vec());
    assert_eq!(Gval::Arr(vec![num(1), num(2)]).plus(text("x")).inspect(), b"\"12x\"".to_vec());
    assert_eq!(text("x").plus(num(-5)).inspect(), b"\"x-5\"".to_vec());
    assert_eq!(text("x").plus(block("y")).inspect(), b"{xy}".to_vec());
    assert_eq!(block("y").plus(Gval::Arr(vec![num(1), text("a")])).inspect(), b"{y1a}".to_vec());
}

#[test]
fn coerce_promotes_to_the_higher_kind() {
    match coerce(num(1), num(2)) {
        Coerced::Ints(x, y) => {
            assert_eq!(x, BigInt::from(1));
            assert_eq!(y, BigInt::from(2));
        }
        _ => panic!("integers stay integers"),
    }
    match coerce(num(1), Gval::Arr(vec![num(2), num(3)])) {
        Coerced::Arrs(x, y) => {
            assert_eq!(Gval::Arr(x).inspect(), b"[1]".to_vec());
            assert_eq!(Gval::Arr(y).inspect(), b"[2 3]".to_vec());
        }
        _ => panic!("an integer and an array become arrays"),
    }
    match coerce(text("a"), Gval::Arr(vec![num(2), text("b")])) {
        Coerced::Strs(x, y) => {
            assert_eq!(x, b"a".to_vec());
            assert_eq!(y, b"2b".to_vec());
        }
        _ => panic!("a string and an array become strings"),
    }
    match coerce(num(7), block("b")) {
        Coerced::Blks(x, y) => {
            assert_eq!(x, b"7".to_vec());
            assert_eq!(y, b"b".to_vec());
        }
        _ => panic!("an integer and a block become blocks"),
    }
    match coerce(text("s"), block("b")) {
        Coerced::Blks(x, y) => {
            assert_eq!(x, b"s".to_vec());
            assert_eq!(y, b"b".to_vec());
        }
        _ => panic!("a string and a block become blocks"),
    }
}

#[test]
fn join_puts_the_separator_between_elements() {
    let items = vec![num(1), num(2), num(3)];
    assert_eq!(join(items.clone(), text(", ")).inspect(), b"\"1, 2, 3\"".to_vec());
    assert_eq!(join(items, Gval::Arr(vec![num(0)])).inspect(), b"[1 0 2 0 3]".to_vec());
    assert_eq!(join(vec![], text(",")).inspect(), b"\"\"".to_vec());
    assert_eq!(join(vec![num(1)], Gval::Arr(vec![num(0)])).inspect(), b"[1]".to_vec());
}

#[test]
fn items_bytes_and_flattening() {
    assert_eq!(Gval::Arr(num(5).into_items()).inspect(), b"[5]".to_vec());
    assert_eq!(Gval::Arr(text("ab").into_items()).inspect(), b"[97 98]".to_vec());
    assert_eq!(num(-12).into_bytes(), b"-12".to_vec());
    assert_eq!(block("ab").into_bytes(), b"ab".to_vec());
    let v = vec![num(97), text("bc"), Gval::Arr(vec![num(256 + 100), num(-1)]), block("e")];
    assert_eq!(golfscript::coerce::flatten_vals(&v), vec![97, 98, 99, 100, 255, 101]);
}
