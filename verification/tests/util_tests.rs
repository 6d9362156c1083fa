use golfscript::sort::{sort_by_key, sort_vals};
use golfscript::util::{
    chunk, contains_item, every_nth, index, position, repeat, set_and, set_or, set_subtract,
    set_xor, slice, split, string_index,
};
use golfscript::value::{Gval, Order};
use num::BigInt;

fn n(x: i64) -> BigInt {
    BigInt::from(x)
}

fn ints(xs: &[i64]) -> Vec<Gval> {
    xs.iter().map(|x| Gval::Int(BigInt::from(*x))).collect()
}

fn show(v: Vec<Gval>) -> String {
    String::from_utf8(Gval::Arr(v).inspect()).unwrap()
}

#[test]
fn set_subtract_keeps_order_and_drops_all_equal() {
    assert_eq!(set_subtract(b"banana".to_vec(), b"an".to_vec()), b"b".to_vec());
    assert_eq!(set_subtract(b"banana".to_vec(), b"".to_vec()), b"banana".to_vec());
    assert_eq!(show(set_subtract(ints(&[1, 2, 3, 2, 1]), ints(&[2]))), "[1 3 1]");
}

#[test]
fn set_or_appends_what_is_new() {
    assert_eq!(set_or(b"aab".to_vec(), b"bcc".to_vec()), b"aabcc".to_vec());
    assert_eq!(show(set_or(ints(&[1, 2]), ints(&[2, 3]))), "[1 2 3]");
}

#[test]
fn set_and_keeps_what_is_shared() {
    assert_eq!(set_and(b"aabc".to_vec(), b"ca".to_vec()), b"aac".to_vec());
    assert_eq!(show(set_and(ints(&[1, 2, 3]), ints(&[3, 1]))), "[1 3]");
}

#[test]
fn set_xor_is_union_without_intersection() {
    assert_eq!(set_xor(b"abc".to_vec(), b"bcd".to_vec()), b"ad".to_vec());
    assert_eq!(show(set_xor(ints(&[1, 2]), ints(&[2, 3]))), "[1 3]");
}

#[test]
fn strings_and_blocks_are_equal_elements() {
    let a = vec![Gval::Str(b"x".to_vec()), Gval::Int(n(1))];
    let b = vec![Gval::Blk(b"x".to_vec())];
    assert!(contains_item(&a, &b[0]));
    assert_eq!(show(set_subtract(a, b)), "[1]");
}

#[test]
fn repeat_copies() {
    assert_eq!(repeat(b"ab".to_vec(), n(3)), b"ababab".to_vec());
    assert_eq!(repeat(b"ab".to_vec(), n(0)), b"".to_vec());
    assert_eq!(repeat(b"ab".to_vec(), n(-2)), b"".to_vec());
    assert_eq!(repeat(b"".to_vec(), n(5)), b"".to_vec());
}

#[test]
fn chunk_cuts_into_pieces() {
    assert_eq!(
        chunk(&b"abcdefg".to_vec(), n(3)),
        vec![b"abc".to_vec(), b"def".to_vec(), b"g".to_vec()]
    );
    assert_eq!(
        chunk(&b"abcdefg".to_vec(), n(-3)),
        vec![b"gfe".to_vec(), b"dcb".to_vec(), b"a".to_vec()]
    );
    assert_eq!(chunk(&b"abc".to_vec(), n(0)), vec![b"abc".to_vec()]);
    assert_eq!(chunk(&b"abc".to_vec(), n(3)), vec![b"abc".to_vec()]);
    assert_eq!(chunk(&b"".to_vec(), n(2)), Vec::<Vec<u8>>::new());
    let huge = BigInt::parse_bytes(b"100000000000000000000000000", 10).unwrap();
    assert_eq!(chunk(&b"abc".to_vec(), huge), vec![b"abc".to_vec()]);
}

#[test]
fn every_nth_strides() {
    assert_eq!(every_nth(b"abcdefg".to_vec(), n(3)), b"adg".to_vec());
    assert_eq!(every_nth(b"abcdefg".to_vec(), n(-3)), b"gda".to_vec());
    assert_eq!(every_nth(b"abcdefg".to_vec(), n(1)), b"abcdefg".to_vec());
    assert_eq!(every_nth(b"abcdefg".to_vec(), n(0)), b"abcdefg".to_vec());
    assert_eq!(every_nth(b"abc".to_vec(), n(7)), b"a".to_vec());
    let huge = BigInt::parse_bytes(b"-100000000000000000000000000", 10).unwrap();
    assert_eq!(every_nth(b"abc".to_vec(), huge), b"c".to_vec());
}

#[test]
fn split_at_separator() {
    assert_eq!(
        split(b"a--b--".to_vec(), b"--".to_vec(), false),
        vec![b"a".to_vec(), b"b".to_vec(), b"".to_vec()]
    );
    assert_eq!(
        split(b"a--b--".to_vec(), b"--".to_vec(), true),
        vec![b"a".to_vec(), b"b".to_vec()]
    );
    assert_eq!(split(b"abc".to_vec(), b"x".to_vec(), false), vec![b"abc".to_vec()]);
    assert_eq!(split(b"".to_vec(), b"x".to_vec(), false), vec![b"".to_vec()]);
    assert_eq!(split(b"".to_vec(), b"x".to_vec(), true), Vec::<Vec<u8>>::new());
    assert_eq!(split(b"ab".to_vec(), b"".to_vec(), false), vec![b"ab".to_vec()]);
    assert_eq!(
        split(b"aaaa".to_vec(), b"aa".to_vec(), false),
        vec![b"".to_vec(), b"".to_vec(), b"".to_vec()]
    );
    assert_eq!(split(b"ab".to_vec(), b"abc".to_vec(), false), vec![b"ab".to_vec()]);
}

#[test]
fn index_wraps_around() {
    let v = b"abc".to_vec();
    assert_eq!(index(&v, &n(0)), Some(&b'a'));
    assert_eq!(index(&v, &n(2)), Some(&b'c'));
    assert_eq!(index(&v, &n(3)), Some(&b'a'));
    assert_eq!(index(&v, &n(-1)), Some(&b'c'));
    assert_eq!(index(&v, &n(-4)), Some(&b'c'));
    assert_eq!(index(&Vec::<u8>::new(), &n(0)), None);
}

#[test]
fn slice_takes_and_drops() {
    assert_eq!(slice(Order::Less, b"abcd".to_vec(), n(1)), b"a".to_vec());
    assert_eq!(slice(Order::Greater, b"abcd".to_vec(), n(1)), b"bcd".to_vec());
    assert_eq!(slice(Order::Equal, b"abcd".to_vec(), n(1)), b"b".to_vec());
    assert_eq!(slice(Order::Less, b"abcd".to_vec(), n(-1)), b"abc".to_vec());
    assert_eq!(slice(Order::Greater, b"abcd".to_vec(), n(-1)), b"d".to_vec());
    assert_eq!(slice(Order::Less, b"abcd".to_vec(), n(10)), b"abcd".to_vec());
    assert_eq!(slice(Order::Greater, b"abcd".to_vec(), n(10)), b"".to_vec());
    assert_eq!(slice(Order::Less, b"abcd".to_vec(), n(-10)), b"".to_vec());
    assert_eq!(slice(Order::Greater, b"abcd".to_vec(), n(-10)), b"abcd".to_vec());
    assert_eq!(slice(Order::Equal, b"abcd".to_vec(), n(4)), b"".to_vec());
}

#[test]
fn string_index_finds_the_first_occurrence() {
    assert_eq!(string_index(&b"hello".to_vec(), &b"l".to_vec()), n(2));
    assert_eq!(string_index(&b"hello".to_vec(), &b"lo".to_vec()), n(3));
    assert_eq!(string_index(&b"hello".to_vec(), &b"hello".to_vec()), n(0));
    assert_eq!(string_index(&b"hello".to_vec(), &b"hellos".to_vec()), n(-1));
    assert_eq!(string_index(&b"hello".to_vec(), &b"x".to_vec()), n(-1));
    assert_eq!(string_index(&b"hello".to_vec(), &b"".to_vec()), n(0));
    assert_eq!(string_index(&b"".to_vec(), &b"".to_vec()), n(0));
}

#[test]
fn position_finds_the_first_equal_element() {
    assert_eq!(position(&ints(&[5, 6, 5]), &Gval::Int(n(5))), n(0));
    assert_eq!(position(&ints(&[5, 6, 5]), &Gval::Int(n(6))), n(1));
    assert_eq!(position(&ints(&[5, 6, 5]), &Gval::Int(n(7))), n(-1));
    assert_eq!(position(&b"abc".to_vec(), &b'c'), n(2));
}

#[test]
fn sort_orders_values() {
    assert_eq!(show(sort_vals(&ints(&[3, -1, 2, 2, 0]))), "[-1 0 2 2 3]");
    assert_eq!(show(sort_vals(&vec![])), "[]");
    let mixed = vec![
        Gval::Blk(b"b".to_vec()),
        Gval::Str(b"b".to_vec()),
        Gval::Arr(ints(&[2])),
        Gval::Int(n(9)),
        Gval::Str(b"a".to_vec()),
        Gval::Arr(ints(&[1, 5])),
    ];
    assert_eq!(show(sort_vals(&mixed)), "[9 [1 5] [2] \"a\" \"b\" {b}]");
}

#[test]
fn sort_by_key_keeps_equal_keys_in_order() {
    let keys = ints(&[2, 1, 2, 1, 0]);
    assert_eq!(sort_by_key(&keys, &b"abcde".to_vec()), b"ebdac".to_vec());
}
