use safe_collections::basics::{find_letter_a, fib, get_st_length, isEven};
use safe_collections::rect::Rect;

#[test]
fn is_even_number() {
    assert!(isEven(2));
    assert!(isEven(0));
    assert!(isEven(-4));
    assert!(!isEven(7));
    assert!(!isEven(-3));
}

#[test]
fn fib_values() {
    assert_eq!(fib(0), 0);
    assert_eq!(fib(1), 1);
    assert_eq!(fib(2), 1);
    assert_eq!(fib(3), 1);
    assert_eq!(fib(4), 2);
    assert_eq!(fib(10), 34);
    assert_eq!(fib(47), 1836311903);
    assert_eq!(fib(48), 2971215073);
}

#[test]
fn string_length_counts_chars() {
    assert_eq!(get_st_length(String::from("Monica S")), 8);
    assert_eq!(get_st_length(String::from("")), 0);
    assert_eq!(get_st_length(String::from("h\u{e9}llo")), 5);
}

#[test]
fn find_first_a() {
    assert_eq!(find_letter_a(String::from("SunilKumar")), Some(8));
    assert_eq!(find_letter_a(String::from("banana")), Some(1));
    assert_eq!(find_letter_a(String::from("\u{e9}a")), Some(1));
    assert_eq!(find_letter_a(String::from("Sunil")), None);
    assert_eq!(find_letter_a(String::from("A")), None);
}

#[test]
fn rect_measures() {
    let r = Rect { width: 10, height: 20 };
    assert_eq!(r.area(), 200);
    assert_eq!(r.perimeter(), 400);
    assert_eq!(Rect { width: 7, height: 0 }.perimeter(), 0);
    assert_eq!(Rect::debug(), 1);
}
