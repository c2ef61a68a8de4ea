use safe_collections::safe_map::{filter_high_marks, SafeMap};
use safe_collections::safe_vec::{is_even, process_vector, SafeVec};

fn key(s: &str) -> String {
    String::from(s)
}

fn marks() -> SafeMap<i32> {
    let mut m = SafeMap::new();
    m.insert(key("Math"), 85);
    m.insert(key("Science"), 90);
    m.insert(key("English"), 78);
    m
}

#[test]
fn filter_high_marks_keeps_marks_above_80() {
    let high = filter_high_marks(&marks());
    assert_eq!(high.len(), 2);
    assert_eq!(high.get(&key("Math")), Some(85));
    assert_eq!(high.get(&key("Science")), Some(90));
    assert_eq!(high.get(&key("English")), None);
}

#[test]
fn filter_high_marks_excludes_exactly_80() {
    let mut m = SafeMap::new();
    m.insert(key("Art"), 80);
    m.insert(key("Music"), 81);
    let high = filter_high_marks(&m);
    assert_eq!(high.len(), 1);
    assert_eq!(high.get(&key("Music")), Some(81));
    assert_eq!(high.get(&key("Art")), None);
}

#[test]
fn map_filter_with_closure() {
    let m = marks();
    let high = m.filter(|v: i32| v > 80);
    assert_eq!(high.len(), 2);
    assert!(high.contains_key(&key("Math")));
    assert!(high.contains_key(&key("Science")));
    assert!(!high.contains_key(&key("English")));
    // the source is left as it was
    assert_eq!(m.len(), 3);
}

#[test]
fn map_filter_result_is_subset_and_not_larger() {
    let m = marks();
    let f = m.filter(|v: i32| v % 2 == 0);
    assert!(f.len() <= m.len());
    for k in f.keys() {
        let v = f.get(&k).unwrap();
        assert_eq!(v % 2, 0);
        assert_eq!(m.get(&k), Some(v));
    }
    assert_eq!(f.len(), 2);
    assert_eq!(f.get(&key("Science")), Some(90));
    assert_eq!(f.get(&key("English")), Some(78));
    assert_eq!(f.get(&key("Math")), None);
}

#[test]
fn map_filter_nothing_accepted() {
    let f = marks().filter(|_v: i32| false);
    assert!(f.is_empty());
}

#[test]
fn insert_overwrites_existing_key() {
    let mut m = SafeMap::new();
    m.insert(key("Math"), 85);
    m.insert(key("Math"), 95);
    assert_eq!(m.len(), 1);
    assert_eq!(m.get(&key("Math")), Some(95));
}

#[test]
fn get_returns_last_inserted_value() {
    let mut m = SafeMap::new();
    m.insert(key("a"), 1);
    m.insert(key("b"), 2);
    m.insert(key("a"), 3);
    m.insert(key("c"), 4);
    m.insert(key("a"), 5);
    assert_eq!(m.get(&key("a")), Some(5));
    assert_eq!(m.get(&key("b")), Some(2));
    assert_eq!(m.get(&key("c")), Some(4));
    assert_eq!(m.len(), 3);
}

#[test]
fn get_of_missing_key_is_none() {
    let mut m: SafeMap<i32> = SafeMap::new();
    assert_eq!(m.get(&key("History")), None);
    m.insert(key("Math"), 85);
    assert_eq!(m.get(&key("History")), None);
    assert_eq!(m.get(&key("")), None);
    assert_eq!(m.get(&key("math")), None);
}

#[test]
fn remove_returns_value_and_unbinds() {
    let mut m = SafeMap::new();
    m.insert(key("Math"), 85);
    m.insert(key("English"), 78);
    assert_eq!(m.remove(&key("English")), Some(78));
    assert_eq!(m.len(), 1);
    assert_eq!(m.get(&key("Math")), Some(85));
    assert_eq!(m.get(&key("English")), None);
}

#[test]
fn remove_missing_key_changes_nothing() {
    let mut m = marks();
    assert_eq!(m.remove(&key("History")), None);
    assert_eq!(m.len(), 3);
    assert_eq!(m.get(&key("English")), Some(78));
}

#[test]
fn remove_then_get_is_none_after_reinsert() {
    let mut m = marks();
    m.insert(key("English"), 60);
    assert_eq!(m.remove(&key("English")), Some(60));
    assert_eq!(m.get(&key("English")), None);
    assert_eq!(m.remove(&key("English")), None);
    m.insert(key("English"), 70);
    assert_eq!(m.get(&key("English")), Some(70));
}

#[test]
fn map_transform_keeps_keys_and_size() {
    let m = marks();
    let doubled = m.map(|v: i32| (v as i64) * 2);
    assert_eq!(doubled.len(), 3);
    assert_eq!(doubled.get(&key("Math")), Some(170i64));
    assert_eq!(doubled.get(&key("Science")), Some(180i64));
    assert_eq!(doubled.get(&key("English")), Some(156i64));
}

#[test]
fn map_identity_gives_equal_map() {
    let m = marks();
    let same = m.map(|v: i32| v);
    assert_eq!(same.len(), m.len());
    for k in m.keys() {
        assert_eq!(same.get(&k), m.get(&k));
    }
}

#[test]
fn map_retain_and_clear() {
    let mut m = marks();
    m.retain(|v: i32| v < 88);
    assert_eq!(m.len(), 2);
    assert_eq!(m.get(&key("Science")), None);
    assert_eq!(m.get(&key("English")), Some(78));
    m.clear();
    assert!(m.is_empty());
    assert_eq!(m.get(&key("Math")), None);
}

#[test]
fn keys_lists_each_key_once() {
    let mut m = marks();
    m.insert(key("Math"), 1);
    let mut ks = m.keys();
    ks.sort();
    assert_eq!(ks, vec![key("English"), key("Math"), key("Science")]);
}

#[test]
fn vec_filter_even() {
    let v = SafeVec::from_vec(vec![1, 2, 3, 4, 5]);
    let evens = v.filter(|x: i32| x % 2 == 0);
    assert_eq!(evens.to_vec(), vec![2, 4]);
    assert_eq!(v.to_vec(), vec![1, 2, 3, 4, 5]);
}

#[test]
fn is_even_keeps_even_values_in_order() {
    assert_eq!(is_even(&vec![1, 2, 3, 4, 5, 6]), vec![2, 4, 6]);
    assert_eq!(is_even(&vec![-4, -3, 0, 7]), vec![-4, 0]);
    assert_eq!(is_even(&vec![]), Vec::<i32>::new());
}

#[test]
fn vec_checked_and_unchecked_access() {
    let v = SafeVec::from_vec(vec![1, 2, 3, 4]);
    assert_eq!(v.at(2), 3);
    assert_eq!(v.get(2), Some(3));
    assert_eq!(v.get(4), None);
    assert_eq!(v.get(10), None);
}

#[test]
fn vec_push_pop_remove() {
    let mut v = SafeVec::new();
    assert!(v.is_empty());
    v.push(1);
    v.push(2);
    v.push(3);
    v.push(4);
    assert_eq!(v.pop(), Some(4));
    assert_eq!(v.to_vec(), vec![1, 2, 3]);
    assert_eq!(v.remove(1), Some(2));
    assert_eq!(v.to_vec(), vec![1, 3]);
    assert_eq!(v.remove(5), None);
    assert_eq!(v.len(), 2);
    v.clear();
    assert_eq!(v.pop(), None);
    assert!(v.is_empty());
}

#[test]
fn vec_set_overwrites_in_range_only() {
    let mut v = SafeVec::from_vec(vec![1, 2, 3]);
    assert_eq!(v.set(1, 20), Some(2));
    assert_eq!(v.to_vec(), vec![1, 20, 3]);
    assert_eq!(v.set(3, 9), None);
    assert_eq!(v.to_vec(), vec![1, 20, 3]);
}

#[test]
fn vec_retain_and_map() {
    let mut v = SafeVec::from_vec(vec![1, 2, 3, 4]);
    v.retain(|x: i32| x > 2);
    assert_eq!(v.to_vec(), vec![3, 4]);
    let w = SafeVec::from_vec(vec![11, 12, 13]).map(|x: i32| x as i64 * 2);
    assert_eq!(w.to_vec(), vec![22i64, 24, 26]);
    let same = SafeVec::from_vec(vec![5, 6]).map(|x: i32| x);
    assert_eq!(same.to_vec(), vec![5, 6]);
}

#[test]
fn process_vector_adds_five_and_sums() {
    let mut v = vec![1, 2, 3];
    assert_eq!(process_vector(&mut v), 21);
    assert_eq!(v, vec![6, 7, 8]);
    let mut e: Vec<i32> = vec![];
    assert_eq!(process_vector(&mut e), 0);
}
