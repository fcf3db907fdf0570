use verified_collections::order::{Ascending, ByFn, Comparator, Descending};

#[test]
fn ascending_puts_the_lesser_above() {
    assert!(Ascending.compare(&1, &2));
    assert!(!Ascending.compare(&2, &1));
    assert!(!Ascending.compare(&2, &2));
}

#[test]
fn descending_puts_the_greater_above() {
    assert!(Descending.compare(&2, &1));
    assert!(!Descending.compare(&1, &2));
    assert!(!Descending.compare(&1, &1));
}

#[test]
fn by_fn_answers_what_the_function_answers() {
    let shorter = ByFn::new(|a: &&str, b: &&str| a.len() < b.len());
    assert!(shorter.compare(&"ab", &"abc"));
    assert!(!shorter.compare(&"abc", &"ab"));
}
