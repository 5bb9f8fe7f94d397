use orrery::interner::Interner;

#[test]
fn round_trip_returns_original_string() {
    let mut interner = Interner::new();
    let sym = interner.get_or_intern("interner_test_round_trip");
    assert_eq!(interner.resolve(sym), "interner_test_round_trip");
}

#[test]
fn deduplication_returns_same_symbol() {
    let mut interner = Interner::new();
    let first = interner.get_or_intern("interner_test_dedup");
    let second = interner.get_or_intern("interner_test_dedup");
    assert_eq!(first, second);
}

#[test]
fn distinct_strings_yield_distinct_symbols() {
    let mut interner = Interner::new();
    let a = interner.get_or_intern("interner_test_distinct_a");
    let b = interner.get_or_intern("interner_test_distinct_b");
    assert_ne!(a, b);
}

#[test]
fn static_str_survives_after_lock_dropped() {
    let mut interner = Interner::new();
    let sym = interner.get_or_intern("interner_test_static_lifetime");
    let s: String = {
        let view = &interner;
        view.resolve(sym).to_string()
    };
    assert_eq!(s, "interner_test_static_lifetime");
    assert_eq!(interner.resolve(sym), "interner_test_static_lifetime");
}

#[test]
fn len_increases_after_interning_new_string() {
    let mut interner = Interner::new();
    interner.get_or_intern("something else");
    let before = interner.len();
    interner.get_or_intern("interner_test_len_unique_string");
    assert_eq!(interner.len(), before + 1);
}

#[test]
fn len_stable_after_interning_duplicate() {
    let mut interner = Interner::new();
    interner.get_or_intern("interner_test_len_dup");
    let after_first = interner.len();
    interner.get_or_intern("interner_test_len_dup");
    assert_eq!(interner.len(), after_first);
}

#[test]
fn holds_only_symbols_of_its_strings() {
    let mut first = Interner::new();
    let a = first.get_or_intern("a");
    let b = first.get_or_intern("b");
    let mut second = Interner::new();
    second.get_or_intern("x");
    assert!(first.holds(b));
    assert!(second.holds(a));
    assert!(!second.holds(b));
    assert!(first.len() == 2 && first.resolve(b) == "b");
}
