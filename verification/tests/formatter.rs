use cyclic_values::{integer, list, rc, Store, ValueFormatter};

#[test]
fn fresh_formatter_has_no_text() {
    let formatter = ValueFormatter::default();
    assert_eq!(formatter.string(), "");
}

#[test]
fn add_appends_in_order() {
    let mut formatter = ValueFormatter::default();
    formatter.add("a");
    formatter.add("");
    formatter.add("bc");
    assert_eq!(formatter.string(), "abc");
    formatter.add(", ");
    assert_eq!(formatter.string(), "abc, ");
}

#[test]
fn string_does_not_consume_the_buffer() {
    let mut formatter = ValueFormatter::default();
    formatter.add("x");
    assert_eq!(formatter.string(), "x");
    assert_eq!(formatter.string(), "x");
}

#[test]
fn visit_appends_after_earlier_text() {
    let store = Store::new();
    let mut formatter = ValueFormatter::default();
    formatter.add("value: ");
    formatter.visit(&store, &list(vec![integer(1), integer(2)]));
    assert_eq!(formatter.string(), "value: [1, 2]");
}

#[test]
fn second_visit_remembers_entered_cells() {
    let mut store = Store::new();
    let mut c = rc(&mut store);
    assert!(c.resolve(&mut store, integer(5)).is_ok());
    let mut formatter = ValueFormatter::default();
    formatter.visit(&store, &c);
    formatter.add(" ");
    formatter.visit(&store, &c);
    assert_eq!(formatter.string(), "5 *");
}

#[test]
fn second_visit_does_not_mark_integers_or_lists() {
    let store = Store::new();
    let v = list(vec![integer(1)]);
    let mut formatter = ValueFormatter::default();
    formatter.visit(&store, &v);
    formatter.visit(&store, &v);
    assert_eq!(formatter.string(), "[1][1]");
}

#[test]
fn visit_of_cycle_returns() {
    let mut store = Store::new();
    let mut x = rc(&mut store);
    let y = list(vec![x.clone(), list(vec![x.clone()])]);
    assert!(x.resolve(&mut store, y).is_ok());
    let mut formatter = ValueFormatter::default();
    formatter.visit(&store, &x);
    assert_eq!(formatter.string(), "[*, [*]]");
}
