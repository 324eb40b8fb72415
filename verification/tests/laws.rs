use cyclic_values::{integer, list, rc, Store, Value, ValueFormatter};

/// Reads one value of the output grammar at `at` and returns where it ends.
fn value_end(text: &[u8], at: usize) -> Option<usize> {
    if text[at..].starts_with(b"uninit") {
        return Some(at + 6);
    }
    match text.get(at) {
        Some(b'*') => Some(at + 1),
        Some(b'[') => list_end(text, at + 1),
        Some(b'-') => digits_end(text, at + 1),
        Some(_) => digits_end(text, at),
        None => None,
    }
}

/// Reads the digits of an integer without a leading zero.
fn digits_end(text: &[u8], at: usize) -> Option<usize> {
    let mut end = at;
    while end < text.len() && text[end].is_ascii_digit() {
        end += 1;
    }
    if end == at || (text[at] == b'0' && end > at + 1) {
        None
    } else {
        Some(end)
    }
}

/// Reads the items and the closing bracket of a list.
fn list_end(text: &[u8], at: usize) -> Option<usize> {
    if text.get(at) == Some(&b']') {
        return Some(at + 1);
    }
    let mut end = value_end(text, at)?;
    while text[end..].starts_with(b", ") {
        end = value_end(text, end + 2)?;
    }
    if text.get(end) == Some(&b']') {
        Some(end + 1)
    } else {
        None
    }
}

fn is_value_text(text: &str) -> bool {
    value_end(text.as_bytes(), 0) == Some(text.len())
}

fn sample_graph() -> (Store, Vec<Value>) {
    let mut store = Store::new();
    let mut a = rc(&mut store);
    let mut b = rc(&mut store);
    let c = rc(&mut store);
    let in_a = list(vec![integer(-12), b.clone(), list(vec![]), c.clone(), a.clone()]);
    let in_b = list(vec![a.clone(), list(vec![b.clone(), integer(0)]), c.clone()]);
    assert!(a.resolve(&mut store, in_a).is_ok());
    assert!(b.resolve(&mut store, in_b).is_ok());
    let roots = vec![
        a.clone(),
        b.clone(),
        c.clone(),
        integer(i64::MIN),
        list(vec![]),
        list(vec![c.clone(), c, b.clone(), a.clone()]),
        list(vec![list(vec![list(vec![a, b])])]),
        Value::Rc(99),
    ];
    (store, roots)
}

#[test]
fn recognizer_rejects_texts_outside_the_grammar() {
    for text in ["", "[", "]", "[1,2]", "[1, ]", "01", "-", "**", "uninit ", "[1, 2", "1 2"] {
        assert!(!is_value_text(text), "{:?}", text);
    }
    for text in ["0", "-7", "*", "uninit", "[]", "[[]]", "[1, *, uninit, [-2]]"] {
        assert!(is_value_text(text), "{:?}", text);
    }
}

#[test]
fn every_rendering_is_in_the_grammar() {
    let (store, roots) = sample_graph();
    for root in &roots {
        let text = root.format(&store);
        assert!(is_value_text(&text), "{:?}", text);
    }
}

#[test]
fn sample_graph_renders_as_expected() {
    let (store, roots) = sample_graph();
    let texts: Vec<String> = roots.iter().map(|root| root.format(&store)).collect();
    assert_eq!(
        texts,
        vec![
            "[-12, [*, [*, 0], uninit], [], *, *]",
            "[[-12, *, [], uninit, *], [*, 0], *]",
            "uninit",
            "-9223372036854775808",
            "[]",
            "[uninit, *, [[-12, *, [], *, *], [*, 0], *], *]",
            "[[[[-12, [*, [*, 0], uninit], [], *, *], *]]]",
            "uninit",
        ]
    );
}

#[test]
fn format_is_repeatable_on_every_root() {
    let (store, roots) = sample_graph();
    for root in &roots {
        assert_eq!(root.format(&store), root.format(&store));
    }
}

#[test]
fn handing_out_a_cell_changes_no_rendering() {
    let (mut store, roots) = sample_graph();
    let before: Vec<String> = roots.iter().map(|root| root.format(&store)).collect();
    let fresh = rc(&mut store);
    let after: Vec<String> = roots.iter().map(|root| root.format(&store)).collect();
    assert_eq!(before, after);
    assert_eq!(fresh.format(&store), "uninit");
}

#[test]
fn repeated_cell_in_a_list_collapses() {
    let (store, roots) = sample_graph();
    for root in roots.iter().take(3) {
        let alone = root.format(&store);
        let twice = list(vec![root.clone(), root.clone()]).format(&store);
        assert_eq!(twice, format!("[{}, *]", alone));
    }
}

#[test]
fn no_cell_is_rendered_in_full_twice() {
    let (store, roots) = sample_graph();
    let mut formatter = ValueFormatter::default();
    formatter.visit(&store, &roots[0]);
    let first = formatter.string();
    formatter.visit(&store, &roots[0]);
    formatter.visit(&store, &roots[1]);
    formatter.visit(&store, &roots[2]);
    assert_eq!(formatter.string(), format!("{}***", first));
}
