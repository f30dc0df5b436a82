use shy::fuzzy::highlight;

#[test]
fn highlight_is_greedy_and_ignores_ascii_case() {
    let got = highlight("Docker-Two", "dt");
    let marked: String = got.iter().filter(|p| p.1).map(|p| p.0).collect();
    assert_eq!(marked, "DT");
    assert_eq!(got.len(), 10);
}

#[test]
fn highlight_skips_missing_characters() {
    let got: Vec<bool> = highlight("abc", "xc").iter().map(|p| p.1).collect();
    assert_eq!(got, vec![false, false, true]);
}

#[test]
fn highlight_of_empty_query_marks_nothing() {
    let got = highlight("abc", "");
    assert_eq!(got, vec![('a', false), ('b', false), ('c', false)]);
}
