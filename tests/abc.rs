use selim::abc::abc_with_required_headers;

#[test]
fn abc_headers_added_when_missing() {
    assert_eq!(abc_with_required_headers("CDE"), "X: 1\nT: test tune\nK: C\nCDE");
}

#[test]
fn abc_headers_in_order_and_kept() {
    let music = "T: Song\nM:\t4/4\nX:2\nabc";
    assert_eq!(
        abc_with_required_headers(music),
        format!("X: 2\nT: Song\nM: 4/4\nK: C\n{music}")
    );
}

#[test]
fn abc_later_field_replaces_earlier() {
    let music = "K: G\nL: 1/8\nA: one\nA: two\nGAB\nZ: late\n";
    assert_eq!(
        abc_with_required_headers(music),
        format!("X: 1\nT: test tune\nA: two\nL: 1/8\nK: G\n{music}")
    );
}

#[test]
fn abc_header_needs_a_newline() {
    assert_eq!(abc_with_required_headers("K: D"), "X: 1\nT: test tune\nK: C\nK: D");
}
