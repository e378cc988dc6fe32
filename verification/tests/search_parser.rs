use baras::sql::{build_search_clause, term_to_sql};

fn t(s: &str) -> String {
    term_to_sql(s)
}

#[test]
fn empty_input() {
    assert_eq!(build_search_clause(""), "1=1");
    assert_eq!(build_search_clause("   "), "1=1");
}

#[test]
fn single_term() {
    assert_eq!(build_search_clause("knight"), t("knight"));
}

#[test]
fn multi_word_phrase() {
    assert_eq!(build_search_clause("force lightning"), t("force lightning"));
}

#[test]
fn simple_or() {
    let result = build_search_clause("knight OR warrior");
    assert_eq!(result, format!("({} OR {})", t("knight"), t("warrior")));
}

#[test]
fn simple_and() {
    let result = build_search_clause("knight AND damage");
    assert_eq!(result, format!("({} AND {})", t("knight"), t("damage")));
}

#[test]
fn simple_not() {
    let result = build_search_clause("NOT knight");
    assert_eq!(result, format!("(NOT {})", t("knight")));
}

#[test]
fn and_or_precedence() {
    // A AND B OR C  ->  (A AND B) OR C
    let result = build_search_clause("knight AND damage OR heal");
    let expected = format!("(({} AND {}) OR {})", t("knight"), t("damage"), t("heal"));
    assert_eq!(result, expected);
}

#[test]
fn or_and_precedence() {
    // A OR B AND C  ->  A OR (B AND C)
    let result = build_search_clause("heal OR knight AND damage");
    let expected = format!("({} OR ({} AND {}))", t("heal"), t("knight"), t("damage"));
    assert_eq!(result, expected);
}

#[test]
fn parens_override_precedence() {
    // (A OR B) AND C
    let result = build_search_clause("(knight OR warrior) AND damage");
    let expected = format!(
        "(({} OR {}) AND {})",
        t("knight"),
        t("warrior"),
        t("damage")
    );
    assert_eq!(result, expected);
}

#[test]
fn nested_parens() {
    let result = build_search_clause("(A AND B) OR (C AND D)");
    let expected = format!(
        "(({} AND {}) OR ({} AND {}))",
        t("a"),
        t("b"),
        t("c"),
        t("d"),
    );
    assert_eq!(result, expected);
}

#[test]
fn not_with_parens() {
    let result = build_search_clause("NOT (knight OR warrior)");
    let expected = format!("(NOT ({} OR {}))", t("knight"), t("warrior"));
    assert_eq!(result, expected);
}

#[test]
fn complex_expression() {
    // (A AND B) OR NOT C
    let result = build_search_clause("(knight AND damage) OR NOT heal");
    let expected = format!(
        "(({} AND {}) OR (NOT {}))",
        t("knight"),
        t("damage"),
        t("heal")
    );
    assert_eq!(result, expected);
}

#[test]
fn case_insensitive_operators() {
    let upper = build_search_clause("A AND B");
    let lower = build_search_clause("A and B");
    let mixed = build_search_clause("A And B");
    assert_eq!(upper, lower);
    assert_eq!(upper, mixed);
}

#[test]
fn malformed_falls_back_to_term() {
    // Dangling operator: the entire input is treated as a single term
    let result = build_search_clause("AND knight");
    assert_eq!(result, t("and knight"));
}

#[test]
fn backward_compat_or_not() {
    // Old-style "A OR B OR NOT C" still works
    let result = build_search_clause("knight OR warrior OR NOT boss");
    let expected = format!(
        "(({} OR {}) OR (NOT {}))",
        t("knight"),
        t("warrior"),
        t("boss")
    );
    assert_eq!(result, expected);
}

#[test]
fn sql_injection_escaped() {
    let result = build_search_clause("O'Brien");
    assert!(result.contains("o''brien"));
}
