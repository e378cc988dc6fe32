use baras::lexer::{tokenize, Token};
use baras::parser::{Parser, SearchExpr};
use baras::sql::{build_search_clause, expr_to_sql, sql_escape, term_clause, term_to_sql};
use baras::text::trim;

fn describe(tokens: &[Token]) -> Vec<String> {
    tokens
        .iter()
        .map(|t| match t {
            Token::And => "AND".to_string(),
            Token::Or => "OR".to_string(),
            Token::Not => "NOT".to_string(),
            Token::LParen => "(".to_string(),
            Token::RParen => ")".to_string(),
            Token::Term(s) => format!("[{}]", s),
        })
        .collect()
}

#[test]
fn term_clause_lists_every_column() {
    let expected = "(LOWER(source_name) LIKE '%knight%' OR LOWER(target_name) LIKE '%knight%' OR LOWER(ability_name) LIKE '%knight%' OR LOWER(effect_name) LIKE '%knight%' OR CAST(ability_id AS VARCHAR) LIKE '%knight%' OR CAST(effect_id AS VARCHAR) LIKE '%knight%' OR CAST(source_id AS VARCHAR) LIKE '%knight%' OR CAST(target_id AS VARCHAR) LIKE '%knight%' OR CAST(source_class_id AS VARCHAR) LIKE '%knight%' OR CAST(target_class_id AS VARCHAR) LIKE '%knight%')";
    assert_eq!(term_to_sql("knight"), expected);
    assert_eq!(term_clause("knight"), expected);
}

#[test]
fn term_is_lower_cased_after_escaping() {
    assert_eq!(term_to_sql("KNIGHT"), term_clause("knight"));
    assert_eq!(term_to_sql("O'Brien"), term_clause("o''brien"));
}

#[test]
fn escape_doubles_quotes() {
    assert_eq!(sql_escape("it's"), "it''s");
    assert_eq!(sql_escape("''"), "''''");
    assert_eq!(sql_escape("plain"), "plain");
    assert_eq!(sql_escape(""), "");
}

#[test]
fn tokens_of_phrases_and_operators() {
    assert_eq!(
        describe(&tokenize("force  lightning\tstrike OR (NOT heal)")),
        vec!["[force lightning strike]", "OR", "(", "NOT", "[heal]", ")"]
    );
}

#[test]
fn operator_words_end_at_text_end_and_parentheses() {
    assert_eq!(describe(&tokenize("knight AND")), vec!["[knight]", "AND"]);
    assert_eq!(describe(&tokenize("knight and(x)")), vec!["[knight]", "AND", "(", "[x]", ")"]);
    assert_eq!(describe(&tokenize("Or x")), vec!["OR", "[x]"]);
    assert_eq!(describe(&tokenize("NOT(x)")), vec!["NOT", "(", "[x]", ")"]);
    assert_eq!(describe(&tokenize("(x)NOT")), vec!["(", "[x]", ")", "NOT"]);
    assert_eq!(build_search_clause("NOT(knight)"), format!("(NOT {})", term_to_sql("knight")));
}

#[test]
fn tokens_of_blank_text() {
    assert!(tokenize(" \t ").is_empty());
    assert!(tokenize("").is_empty());
}

#[test]
fn missing_close_paren_is_tolerated() {
    let result = build_search_clause("(knight OR warrior");
    assert_eq!(result, format!("({} OR {})", term_to_sql("knight"), term_to_sql("warrior")));
}

#[test]
fn leftover_tokens_fall_back_to_term() {
    assert_eq!(build_search_clause("knight)"), term_to_sql("knight)"));
    assert_eq!(build_search_clause("knight OR"), term_to_sql("knight OR"));
}

#[test]
fn or_groups_to_the_left() {
    let a = term_to_sql("a");
    let b = term_to_sql("b");
    let c = term_to_sql("c");
    assert_eq!(build_search_clause("a OR b OR c"), format!("(({} OR {}) OR {})", a, b, c));
    assert_eq!(build_search_clause("a AND b AND c"), format!("(({} AND {}) AND {})", a, b, c));
    assert_eq!(build_search_clause("NOT NOT a"), format!("(NOT (NOT {}))", a));
}

#[test]
fn unicode_white_space_is_trimmed() {
    assert_eq!(trim("\u{3000}knight\u{a0}\n"), "knight");
    assert_eq!(build_search_clause("\u{2003}knight "), term_to_sql("knight"));
    assert_eq!(build_search_clause("\u{85}\u{2028}"), "1=1");
}

#[test]
fn parser_reads_tokens_from_its_position() {
    let tokens = tokenize("x y AND z");
    let parser = Parser { tokens, pos: 0 };
    match parser.parse() {
        Some(SearchExpr::And(l, r)) => {
            assert!(matches!(*l, SearchExpr::Term(ref s) if s == "x y"));
            assert!(matches!(*r, SearchExpr::Term(ref s) if s == "z"));
        }
        _ => panic!("expected a conjunction"),
    }
    let parser = Parser { tokens: tokenize("AND z"), pos: 1 };
    assert!(matches!(parser.parse(), Some(SearchExpr::Term(ref s)) if s == "z"));
    let parser = Parser { tokens: tokenize("x"), pos: 0 };
    let mut p = parser;
    assert!(p.parse_or().is_some());
    assert_eq!(p.pos, 1);
}

#[test]
fn expression_clauses_are_parenthesised() {
    let e = SearchExpr::Not(Box::new(SearchExpr::Or(
        Box::new(SearchExpr::Term("a".to_string())),
        Box::new(SearchExpr::Term("b".to_string())),
    )));
    assert_eq!(
        expr_to_sql(&e),
        format!("(NOT ({} OR {}))", term_to_sql("a"), term_to_sql("b"))
    );
}

#[test]
fn operator_case_does_not_matter() {
    assert_eq!(tokenize("x aNd y"), tokenize("x AND y"));
    assert_eq!(tokenize("x oR y"), tokenize("x OR y"));
    assert_eq!(tokenize("nOt y"), tokenize("NOT y"));
}

#[test]
fn plain_words_make_one_term() {
    assert_eq!(
        tokenize("force lightning NOT"),
        vec![Token::Term("force lightning".to_string()), Token::Not]
    );
    assert_eq!(tokenize("force lightning strike"), vec![Token::Term("force lightning strike".to_string())]);
    assert_eq!(tokenize("\u{a0}"), vec![Token::Term("\u{a0}".to_string())]);
}

#[test]
fn escaped_quotes_come_in_pairs() {
    assert_eq!(sql_escape("a'b''c"), "a''b''''c");
}

#[test]
fn separator_runs_do_not_change_tokens() {
    assert_eq!(tokenize(" \t a  \t b\tOR  c \t"), tokenize("a b OR c "));
    assert_eq!(tokenize("x\t\tAND\ty"), tokenize("x AND y"));
}

#[test]
fn quote_stays_doubled_after_lower_casing() {
    assert_eq!(term_to_sql("O'Brien"), term_clause("o''brien"));
    assert!(build_search_clause("O'Brien").contains("'%o''brien%'"));
}
