//! SQL `WHERE` clauses for combat-log searches.

use vstd::prelude::*;
use crate::text::{chars_of, string_from_chars, spec_trim, trim, is_white_space, lemma_trim_first,
    is_ascii_text, ascii_lower, ascii_lower_text, lemma_trim_ascii, contains_seq};
use crate::lexer::{spec_tokenize, tokenize, join_words, is_word_char, keyword_of, TokenView,
    lemma_plain_words_form_one_term, lemma_tokens_not_empty, lemma_tokenize_ascii};
use crate::parser::{expr_is_ascii, ExprView, SearchExpr, Parser, spec_parse, spec_parse_or, spec_parse_and,
    spec_parse_not, spec_parse_primary, spec_and_tail, spec_or_tail, lemma_parse_ascii};

verus! {

/// `s` with each single quote doubled.
pub open spec fn spec_sql_escape(s: Seq<char>) -> Seq<char>
    decreases s.len(),
{
    if s.len() == 0 {
        seq![]
    } else {
        spec_sql_escape(s.drop_last()) + if s.last() == '\'' {
            seq!['\'', '\'']
        } else {
            seq![s.last()]
        }
    }
}

/// The text that `s` stands for between the quotes of a SQL string
/// literal: a doubled quote stands for one quote, and a lone quote would
/// end the literal early, so there is no such text.
pub open spec fn sql_literal_text(s: Seq<char>) -> Option<Seq<char>>
    decreases s.len(),
{
    if s.len() == 0 {
        Some(seq![])
    } else if s.last() != '\'' {
        match sql_literal_text(s.drop_last()) {
            Some(r) => Some(r.push(s.last())),
            None => None,
        }
    } else if s.len() >= 2 && s[s.len() - 2] == '\'' {
        match sql_literal_text(s.subrange(0, s.len() - 2)) {
            Some(r) => Some(r.push('\'')),
            None => None,
        }
    } else {
        None
    }
}

/// Escaping loses nothing, and nothing in the escaped text can end a SQL
/// string literal: inside quotes it stands for exactly the unescaped text.
pub proof fn lemma_sql_escape_is_literal_safe(s: Seq<char>)
    ensures
        sql_literal_text(spec_sql_escape(s)) == Some(s),
    decreases s.len(),
{
    if s.len() > 0 {
        lemma_sql_escape_is_literal_safe(s.drop_last());
        let e = spec_sql_escape(s);
        let p = spec_sql_escape(s.drop_last());
        if s.last() == '\'' {
            assert(e.subrange(0, e.len() - 2) =~= p);
        } else {
            assert(e.drop_last() =~= p);
        }
        assert(s.drop_last().push(s.last()) =~= s);
    }
}

proof fn lemma_sql_escape_ascii(s: Seq<char>)
    ensures
        is_ascii_text(s) ==> is_ascii_text(spec_sql_escape(s)),
        ascii_lower_text(spec_sql_escape(s)) == spec_sql_escape(ascii_lower_text(s)),
    decreases s.len(),
{
    if s.len() > 0 {
        let p = s.drop_last();
        let c = s.last();
        lemma_sql_escape_ascii(p);
        assert(ascii_lower_text(s).drop_last() =~= ascii_lower_text(p));
        assert(ascii_lower_text(s).last() == ascii_lower(c));
        let tail = if c == '\'' { seq!['\'', '\''] } else { seq![c] };
        assert(ascii_lower_text(spec_sql_escape(p) + tail) =~= ascii_lower_text(spec_sql_escape(p))
            + ascii_lower_text(tail));
        if is_ascii_text(s) {
            assert forall|i: int| 0 <= i < p.len() implies (#[trigger] p[i] as u32) < 128 by {
                assert(p[i] == s[i]);
            }
            assert((c as u32) < 128) by {
                assert(c == s[s.len() - 1]);
            }
            let e = spec_sql_escape(s);
            assert forall|i: int| 0 <= i < e.len() implies (#[trigger] e[i] as u32) < 128 by {
                if i < spec_sql_escape(p).len() {
                    assert(e[i] == spec_sql_escape(p)[i]);
                }
            }
        }
    }
}

/// Lower-casing ASCII letters keeps the escaping safe: the lower-cased
/// escaped text, inside SQL quotes, stands for exactly the lower-cased text.
pub proof fn lemma_lowered_escape_is_literal_safe(s: Seq<char>)
    ensures
        sql_literal_text(ascii_lower_text(spec_sql_escape(s))) == Some(ascii_lower_text(s)),
{
    lemma_sql_escape_ascii(s);
    lemma_sql_escape_is_literal_safe(ascii_lower_text(s));
}

/// `term` with each single quote doubled, for use inside a SQL string
/// literal.
pub fn sql_escape(term: &str) -> (res: String)
    ensures
        res@ == spec_sql_escape(term@),
{
    let chars = chars_of(term);
    let n = chars.len();
    let mut out: Vec<char> = Vec::new();
    for i in 0..n
        invariant
            n == chars.len(),
            chars@ == term@,
            out@ == spec_sql_escape(term@.take(i as int)),
    {
        proof {
            assert(term@.take(i + 1).drop_last() =~= term@.take(i as int));
        }
        let c = chars[i];
        if c == '\'' {
            out.push('\'');
            out.push('\'');
        } else {
            out.push(c);
        }
    }
    proof {
        assert(term@.take(n as int) =~= term@);
    }
    string_from_chars(&out)
}

/// What `str::to_lowercase` gives for `s`: the lower-case mapping of the
/// Unicode character database, which also depends on context (a final
/// capital sigma).
pub uninterp spec fn lower_case_of(s: Seq<char>) -> Seq<char>;

/// Trusted: `str::to_lowercase` returns a string that depends on the
/// characters of `s` alone; this names it `lower_case_of(s@)`. Of the
/// result it states only the Unicode mapping of ASCII text: each upper-case
/// ASCII letter becomes its lower-case letter and every other ASCII
/// character stays as it is.
#[verifier::external_body]
pub(crate) fn to_lower_case(s: &str) -> (res: String)
    ensures
        res@ == lower_case_of(s@),
        is_ascii_text(s@) ==> res@ == ascii_lower_text(s@),
{
    s.to_lowercase()
}

/// The columns that a search term is matched against.
pub open spec fn searched_columns() -> Seq<Seq<char>> {
    seq![
        "LOWER(source_name)"@,
        "LOWER(target_name)"@,
        "LOWER(ability_name)"@,
        "LOWER(effect_name)"@,
        "CAST(ability_id AS VARCHAR)"@,
        "CAST(effect_id AS VARCHAR)"@,
        "CAST(source_id AS VARCHAR)"@,
        "CAST(target_id AS VARCHAR)"@,
        "CAST(source_class_id AS VARCHAR)"@,
        "CAST(target_class_id AS VARCHAR)"@,
    ]
}

/// `column` contains `pattern`.
pub open spec fn column_like(column: Seq<char>, pattern: Seq<char>) -> Seq<char> {
    column + " LIKE '%"@ + pattern + "%'"@
}

/// `clauses` joined by ` OR `.
pub open spec fn or_join(clauses: Seq<Seq<char>>) -> Seq<char>
    decreases clauses.len(),
{
    if clauses.len() == 0 {
        seq![]
    } else if clauses.len() == 1 {
        clauses[0]
    } else {
        or_join(clauses.drop_last()) + " OR "@ + clauses.last()
    }
}

/// The clause that matches a term, already escaped and lower-cased, against
/// every searched column.
pub open spec fn spec_term_clause(escaped: Seq<char>) -> Seq<char> {
    "("@ + or_join(searched_columns().map_values(|c: Seq<char>| column_like(c, escaped))) + ")"@
}

proof fn lemma_or_join_holds(clauses: Seq<Seq<char>>, k: int) -> (o: int)
    requires
        0 <= k < clauses.len(),
    ensures
        0 <= o,
        o + clauses[k].len() <= or_join(clauses).len(),
        or_join(clauses).subrange(o, o + clauses[k].len()) == clauses[k],
    decreases clauses.len(),
{
    if clauses.len() == 1 {
        assert(or_join(clauses).subrange(0, clauses[0].len() as int) =~= clauses[0]);
        0
    } else {
        let p = clauses.drop_last();
        let head = or_join(p);
        let sep = " OR "@;
        let whole = or_join(clauses);
        assert(whole == head + sep + clauses.last());
        if k == clauses.len() - 1 {
            let o = (head.len() + sep.len()) as int;
            assert(whole.subrange(o, o + clauses[k].len()) =~= clauses[k]);
            o
        } else {
            let o = lemma_or_join_holds(p, k);
            assert(p[k] == clauses[k]);
            assert(whole.subrange(o, o + clauses[k].len()) =~= head.subrange(o, o + clauses[k].len()));
            o
        }
    }
}

/// Each searched column is matched against the whole escaped term: the
/// clause holds `column LIKE '%e%'` for every column, with `e` in full.
pub proof fn lemma_term_clause_matches_whole_term(e: Seq<char>, k: int)
    requires
        0 <= k < searched_columns().len(),
    ensures
        contains_seq(spec_term_clause(e), searched_columns()[k] + " LIKE '%"@ + e + "%'"@),
{
    let clauses = searched_columns().map_values(|c: Seq<char>| column_like(c, e));
    let target = searched_columns()[k] + " LIKE '%"@ + e + "%'"@;
    assert(clauses[k] == target);
    let o = lemma_or_join_holds(clauses, k);
    let body = or_join(clauses);
    let whole = spec_term_clause(e);
    assert(whole == "("@ + body + ")"@);
    reveal_strlit("(");
    let i = o + 1;
    assert(whole.subrange(i, i + target.len()) =~= body.subrange(o, o + target.len()));
    assert(whole.subrange(i, i + target.len()) == target);
}

/// The clause for the search term `term`.
pub open spec fn spec_term_sql(term: Seq<char>) -> Seq<char> {
    spec_term_clause(lower_case_of(spec_sql_escape(term)))
}

/// The clause for a search expression.
pub open spec fn spec_expr_sql(e: ExprView) -> Seq<char>
    decreases e,
{
    match e {
        ExprView::Term(t) => spec_term_sql(t),
        ExprView::Not(inner) => "(NOT "@ + spec_expr_sql(*inner) + ")"@,
        ExprView::And(l, r) => "("@ + spec_expr_sql(*l) + " AND "@ + spec_expr_sql(*r) + ")"@,
        ExprView::Or(l, r) => "("@ + spec_expr_sql(*l) + " OR "@ + spec_expr_sql(*r) + ")"@,
    }
}

/// The clause for an ASCII search term, its lower-casing written out.
pub open spec fn ascii_term_sql(term: Seq<char>) -> Seq<char> {
    spec_term_clause(ascii_lower_text(spec_sql_escape(term)))
}

/// The clause for a search expression of ASCII terms, their lower-casing
/// written out.
pub open spec fn ascii_expr_sql(e: ExprView) -> Seq<char>
    decreases e,
{
    match e {
        ExprView::Term(t) => ascii_term_sql(t),
        ExprView::Not(inner) => "(NOT "@ + ascii_expr_sql(*inner) + ")"@,
        ExprView::And(l, r) => "("@ + ascii_expr_sql(*l) + " AND "@ + ascii_expr_sql(*r) + ")"@,
        ExprView::Or(l, r) => "("@ + ascii_expr_sql(*l) + " OR "@ + ascii_expr_sql(*r) + ")"@,
    }
}

/// The `i`-th searched column.
fn searched_column(i: usize) -> (c: &'static str)
    requires
        i < 10,
    ensures
        c@ == searched_columns()[i as int],
{
    match i {
        0 => "LOWER(source_name)",
        1 => "LOWER(target_name)",
        2 => "LOWER(ability_name)",
        3 => "LOWER(effect_name)",
        4 => "CAST(ability_id AS VARCHAR)",
        5 => "CAST(effect_id AS VARCHAR)",
        6 => "CAST(source_id AS VARCHAR)",
        7 => "CAST(target_id AS VARCHAR)",
        8 => "CAST(source_class_id AS VARCHAR)",
        _ => "CAST(target_class_id AS VARCHAR)",
    }
}

/// The clause that matches `escaped`, a term already escaped and
/// lower-cased, against every searched column.
pub fn term_clause(escaped: &str) -> (res: String)
    ensures
        res@ == spec_term_clause(escaped@),
{
    let ghost clauses = searched_columns().map_values(|c: Seq<char>| column_like(c, escaped@));
    let mut body = String::new();
    for i in 0..10
        invariant
            clauses == searched_columns().map_values(|c: Seq<char>| column_like(c, escaped@)),
            body@ == or_join(clauses.take(i as int)),
    {
        proof {
            assert(clauses.take(i + 1).drop_last() =~= clauses.take(i as int));
            if i == 0 {
                assert(clauses.take(1) =~= seq![clauses[0]]);
            }
        }
        if i > 0 {
            body.append(" OR ");
        }
        body.append(searched_column(i));
        body.append(" LIKE '%");
        body.append(escaped);
        body.append("%'");
    }
    proof {
        assert(clauses.take(10) =~= clauses);
    }
    let mut out = "(".to_owned();
    out.append(body.as_str());
    out.append(")");
    out
}

/// The clause for the search term `term`: escaped, lower-cased, and matched
/// against every searched column.
pub fn term_to_sql(term: &str) -> (res: String)
    ensures
        res@ == spec_term_sql(term@),
        is_ascii_text(term@) ==> res@ == ascii_term_sql(term@),
{
    let escaped = sql_escape(term);
    proof {
        lemma_sql_escape_ascii(term@);
    }
    let lowered = to_lower_case(escaped.as_str());
    term_clause(lowered.as_str())
}

/// The clause for a search expression.
pub fn expr_to_sql(expr: &SearchExpr) -> (res: String)
    ensures
        res@ == spec_expr_sql(expr@),
        expr_is_ascii(expr@) ==> res@ == ascii_expr_sql(expr@),
    decreases expr,
{
    match expr {
        SearchExpr::Term(t) => term_to_sql(t.as_str()),
        SearchExpr::Not(inner) => {
            let mut out = "(NOT ".to_owned();
            let s = expr_to_sql(inner);
            out.append(s.as_str());
            out.append(")");
            out
        },
        SearchExpr::And(l, r) => {
            let mut out = "(".to_owned();
            let ls = expr_to_sql(l);
            let rs = expr_to_sql(r);
            out.append(ls.as_str());
            out.append(" AND ");
            out.append(rs.as_str());
            out.append(")");
            out
        },
        SearchExpr::Or(l, r) => {
            let mut out = "(".to_owned();
            let ls = expr_to_sql(l);
            let rs = expr_to_sql(r);
            out.append(ls.as_str());
            out.append(" OR ");
            out.append(rs.as_str());
            out.append(")");
            out
        },
    }
}

/// The clause for the search box text `search`.
pub open spec fn spec_search_clause(search: Seq<char>) -> Seq<char> {
    let s = spec_trim(search);
    if s.len() == 0 {
        "1=1"@
    } else {
        let toks = spec_tokenize(s);
        if toks.len() == 0 {
            "1=1"@
        } else {
            match spec_parse(toks, 0) {
                Some(e) => spec_expr_sql(e),
                None => spec_term_sql(s),
            }
        }
    }
}

/// The clause for ASCII search box text, its lower-casing written out.
pub open spec fn ascii_search_clause(search: Seq<char>) -> Seq<char> {
    let s = spec_trim(search);
    if s.len() == 0 {
        "1=1"@
    } else {
        let toks = spec_tokenize(s);
        if toks.len() == 0 {
            "1=1"@
        } else {
            match spec_parse(toks, 0) {
                Some(e) => ascii_expr_sql(e),
                None => ascii_term_sql(s),
            }
        }
    }
}

/// The SQL condition for the search box text `search`: `1=1` when it is
/// blank; the parsed expression when it parses; otherwise the whole trimmed
/// text as one term.
pub fn build_search_clause(search: &str) -> (res: String)
    ensures
        res@ == spec_search_clause(search@),
        is_ascii_text(search@) ==> res@ == ascii_search_clause(search@),
{
    let ghost whole = search@;
    let search = trim(search);
    proof {
        if is_ascii_text(whole) {
            lemma_trim_ascii(whole);
            lemma_tokenize_ascii(search@);
            lemma_parse_ascii(spec_tokenize(search@), 0);
        }
    }
    if search.is_empty() {
        return "1=1".to_owned();
    }
    let tokens = tokenize(search);
    if tokens.len() == 0 {
        return "1=1".to_owned();
    }
    let parser = Parser { tokens, pos: 0 };
    match parser.parse() {
        Some(expr) => expr_to_sql(&expr),
        None => term_to_sql(search),
    }
}

/// A blank search, or one of white space only, matches every row.
pub proof fn lemma_blank_search_matches_all(search: Seq<char>)
    requires
        spec_trim(search).len() == 0,
    ensures
        spec_search_clause(search) == "1=1"@,
{
}

/// A search that does not parse is matched as one term: the whole trimmed
/// text, operator words and parentheses included.
pub proof fn lemma_unparsable_search_is_one_term(search: Seq<char>)
    requires
        spec_trim(search).len() > 0,
        spec_parse(spec_tokenize(spec_trim(search)), 0) is None,
    ensures
        spec_search_clause(search) == spec_term_sql(spec_trim(search)),
{
    lemma_trim_first(search);
    lemma_tokens_not_empty(spec_trim(search), 0);
}

/// A search of plain words, separated by single spaces and none of them an
/// operator word, is matched as one phrase: the whole text.
pub proof fn lemma_plain_words_search_one_phrase(words: Seq<Seq<char>>)
    requires
        words.len() > 0,
        forall|i: int| 0 <= i < words.len() ==> (#[trigger] words[i]).len() > 0,
        forall|i: int, j: int| 0 <= i < words.len() && 0 <= j < words[i].len() ==> is_word_char(#[trigger] words[i][j]),
        forall|i: int| 0 <= i < words.len() ==> keyword_of(#[trigger] words[i]) is None,
        !is_white_space(words[0][0]),
        !is_white_space(words.last().last()),
    ensures
        spec_search_clause(join_words(words)) == spec_term_sql(join_words(words)),
{
    let q = join_words(words);
    lemma_join_words_ends(words);
    assert(spec_trim(q) == q);
    lemma_plain_words_form_one_term(words);
    let t = seq![TokenView::Term(q)];
    let e = ExprView::Term(q);
    assert(spec_parse_primary(t, 0) == Some((e, 1int)));
    assert(spec_parse_not(t, 0) == Some((e, 1int)));
    assert(spec_and_tail(t, e, 1) == Some((e, 1int)));
    assert(spec_parse_and(t, 0) == Some((e, 1int)));
    assert(spec_or_tail(t, e, 1) == Some((e, 1int)));
    assert(spec_parse_or(t, 0) == Some((e, 1int)));
}

proof fn lemma_join_words_ends(words: Seq<Seq<char>>)
    requires
        words.len() > 0,
        forall|i: int| 0 <= i < words.len() ==> (#[trigger] words[i]).len() > 0,
    ensures
        join_words(words).len() > 0,
        join_words(words)[0] == words[0][0],
        join_words(words).last() == words.last().last(),
    decreases words.len(),
{
    if words.len() > 1 {
        let prefix = words.drop_last();
        assert forall|i: int| 0 <= i < prefix.len() implies (#[trigger] prefix[i]).len() > 0 by {
            assert(prefix[i] == words[i]);
        }
        lemma_join_words_ends(prefix);
        assert(words.last().len() > 0);
    }
}

} // verus!
