//! Tokens of a combat-log search query.
//!
//! Parentheses are tokens of their own; words are separated by spaces,
//! tabs and parentheses. A word that reads `AND`, `OR` or `NOT` in any
//! letter case is an operator. Consecutive other words form one phrase term,
//! joined by single spaces.

use vstd::prelude::*;
use crate::text::{chars_of, string_from_chars, is_ascii_text};

verus! {

/// A token of a search query.
#[derive(Debug, PartialEq)]
pub enum Token {
    And,
    Or,
    Not,
    LParen,
    RParen,
    Term(String),
}

/// What a token stands for.
pub enum TokenView {
    And,
    Or,
    Not,
    LParen,
    RParen,
    Term(Seq<char>),
}

impl View for Token {
    type V = TokenView;

    open spec fn view(&self) -> TokenView {
        match self {
            Token::And => TokenView::And,
            Token::Or => TokenView::Or,
            Token::Not => TokenView::Not,
            Token::LParen => TokenView::LParen,
            Token::RParen => TokenView::RParen,
            Token::Term(s) => TokenView::Term(s@),
        }
    }
}

/// The views of a sequence of tokens.
pub open spec fn tokens_view(ts: Seq<Token>) -> Seq<TokenView> {
    ts.map_values(|t: Token| t@)
}

/// The words of `parts` joined by single spaces.
pub open spec fn join_words(parts: Seq<Seq<char>>) -> Seq<char>
    decreases parts.len(),
{
    if parts.len() == 0 {
        seq![]
    } else if parts.len() == 1 {
        parts[0]
    } else {
        join_words(parts.drop_last()) + seq![' '] + parts.last()
    }
}

/// `c1` and `c2` are the same character, or the same ASCII letter in the
/// two letter cases.
pub open spec fn same_ignoring_ascii_case(c1: char, c2: char) -> bool {
    ||| c1 == c2
    ||| ('A' <= c2 <= 'Z' && c1 as u32 == c2 as u32 + 32)
    ||| ('A' <= c1 <= 'Z' && c2 as u32 == c1 as u32 + 32)
}

/// `word` spells `upper`, letter by letter either as in `upper` or as in
/// `lower`.
///
/// Operators are recognised whatever the ASCII letter case: no other
/// character upper-cases into the letters of the operator words.
pub open spec fn spells_keyword(word: Seq<char>, upper: Seq<char>, lower: Seq<char>) -> bool {
    &&& word.len() == upper.len()
    &&& forall|i: int| 0 <= i < word.len() ==> #[trigger] word[i] == upper[i] || word[i] == lower[i]
}

/// The operator that `word` names, if any.
pub open spec fn keyword_of(word: Seq<char>) -> Option<TokenView> {
    if spells_keyword(word, seq!['A', 'N', 'D'], seq!['a', 'n', 'd']) {
        Some(TokenView::And)
    } else if spells_keyword(word, seq!['O', 'R'], seq!['o', 'r']) {
        Some(TokenView::Or)
    } else if spells_keyword(word, seq!['N', 'O', 'T'], seq!['n', 'o', 't']) {
        Some(TokenView::Not)
    } else {
        None
    }
}

/// The state of the tokenizer: the tokens so far, the words of the phrase
/// being gathered, and the word being read.
pub struct LexState {
    pub tokens: Seq<TokenView>,
    pub parts: Seq<Seq<char>>,
    pub word: Seq<char>,
}

pub open spec fn lex_start() -> LexState {
    LexState { tokens: seq![], parts: seq![], word: seq![] }
}

/// The word being read joins the phrase.
pub open spec fn flush_word(st: LexState) -> LexState {
    if st.word.len() > 0 {
        LexState { parts: st.parts.push(st.word), word: seq![], ..st }
    } else {
        st
    }
}

/// The phrase being gathered becomes a term.
pub open spec fn flush_term(st: LexState) -> LexState {
    if st.parts.len() > 0 {
        LexState { tokens: st.tokens.push(TokenView::Term(join_words(st.parts))), parts: seq![], ..st }
    } else {
        st
    }
}

/// The word being read ends: an operator word becomes its token, any
/// other word joins the phrase.
pub open spec fn end_word(st: LexState) -> LexState {
    if st.word.len() == 0 {
        st
    } else {
        match keyword_of(st.word) {
            Some(op) => {
                let st = flush_term(st);
                LexState { tokens: st.tokens.push(op), word: seq![], ..st }
            },
            None => flush_word(st),
        }
    }
}

/// The tokenizer reads one character.
pub open spec fn lex_step(st: LexState, c: char) -> LexState {
    if c == '(' || c == ')' {
        let st = flush_term(end_word(st));
        LexState {
            tokens: st.tokens.push(if c == '(' { TokenView::LParen } else { TokenView::RParen }),
            ..st
        }
    } else if c == ' ' || c == '\t' {
        end_word(st)
    } else {
        LexState { word: st.word.push(c), ..st }
    }
}

/// The state of the tokenizer after reading `s`.
pub open spec fn lex_state(s: Seq<char>) -> LexState
    decreases s.len(),
{
    if s.len() == 0 {
        lex_start()
    } else {
        lex_step(lex_state(s.drop_last()), s.last())
    }
}

/// The tokens of the query `s`.
pub open spec fn spec_tokenize(s: Seq<char>) -> Seq<TokenView> {
    flush_term(end_word(lex_state(s))).tokens
}

/// The tokenizer holds something: a token, a phrase word or a word.
pub open spec fn holds_something(st: LexState) -> bool {
    st.tokens.len() > 0 || st.parts.len() > 0 || st.word.len() > 0
}

proof fn lemma_lex_holds_something(s: Seq<char>, k: int)
    requires
        0 <= k < s.len(),
        s[k] != ' ' && s[k] != '\t',
    ensures
        holds_something(lex_state(s)),
    decreases s.len(),
{
    if k < s.len() - 1 {
        lemma_lex_holds_something(s.drop_last(), k);
    }
}

/// A query with a character other than a space or a tab has a token.
pub proof fn lemma_tokens_not_empty(s: Seq<char>, k: int)
    requires
        0 <= k < s.len(),
        s[k] != ' ' && s[k] != '\t',
    ensures
        spec_tokenize(s).len() > 0,
{
    lemma_lex_holds_something(s, k);
}

/// `c` is a space or a tab.
pub open spec fn is_separator(c: char) -> bool {
    c == ' ' || c == '\t'
}

/// `s` with its leading spaces and tabs dropped and every other run of
/// spaces and tabs made one space.
pub open spec fn collapse_separators(s: Seq<char>) -> Seq<char>
    decreases s.len(),
{
    if s.len() == 0 {
        seq![]
    } else {
        let n = collapse_separators(s.drop_last());
        if is_separator(s.last()) {
            if n.len() == 0 || n.last() == ' ' {
                n
            } else {
                n.push(' ')
            }
        } else {
            n.push(s.last())
        }
    }
}

proof fn lemma_lex_state_collapsed(s: Seq<char>)
    ensures
        lex_state(s) == lex_state(collapse_separators(s)),
        collapse_separators(s).len() > 0 && collapse_separators(s).last() == ' ' ==> lex_state(s).word.len() == 0,
    decreases s.len(),
{
    if s.len() > 0 {
        let p = s.drop_last();
        let c = s.last();
        let n = collapse_separators(p);
        lemma_lex_state_collapsed(p);
        if is_separator(c) {
            if n.len() == 0 || n.last() == ' ' {
            } else {
                assert(n.push(' ').drop_last() =~= n);
            }
        } else {
            assert(n.push(c).drop_last() =~= n);
        }
    }
}

/// Extra spaces and tabs never change the tokens: leading ones are dropped
/// and every other run of them separates like one space.
pub proof fn lemma_separator_runs_collapse(s: Seq<char>)
    ensures
        spec_tokenize(s) == spec_tokenize(collapse_separators(s)),
{
    lemma_lex_state_collapsed(s);
}

/// `c` neither separates words nor is a parenthesis.
pub open spec fn is_word_char(c: char) -> bool {
    c != '(' && c != ')' && c != ' ' && c != '\t'
}

proof fn lemma_lex_word_chars(s: Seq<char>, w: Seq<char>)
    requires
        forall|i: int| 0 <= i < w.len() ==> is_word_char(#[trigger] w[i]),
    ensures
        lex_state(s + w) == (LexState { word: lex_state(s).word + w, ..lex_state(s) }),
    decreases w.len(),
{
    if w.len() == 0 {
        assert(s + w =~= s);
        assert(lex_state(s).word + w =~= lex_state(s).word);
    } else {
        let v = w.drop_last();
        lemma_lex_word_chars(s, v);
        assert((s + w).drop_last() =~= s + v);
        assert((s + w).last() == w.last());
        assert(is_word_char(w[w.len() - 1]));
        assert((lex_state(s).word + v).push(w.last()) =~= lex_state(s).word + w);
    }
}

proof fn lemma_lex_plain_words(words: Seq<Seq<char>>)
    requires
        words.len() > 0,
        forall|i: int| 0 <= i < words.len() ==> (#[trigger] words[i]).len() > 0,
        forall|i: int, j: int| 0 <= i < words.len() && 0 <= j < words[i].len() ==> is_word_char(#[trigger] words[i][j]),
        forall|i: int| 0 <= i < words.len() - 1 ==> keyword_of(#[trigger] words[i]) is None,
    ensures
        lex_state(join_words(words)) == (LexState { tokens: seq![], parts: words.drop_last(), word: words.last() }),
    decreases words.len(),
{
    let w = words.last();
    assert forall|j: int| 0 <= j < w.len() implies is_word_char(#[trigger] w[j]) by {
        assert(is_word_char(words[words.len() - 1][j]));
    }
    if words.len() == 1 {
        lemma_lex_word_chars(seq![], w);
        assert(Seq::<char>::empty() + w =~= w);
        assert(words.drop_last() =~= Seq::<Seq<char>>::empty());
    } else {
        let prefix = words.drop_last();
        assert forall|i: int| 0 <= i < prefix.len() implies (#[trigger] prefix[i]).len() > 0 by {
            assert(prefix[i] == words[i]);
        }
        assert forall|i: int, j: int| 0 <= i < prefix.len() && 0 <= j < prefix[i].len() implies is_word_char(
            #[trigger] prefix[i][j],
        ) by {
            assert(prefix[i] == words[i]);
        }
        assert forall|i: int| 0 <= i < prefix.len() - 1 implies keyword_of(#[trigger] prefix[i]) is None by {
            assert(prefix[i] == words[i]);
        }
        lemma_lex_plain_words(prefix);
        let head = join_words(prefix);
        let spaced = head + seq![' '];
        assert(spaced.drop_last() =~= head);
        assert(keyword_of(prefix.last()) is None) by {
            assert(prefix.last() == words[words.len() - 2]);
        }
        assert(prefix.drop_last().push(prefix.last()) =~= prefix);
        lemma_lex_word_chars(spaced, w);
        assert(join_words(words) == spaced + w);
    }
}

/// Plain words without parentheses, separated by single spaces, form one
/// phrase term when none of them is an operator word.
pub proof fn lemma_plain_words_form_one_term(words: Seq<Seq<char>>)
    requires
        words.len() > 0,
        forall|i: int| 0 <= i < words.len() ==> (#[trigger] words[i]).len() > 0,
        forall|i: int, j: int| 0 <= i < words.len() && 0 <= j < words[i].len() ==> is_word_char(#[trigger] words[i][j]),
        forall|i: int| 0 <= i < words.len() ==> keyword_of(#[trigger] words[i]) is None,
    ensures
        spec_tokenize(join_words(words)) == seq![TokenView::Term(join_words(words))],
{
    lemma_lex_plain_words(words);
    assert(keyword_of(words[words.len() - 1]) is None);
    assert(words.drop_last().push(words.last()) =~= words);
}

proof fn lemma_letter_case(c1: char, c2: char, u: char, l: char)
    requires
        same_ignoring_ascii_case(c1, c2),
        'A' <= u <= 'Z',
        l as u32 == u as u32 + 32,
    ensures
        (c1 == u || c1 == l) == (c2 == u || c2 == l),
{
}

proof fn lemma_spells_ignore_case(w1: Seq<char>, w2: Seq<char>, upper: Seq<char>, lower: Seq<char>)
    requires
        w1.len() == w2.len(),
        forall|i: int| 0 <= i < w1.len() ==> #[trigger] same_ignoring_ascii_case(w1[i], w2[i]),
        upper.len() == lower.len(),
        forall|i: int| 0 <= i < upper.len() ==> 'A' <= #[trigger] upper[i] <= 'Z' && lower[i] as u32 == upper[i] as u32 + 32,
    ensures
        spells_keyword(w1, upper, lower) == spells_keyword(w2, upper, lower),
{
    if w1.len() == upper.len() {
        assert forall|i: int| 0 <= i < w1.len() implies (w1[i] == upper[i] || w1[i] == lower[i]) == (w2[i] == upper[i] || w2[i] == lower[i]) by {
            assert(same_ignoring_ascii_case(w1[i], w2[i]));
            assert('A' <= upper[i] <= 'Z');
            lemma_letter_case(w1[i], w2[i], upper[i], lower[i]);
        }
    }
}

/// Operator words are recognised whatever their ASCII letter case: two words
/// that differ only in the case of ASCII letters name the same operator, or
/// none.
pub proof fn lemma_keywords_ignore_case(w1: Seq<char>, w2: Seq<char>)
    requires
        w1.len() == w2.len(),
        forall|i: int| 0 <= i < w1.len() ==> #[trigger] same_ignoring_ascii_case(w1[i], w2[i]),
    ensures
        keyword_of(w1) == keyword_of(w2),
{
    let and_u = seq!['A', 'N', 'D'];
    let and_l = seq!['a', 'n', 'd'];
    let or_u = seq!['O', 'R'];
    let or_l = seq!['o', 'r'];
    let not_u = seq!['N', 'O', 'T'];
    let not_l = seq!['n', 'o', 't'];
    assert forall|i: int| 0 <= i < and_u.len() implies 'A' <= #[trigger] and_u[i] <= 'Z' && and_l[i] as u32 == and_u[i] as u32 + 32 by {}
    assert forall|i: int| 0 <= i < or_u.len() implies 'A' <= #[trigger] or_u[i] <= 'Z' && or_l[i] as u32 == or_u[i] as u32 + 32 by {}
    assert forall|i: int| 0 <= i < not_u.len() implies 'A' <= #[trigger] not_u[i] <= 'Z' && not_l[i] as u32 == not_u[i] as u32 + 32 by {}
    lemma_spells_ignore_case(w1, w2, and_u, and_l);
    lemma_spells_ignore_case(w1, w2, or_u, or_l);
    lemma_spells_ignore_case(w1, w2, not_u, not_l);
}

/// Every term among `ts` is ASCII text.
pub open spec fn tokens_ascii(ts: Seq<TokenView>) -> bool {
    forall|i: int| 0 <= i < ts.len() && (#[trigger] ts[i]) is Term ==> is_ascii_text(ts[i]->0)
}

/// Everything that the tokenizer holds is ASCII text.
pub open spec fn state_ascii(st: LexState) -> bool {
    &&& tokens_ascii(st.tokens)
    &&& forall|i: int| 0 <= i < st.parts.len() ==> is_ascii_text(#[trigger] st.parts[i])
    &&& is_ascii_text(st.word)
}

proof fn lemma_join_words_ascii(parts: Seq<Seq<char>>)
    requires
        forall|i: int| 0 <= i < parts.len() ==> is_ascii_text(#[trigger] parts[i]),
    ensures
        is_ascii_text(join_words(parts)),
    decreases parts.len(),
{
    if parts.len() > 1 {
        let p = parts.drop_last();
        assert forall|i: int| 0 <= i < p.len() implies is_ascii_text(#[trigger] p[i]) by {
            assert(p[i] == parts[i]);
        }
        lemma_join_words_ascii(p);
        let a = join_words(p);
        let l = parts.last();
        assert(is_ascii_text(l));
        let j = a + seq![' '] + l;
        assert forall|i: int| 0 <= i < j.len() implies (#[trigger] j[i] as u32) < 128 by {
            if i < a.len() {
                assert(j[i] == a[i]);
            } else if i > a.len() {
                assert(j[i] == l[i - a.len() - 1]);
            }
        }
    } else if parts.len() == 1 {
        assert(is_ascii_text(parts[0]));
    }
}

proof fn lemma_lex_step_ascii(st: LexState, c: char)
    requires
        state_ascii(st),
        (c as u32) < 128,
    ensures
        state_ascii(lex_step(st, c)),
{
    lemma_join_words_ascii(st.parts);
    if st.word.len() > 0 {
        let pw = st.parts.push(st.word);
        assert forall|i: int| 0 <= i < pw.len() implies is_ascii_text(#[trigger] pw[i]) by {
            if i < st.parts.len() {
                assert(pw[i] == st.parts[i]);
            }
        }
        lemma_join_words_ascii(pw);
    }
    let w = st.word.push(c);
    assert forall|i: int| 0 <= i < w.len() implies (#[trigger] w[i] as u32) < 128 by {
        if i < st.word.len() {
            assert(w[i] == st.word[i]);
        }
    }
    let e = end_word(st);
    assert(state_ascii(e));
    let f = flush_term(e);
    assert(state_ascii(f));
}

proof fn lemma_lex_state_ascii(s: Seq<char>)
    requires
        is_ascii_text(s),
    ensures
        state_ascii(lex_state(s)),
    decreases s.len(),
{
    if s.len() > 0 {
        let p = s.drop_last();
        assert forall|i: int| 0 <= i < p.len() implies (#[trigger] p[i] as u32) < 128 by {
            assert(p[i] == s[i]);
        }
        lemma_lex_state_ascii(p);
        assert((s.last() as u32) < 128) by {
            assert(s.last() == s[s.len() - 1]);
        }
        lemma_lex_step_ascii(lex_state(p), s.last());
    }
}

/// The terms of ASCII text are ASCII text.
pub proof fn lemma_tokenize_ascii(s: Seq<char>)
    requires
        is_ascii_text(s),
    ensures
        tokens_ascii(spec_tokenize(s)),
{
    lemma_lex_state_ascii(s);
    let st = lex_state(s);
    lemma_join_words_ascii(st.parts);
    if st.word.len() > 0 {
        let pw = st.parts.push(st.word);
        assert forall|i: int| 0 <= i < pw.len() implies is_ascii_text(#[trigger] pw[i]) by {
            if i < st.parts.len() {
                assert(pw[i] == st.parts[i]);
            }
        }
        lemma_join_words_ascii(pw);
    }
    assert(state_ascii(end_word(st)));
    assert(state_ascii(flush_term(end_word(st))));
}

/// The views of a sequence of words.
pub open spec fn words_view(ws: Seq<Vec<char>>) -> Seq<Seq<char>> {
    ws.map_values(|w: Vec<char>| w@)
}

/// The tokenizer state that the three buffers hold.
pub open spec fn state_of(tokens: Seq<Token>, parts: Seq<Vec<char>>, word: Seq<char>) -> LexState {
    LexState { tokens: tokens_view(tokens), parts: words_view(parts), word }
}

/// The words of `parts` joined by single spaces.
fn join_parts(parts: &Vec<Vec<char>>) -> (r: Vec<char>)
    ensures
        r@ == join_words(words_view(parts@)),
{
    let mut r: Vec<char> = Vec::new();
    let n = parts.len();
    for i in 0..n
        invariant
            n == parts.len(),
            r@ == join_words(words_view(parts@).take(i as int)),
    {
        proof {
            assert(words_view(parts@).take(i + 1).drop_last() =~= words_view(parts@).take(i as int));
        }
        if i > 0 {
            r.push(' ');
        }
        let w = &parts[i];
        let m = w.len();
        for j in 0..m
            invariant
                m == w.len(),
                i > 0 ==> r@ == join_words(words_view(parts@).take(i as int)) + seq![' '] + w@.take(j as int),
                i == 0 ==> r@ == w@.take(j as int),
        {
            proof {
                assert(w@.take(j + 1) =~= w@.take(j as int).push(w@[j as int]));
            }
            r.push(w[j]);
        }
        proof {
            assert(w@.take(m as int) =~= w@);
        }
    }
    proof {
        assert(words_view(parts@).take(n as int) =~= words_view(parts@));
    }
    r
}

/// Moves the word being read into the phrase, as `flush_word` says.
fn flush_word_exec(parts: &mut Vec<Vec<char>>, word: &mut Vec<char>)
    ensures
        words_view(final(parts)@) == flush_word(state_of(seq![], old(parts)@, old(word)@)).parts,
        final(word)@ == flush_word(state_of(seq![], old(parts)@, old(word)@)).word,
{
    if word.len() > 0 {
        let mut w: Vec<char> = Vec::new();
        std::mem::swap(&mut w, word);
        parts.push(w);
        proof {
            assert(words_view(parts@) =~= words_view(old(parts)@).push(w@));
        }
    }
}

/// Turns the phrase into a term token, as `flush_term` says.
fn flush_term_exec(tokens: &mut Vec<Token>, parts: &mut Vec<Vec<char>>)
    ensures
        tokens_view(final(tokens)@) == flush_term(state_of(old(tokens)@, old(parts)@, seq![])).tokens,
        words_view(final(parts)@) == flush_term(state_of(old(tokens)@, old(parts)@, seq![])).parts,
{
    if parts.len() > 0 {
        let joined = join_parts(parts);
        let t = Token::Term(string_from_chars(&joined));
        tokens.push(t);
        parts.clear();
        proof {
            assert(tokens_view(tokens@) =~= tokens_view(old(tokens)@).push(t@));
            assert(words_view(parts@) =~= Seq::<Seq<char>>::empty());
        }
    }
}

/// The operator token that `word` names, if any.
fn keyword_token(word: &Vec<char>) -> (res: Option<Token>)
    ensures
        match res {
            Some(t) => keyword_of(word@) == Some(t@),
            None => keyword_of(word@) is None,
        },
{
    let n = word.len();
    let and = n == 3 && (word[0] == 'A' || word[0] == 'a') && (word[1] == 'N' || word[1] == 'n')
        && (word[2] == 'D' || word[2] == 'd');
    let or = n == 2 && (word[0] == 'O' || word[0] == 'o') && (word[1] == 'R' || word[1] == 'r');
    let not = n == 3 && (word[0] == 'N' || word[0] == 'n') && (word[1] == 'O' || word[1] == 'o')
        && (word[2] == 'T' || word[2] == 't');
    proof {
        let w = word@;
        if spells_keyword(w, seq!['A', 'N', 'D'], seq!['a', 'n', 'd']) {
            assert(w[0] == 'A' || w[0] == 'a');
            assert(w[1] == 'N' || w[1] == 'n');
            assert(w[2] == 'D' || w[2] == 'd');
        }
        if and {
            assert(spells_keyword(w, seq!['A', 'N', 'D'], seq!['a', 'n', 'd']));
        }
        if spells_keyword(w, seq!['O', 'R'], seq!['o', 'r']) {
            assert(w[0] == 'O' || w[0] == 'o');
            assert(w[1] == 'R' || w[1] == 'r');
        }
        if or {
            assert(spells_keyword(w, seq!['O', 'R'], seq!['o', 'r']));
        }
        if spells_keyword(w, seq!['N', 'O', 'T'], seq!['n', 'o', 't']) {
            assert(w[0] == 'N' || w[0] == 'n');
            assert(w[1] == 'O' || w[1] == 'o');
            assert(w[2] == 'T' || w[2] == 't');
        }
        if not {
            assert(spells_keyword(w, seq!['N', 'O', 'T'], seq!['n', 'o', 't']));
        }
    }
    if and {
        Some(Token::And)
    } else if or {
        Some(Token::Or)
    } else if not {
        Some(Token::Not)
    } else {
        None
    }
}

/// Ends the word being read, as `end_word` says.
fn end_word_exec(tokens: &mut Vec<Token>, parts: &mut Vec<Vec<char>>, word: &mut Vec<char>)
    ensures
        state_of(final(tokens)@, final(parts)@, final(word)@) == end_word(
            state_of(old(tokens)@, old(parts)@, old(word)@),
        ),
{
    if word.len() > 0 {
        match keyword_token(word) {
            Some(op) => {
                flush_term_exec(tokens, parts);
                let ghost mid = tokens@;
                tokens.push(op);
                word.clear();
                proof {
                    assert(tokens_view(tokens@) =~= tokens_view(mid).push(op@));
                    assert(word@ =~= Seq::<char>::empty());
                }
            },
            None => {
                flush_word_exec(parts, word);
            },
        }
    }
}

/// Splits the query `input` into tokens.
pub fn tokenize(input: &str) -> (tokens: Vec<Token>)
    ensures
        tokens_view(tokens@) == spec_tokenize(input@),
{
    let chars = chars_of(input);
    let mut tokens: Vec<Token> = Vec::new();
    let mut parts: Vec<Vec<char>> = Vec::new();
    let mut word: Vec<char> = Vec::new();
    let n = chars.len();
    proof {
        assert(tokens_view(tokens@) =~= Seq::<TokenView>::empty());
        assert(words_view(parts@) =~= Seq::<Seq<char>>::empty());
        assert(chars@.take(0) =~= Seq::<char>::empty());
    }
    for i in 0..n
        invariant
            n == chars.len(),
            chars@ == input@,
            state_of(tokens@, parts@, word@) == lex_state(chars@.take(i as int)),
    {
        let ch = chars[i];
        let ghost before = state_of(tokens@, parts@, word@);
        proof {
            assert(chars@.take(i + 1).drop_last() =~= chars@.take(i as int));
        }
        if ch == '(' || ch == ')' {
            end_word_exec(&mut tokens, &mut parts, &mut word);
            flush_term_exec(&mut tokens, &mut parts);
            let t = if ch == '(' { Token::LParen } else { Token::RParen };
            let ghost mid = tokens@;
            tokens.push(t);
            proof {
                assert(tokens_view(tokens@) =~= tokens_view(mid).push(t@));
            }
        } else if ch == ' ' || ch == '\t' {
            end_word_exec(&mut tokens, &mut parts, &mut word);
        } else {
            word.push(ch);
        }
        assert(state_of(tokens@, parts@, word@) == lex_step(before, ch));
    }
    end_word_exec(&mut tokens, &mut parts, &mut word);
    flush_term_exec(&mut tokens, &mut parts);
    proof {
        assert(chars@.take(n as int) =~= chars@);
    }
    tokens
}

} // verus!
