//! Boolean expressions over search terms, and their recursive-descent parser.
//!
//! Precedence: `NOT` binds tightest, then `AND`, then `OR`; `AND` and `OR`
//! group to the left. Parentheses group; a missing closing parenthesis is
//! tolerated.

use vstd::prelude::*;
use crate::lexer::{Token, TokenView, tokens_view, tokens_ascii};
use crate::text::is_ascii_text;

verus! {

/// A parsed search expression.
pub enum SearchExpr {
    Term(String),
    Not(Box<SearchExpr>),
    And(Box<SearchExpr>, Box<SearchExpr>),
    Or(Box<SearchExpr>, Box<SearchExpr>),
}

/// What a search expression stands for.
pub enum ExprView {
    Term(Seq<char>),
    Not(Box<ExprView>),
    And(Box<ExprView>, Box<ExprView>),
    Or(Box<ExprView>, Box<ExprView>),
}

pub open spec fn expr_view(e: SearchExpr) -> ExprView
    decreases e,
{
    match e {
        SearchExpr::Term(s) => ExprView::Term(s@),
        SearchExpr::Not(inner) => ExprView::Not(Box::new(expr_view(*inner))),
        SearchExpr::And(l, r) => ExprView::And(Box::new(expr_view(*l)), Box::new(expr_view(*r))),
        SearchExpr::Or(l, r) => ExprView::Or(Box::new(expr_view(*l)), Box::new(expr_view(*r))),
    }
}

impl View for SearchExpr {
    type V = ExprView;

    open spec fn view(&self) -> ExprView {
        expr_view(*self)
    }
}

/// `OR`-separated conjunctions, starting at `pos`: the expression and the
/// position after it.
pub open spec fn spec_parse_or(t: Seq<TokenView>, pos: int) -> Option<(ExprView, int)>
    decreases t.len() - pos, 3int,
{
    match spec_parse_and(t, pos) {
        Some((left, p)) => if pos < p <= t.len() {
            spec_or_tail(t, left, p)
        } else {
            None
        },
        None => None,
    }
}

/// Further `OR` operands after `left`, which ends at `pos`.
pub open spec fn spec_or_tail(t: Seq<TokenView>, left: ExprView, pos: int) -> Option<(ExprView, int)>
    decreases t.len() - pos, 3int,
{
    if 0 <= pos < t.len() && t[pos] is Or {
        match spec_parse_and(t, pos + 1) {
            Some((right, p)) => if pos + 1 < p <= t.len() {
                spec_or_tail(t, ExprView::Or(Box::new(left), Box::new(right)), p)
            } else {
                None
            },
            None => None,
        }
    } else {
        Some((left, pos))
    }
}

/// `AND`-separated negations, starting at `pos`.
pub open spec fn spec_parse_and(t: Seq<TokenView>, pos: int) -> Option<(ExprView, int)>
    decreases t.len() - pos, 2int,
{
    match spec_parse_not(t, pos) {
        Some((left, p)) => if pos < p <= t.len() {
            spec_and_tail(t, left, p)
        } else {
            None
        },
        None => None,
    }
}

/// Further `AND` operands after `left`, which ends at `pos`.
pub open spec fn spec_and_tail(t: Seq<TokenView>, left: ExprView, pos: int) -> Option<(ExprView, int)>
    decreases t.len() - pos, 2int,
{
    if 0 <= pos < t.len() && t[pos] is And {
        match spec_parse_not(t, pos + 1) {
            Some((right, p)) => if pos + 1 < p <= t.len() {
                spec_and_tail(t, ExprView::And(Box::new(left), Box::new(right)), p)
            } else {
                None
            },
            None => None,
        }
    } else {
        Some((left, pos))
    }
}

/// Any number of `NOT`s before a primary expression, starting at `pos`.
pub open spec fn spec_parse_not(t: Seq<TokenView>, pos: int) -> Option<(ExprView, int)>
    decreases t.len() - pos, 1int,
{
    if 0 <= pos < t.len() && t[pos] is Not {
        match spec_parse_not(t, pos + 1) {
            Some((e, p)) => Some((ExprView::Not(Box::new(e)), p)),
            None => None,
        }
    } else {
        spec_parse_primary(t, pos)
    }
}

/// A term, or a parenthesised expression, starting at `pos`.
pub open spec fn spec_parse_primary(t: Seq<TokenView>, pos: int) -> Option<(ExprView, int)>
    decreases t.len() - pos, 0int,
{
    if 0 <= pos < t.len() {
        match t[pos] {
            TokenView::LParen => match spec_parse_or(t, pos + 1) {
                Some((e, p)) => if 0 <= p < t.len() && t[p] is RParen {
                    Some((e, p + 1))
                } else {
                    Some((e, p))
                },
                None => None,
            },
            TokenView::Term(s) => Some((ExprView::Term(s), pos + 1)),
            _ => None,
        }
    } else {
        None
    }
}

/// A whole query: an expression that uses up every token from `pos` on.
pub open spec fn spec_parse(t: Seq<TokenView>, pos: int) -> Option<ExprView> {
    match spec_parse_or(t, pos) {
        Some((e, p)) => if p < t.len() {
            None
        } else {
            Some(e)
        },
        None => None,
    }
}

proof fn lemma_or_tail_bounds(t: Seq<TokenView>, left: ExprView, pos: int)
    requires
        0 <= pos <= t.len(),
    ensures
        spec_or_tail(t, left, pos) matches Some((_, p)) ==> pos <= p <= t.len(),
    decreases t.len() - pos,
{
    if 0 <= pos < t.len() && t[pos] is Or {
        if let Some((right, p)) = spec_parse_and(t, pos + 1) {
            if pos + 1 < p <= t.len() {
                lemma_or_tail_bounds(t, ExprView::Or(Box::new(left), Box::new(right)), p);
            }
        }
    }
}

proof fn lemma_and_tail_bounds(t: Seq<TokenView>, left: ExprView, pos: int)
    requires
        0 <= pos <= t.len(),
    ensures
        spec_and_tail(t, left, pos) matches Some((_, p)) ==> pos <= p <= t.len(),
    decreases t.len() - pos,
{
    if 0 <= pos < t.len() && t[pos] is And {
        if let Some((right, p)) = spec_parse_not(t, pos + 1) {
            if pos + 1 < p <= t.len() {
                lemma_and_tail_bounds(t, ExprView::And(Box::new(left), Box::new(right)), p);
            }
        }
    }
}

/// Every successful parse, of whatever kind, reads at least one token and
/// ends within the tokens.
pub proof fn lemma_parse_progress(t: Seq<TokenView>, pos: int)
    requires
        0 <= pos,
    ensures
        spec_parse_or(t, pos) matches Some((_, p)) ==> pos < p <= t.len(),
        spec_parse_and(t, pos) matches Some((_, p)) ==> pos < p <= t.len(),
        spec_parse_not(t, pos) matches Some((_, p)) ==> pos < p <= t.len(),
        spec_parse_primary(t, pos) matches Some((_, p)) ==> pos < p <= t.len(),
    decreases t.len() - pos,
{
    if let Some((left, p)) = spec_parse_not(t, pos) {
        if pos < p <= t.len() {
            lemma_and_tail_bounds(t, left, p);
        }
    }
    if let Some((left, p)) = spec_parse_and(t, pos) {
        if pos < p <= t.len() {
            lemma_or_tail_bounds(t, left, p);
        }
    }
    if pos < t.len() {
        lemma_parse_progress(t, pos + 1);
    }
}

/// `NOT` may follow `AND`: `a AND NOT b` is `a AND (NOT b)`, and
/// `a OR NOT b` is `a OR (NOT b)`, whatever the terms.
pub proof fn lemma_negated_operand(a: Seq<char>, b: Seq<char>)
    ensures
        spec_parse(seq![TokenView::Term(a), TokenView::And, TokenView::Not, TokenView::Term(b)], 0)
            == Some(ExprView::And(
                Box::new(ExprView::Term(a)),
                Box::new(ExprView::Not(Box::new(ExprView::Term(b)))),
            )),
        spec_parse(seq![TokenView::Term(a), TokenView::Or, TokenView::Not, TokenView::Term(b)], 0)
            == Some(ExprView::Or(
                Box::new(ExprView::Term(a)),
                Box::new(ExprView::Not(Box::new(ExprView::Term(b)))),
            )),
{
    let ta = ExprView::Term(a);
    let tb = ExprView::Term(b);
    let nb = ExprView::Not(Box::new(tb));

    let t1 = seq![TokenView::Term(a), TokenView::And, TokenView::Not, TokenView::Term(b)];
    let anb = ExprView::And(Box::new(ta), Box::new(nb));
    assert(spec_parse_primary(t1, 0) == Some((ta, 1int)));
    assert(spec_parse_not(t1, 0) == Some((ta, 1int)));
    assert(spec_parse_primary(t1, 3) == Some((tb, 4int)));
    assert(spec_parse_not(t1, 3) == Some((tb, 4int)));
    assert(spec_parse_not(t1, 2) == Some((nb, 4int)));
    assert(spec_and_tail(t1, anb, 4) == Some((anb, 4int)));
    assert(spec_and_tail(t1, ta, 1) == Some((anb, 4int)));
    assert(spec_parse_and(t1, 0) == Some((anb, 4int)));
    assert(spec_or_tail(t1, anb, 4) == Some((anb, 4int)));
    assert(spec_parse_or(t1, 0) == Some((anb, 4int)));

    let t2 = seq![TokenView::Term(a), TokenView::Or, TokenView::Not, TokenView::Term(b)];
    let onb = ExprView::Or(Box::new(ta), Box::new(nb));
    assert(spec_parse_primary(t2, 0) == Some((ta, 1int)));
    assert(spec_parse_not(t2, 0) == Some((ta, 1int)));
    assert(spec_and_tail(t2, ta, 1) == Some((ta, 1int)));
    assert(spec_parse_and(t2, 0) == Some((ta, 1int)));
    assert(spec_parse_primary(t2, 3) == Some((tb, 4int)));
    assert(spec_parse_not(t2, 3) == Some((tb, 4int)));
    assert(spec_parse_not(t2, 2) == Some((nb, 4int)));
    assert(spec_and_tail(t2, nb, 4) == Some((nb, 4int)));
    assert(spec_parse_and(t2, 2) == Some((nb, 4int)));
    assert(spec_or_tail(t2, onb, 4) == Some((onb, 4int)));
    assert(spec_or_tail(t2, ta, 1) == Some((onb, 4int)));
    assert(spec_parse_or(t2, 0) == Some((onb, 4int)));
}

/// The right operand of `AND` is a whole negation: where an `AND` at `p` is
/// followed by a negation `r` that ends at `q`, the conjunction goes on
/// from `q` with `left AND r`.
pub proof fn lemma_and_operand_is_negation(t: Seq<TokenView>, left: ExprView, p: int, r: ExprView, q: int)
    requires
        0 <= p < t.len(),
        t[p] is And,
        spec_parse_not(t, p + 1) == Some((r, q)),
    ensures
        spec_and_tail(t, left, p) == spec_and_tail(t, ExprView::And(Box::new(left), Box::new(r)), q),
{
    lemma_parse_progress(t, p + 1);
}

/// `NOT` binds tighter than `AND`, and `AND` tighter than `OR`:
/// `a AND b OR c` is `(a AND b) OR c`, `a OR b AND c` is `a OR (b AND c)`,
/// and `NOT a AND b` is `(NOT a) AND b`, whatever the terms.
pub proof fn lemma_precedence(a: Seq<char>, b: Seq<char>, c: Seq<char>)
    ensures
        spec_parse(seq![TokenView::Term(a), TokenView::And, TokenView::Term(b), TokenView::Or, TokenView::Term(c)], 0)
            == Some(ExprView::Or(
                Box::new(ExprView::And(Box::new(ExprView::Term(a)), Box::new(ExprView::Term(b)))),
                Box::new(ExprView::Term(c)),
            )),
        spec_parse(seq![TokenView::Term(a), TokenView::Or, TokenView::Term(b), TokenView::And, TokenView::Term(c)], 0)
            == Some(ExprView::Or(
                Box::new(ExprView::Term(a)),
                Box::new(ExprView::And(Box::new(ExprView::Term(b)), Box::new(ExprView::Term(c)))),
            )),
        spec_parse(seq![TokenView::Not, TokenView::Term(a), TokenView::And, TokenView::Term(b)], 0)
            == Some(ExprView::And(
                Box::new(ExprView::Not(Box::new(ExprView::Term(a)))),
                Box::new(ExprView::Term(b)),
            )),
{
    let ta = ExprView::Term(a);
    let tb = ExprView::Term(b);
    let tc = ExprView::Term(c);

    let t1 = seq![TokenView::Term(a), TokenView::And, TokenView::Term(b), TokenView::Or, TokenView::Term(c)];
    let ab = ExprView::And(Box::new(ta), Box::new(tb));
    assert(spec_parse_primary(t1, 0) == Some((ta, 1int)));
    assert(spec_parse_not(t1, 0) == Some((ta, 1int)));
    assert(spec_parse_primary(t1, 2) == Some((tb, 3int)));
    assert(spec_parse_not(t1, 2) == Some((tb, 3int)));
    assert(spec_and_tail(t1, ab, 3) == Some((ab, 3int)));
    assert(spec_and_tail(t1, ta, 1) == Some((ab, 3int)));
    assert(spec_parse_and(t1, 0) == Some((ab, 3int)));
    assert(spec_parse_primary(t1, 4) == Some((tc, 5int)));
    assert(spec_parse_not(t1, 4) == Some((tc, 5int)));
    assert(spec_and_tail(t1, tc, 5) == Some((tc, 5int)));
    assert(spec_parse_and(t1, 4) == Some((tc, 5int)));
    let abc = ExprView::Or(Box::new(ab), Box::new(tc));
    assert(spec_or_tail(t1, abc, 5) == Some((abc, 5int)));
    assert(spec_or_tail(t1, ab, 3) == Some((abc, 5int)));
    assert(spec_parse_or(t1, 0) == Some((abc, 5int)));

    let t2 = seq![TokenView::Term(a), TokenView::Or, TokenView::Term(b), TokenView::And, TokenView::Term(c)];
    let bc = ExprView::And(Box::new(tb), Box::new(tc));
    assert(spec_parse_primary(t2, 0) == Some((ta, 1int)));
    assert(spec_parse_not(t2, 0) == Some((ta, 1int)));
    assert(spec_and_tail(t2, ta, 1) == Some((ta, 1int)));
    assert(spec_parse_and(t2, 0) == Some((ta, 1int)));
    assert(spec_parse_primary(t2, 2) == Some((tb, 3int)));
    assert(spec_parse_not(t2, 2) == Some((tb, 3int)));
    assert(spec_parse_primary(t2, 4) == Some((tc, 5int)));
    assert(spec_parse_not(t2, 4) == Some((tc, 5int)));
    assert(spec_and_tail(t2, bc, 5) == Some((bc, 5int)));
    assert(spec_and_tail(t2, tb, 3) == Some((bc, 5int)));
    assert(spec_parse_and(t2, 2) == Some((bc, 5int)));
    let a_bc = ExprView::Or(Box::new(ta), Box::new(bc));
    assert(spec_or_tail(t2, a_bc, 5) == Some((a_bc, 5int)));
    assert(spec_or_tail(t2, ta, 1) == Some((a_bc, 5int)));
    assert(spec_parse_or(t2, 0) == Some((a_bc, 5int)));

    let t3 = seq![TokenView::Not, TokenView::Term(a), TokenView::And, TokenView::Term(b)];
    let na = ExprView::Not(Box::new(ta));
    let nab = ExprView::And(Box::new(na), Box::new(tb));
    assert(spec_parse_primary(t3, 1) == Some((ta, 2int)));
    assert(spec_parse_not(t3, 1) == Some((ta, 2int)));
    assert(spec_parse_not(t3, 0) == Some((na, 2int)));
    assert(spec_parse_primary(t3, 3) == Some((tb, 4int)));
    assert(spec_parse_not(t3, 3) == Some((tb, 4int)));
    assert(spec_and_tail(t3, nab, 4) == Some((nab, 4int)));
    assert(spec_and_tail(t3, na, 2) == Some((nab, 4int)));
    assert(spec_parse_and(t3, 0) == Some((nab, 4int)));
    assert(spec_or_tail(t3, nab, 4) == Some((nab, 4int)));
    assert(spec_parse_or(t3, 0) == Some((nab, 4int)));
}

/// Every term of `e` is ASCII text.
pub open spec fn expr_is_ascii(e: ExprView) -> bool
    decreases e,
{
    match e {
        ExprView::Term(t) => is_ascii_text(t),
        ExprView::Not(inner) => expr_is_ascii(*inner),
        ExprView::And(l, r) => expr_is_ascii(*l) && expr_is_ascii(*r),
        ExprView::Or(l, r) => expr_is_ascii(*l) && expr_is_ascii(*r),
    }
}

proof fn lemma_or_tail_ascii(t: Seq<TokenView>, left: ExprView, pos: int)
    requires
        tokens_ascii(t),
        expr_is_ascii(left),
        0 <= pos,
    ensures
        spec_or_tail(t, left, pos) matches Some((e, _)) ==> expr_is_ascii(e),
    decreases t.len() - pos, 0int,
{
    if pos < t.len() && t[pos] is Or {
        lemma_parse_ascii(t, pos + 1);
        if let Some((right, p)) = spec_parse_and(t, pos + 1) {
            if pos + 1 < p <= t.len() {
                lemma_or_tail_ascii(t, ExprView::Or(Box::new(left), Box::new(right)), p);
            }
        }
    }
}

proof fn lemma_and_tail_ascii(t: Seq<TokenView>, left: ExprView, pos: int)
    requires
        tokens_ascii(t),
        expr_is_ascii(left),
        0 <= pos,
    ensures
        spec_and_tail(t, left, pos) matches Some((e, _)) ==> expr_is_ascii(e),
    decreases t.len() - pos, 0int,
{
    if pos < t.len() && t[pos] is And {
        lemma_parse_ascii(t, pos + 1);
        if let Some((right, p)) = spec_parse_not(t, pos + 1) {
            if pos + 1 < p <= t.len() {
                lemma_and_tail_ascii(t, ExprView::And(Box::new(left), Box::new(right)), p);
            }
        }
    }
}

/// Parsing tokens whose terms are ASCII text gives expressions whose terms
/// are ASCII text.
pub proof fn lemma_parse_ascii(t: Seq<TokenView>, pos: int)
    requires
        tokens_ascii(t),
        0 <= pos,
    ensures
        spec_parse_or(t, pos) matches Some((e, _)) ==> expr_is_ascii(e),
        spec_parse_and(t, pos) matches Some((e, _)) ==> expr_is_ascii(e),
        spec_parse_not(t, pos) matches Some((e, _)) ==> expr_is_ascii(e),
        spec_parse_primary(t, pos) matches Some((e, _)) ==> expr_is_ascii(e),
        spec_parse(t, pos) matches Some(e) ==> expr_is_ascii(e),
    decreases t.len() - pos, 1int,
{
    if pos < t.len() {
        lemma_parse_ascii(t, pos + 1);
        assert(t[pos] is Term ==> is_ascii_text(t[pos]->0));
    }
    if let Some((left, p)) = spec_parse_not(t, pos) {
        if pos < p <= t.len() {
            lemma_and_tail_ascii(t, left, p);
        }
    }
    if let Some((left, p)) = spec_parse_and(t, pos) {
        if pos < p <= t.len() {
            lemma_or_tail_ascii(t, left, p);
        }
    }
}

/// A recursive-descent parser over a token list.
pub struct Parser {
    pub tokens: Vec<Token>,
    pub pos: usize,
}

impl Parser {
    /// The views of the tokens.
    pub open spec fn toks(&self) -> Seq<TokenView> {
        tokens_view(self.tokens@)
    }

    /// The token at the current position, if any.
    pub fn peek(&self) -> (res: Option<&Token>)
        ensures
            self.pos < self.tokens.len() ==> res == Some(&self.tokens@[self.pos as int]),
            self.pos >= self.tokens.len() ==> res is None,
    {
        if self.pos < self.tokens.len() {
            Some(&self.tokens[self.pos])
        } else {
            None
        }
    }

    /// Steps past the current token.
    pub fn advance(&mut self)
        requires
            old(self).pos < usize::MAX,
        ensures
            final(self).tokens == old(self).tokens,
            final(self).pos == old(self).pos + 1,
    {
        self.pos += 1;
    }

    /// Whether the current token is `OR`.
    fn at_or(&self) -> (res: bool)
        ensures
            res == (self.pos < self.tokens.len() && self.toks()[self.pos as int] is Or),
    {
        match self.peek() {
            Some(Token::Or) => true,
            _ => false,
        }
    }

    /// Whether the current token is `AND`.
    fn at_and(&self) -> (res: bool)
        ensures
            res == (self.pos < self.tokens.len() && self.toks()[self.pos as int] is And),
    {
        match self.peek() {
            Some(Token::And) => true,
            _ => false,
        }
    }

    /// Whether the current token is `NOT`.
    fn at_not(&self) -> (res: bool)
        ensures
            res == (self.pos < self.tokens.len() && self.toks()[self.pos as int] is Not),
    {
        match self.peek() {
            Some(Token::Not) => true,
            _ => false,
        }
    }

    /// Whether the current token is a closing parenthesis.
    fn at_rparen(&self) -> (res: bool)
        ensures
            res == (self.pos < self.tokens.len() && self.toks()[self.pos as int] is RParen),
    {
        match self.peek() {
            Some(Token::RParen) => true,
            _ => false,
        }
    }

    /// Parses the whole token list from the current position: `None` when
    /// the tokens do not form an expression, or when tokens are left over.
    pub fn parse(self) -> (res: Option<SearchExpr>)
        ensures
            match spec_parse(self.toks(), self.pos as int) {
                Some(e) => res matches Some(r) && r@ == e,
                None => res is None,
            },
    {
        let mut this = self;
        let expr = this.parse_or();
        if expr.is_some() && this.pos < this.tokens.len() {
            return None;
        }
        expr
    }

    /// Parses `OR`-separated conjunctions.
    pub fn parse_or(&mut self) -> (res: Option<SearchExpr>)
        ensures
            final(self).tokens == old(self).tokens,
            match spec_parse_or(old(self).toks(), old(self).pos as int) {
                Some((e, p)) => res matches Some(r) && r@ == e && final(self).pos == p,
                None => res is None,
            },
            old(self).pos <= old(self).tokens.len() ==> final(self).pos <= final(self).tokens.len(),
        decreases old(self).tokens.len() - old(self).pos, 3int,
    {
        let ghost t = self.toks();
        let ghost pos0 = self.pos as int;
        proof {
            lemma_parse_progress(t, pos0);
        }
        let mut left = match self.parse_and() {
            Some(l) => l,
            None => return None,
        };
        loop
            invariant
                self.tokens == old(self).tokens,
                self.toks() == t,
                t == old(self).toks(),
                pos0 == old(self).pos,
                pos0 < self.pos <= self.tokens.len(),
                spec_parse_or(t, pos0) == spec_or_tail(t, left@, self.pos as int),
            decreases self.tokens.len() - self.pos,
        {
            if !self.at_or() {
                return Some(left);
            }
            self.advance();
            proof {
                lemma_parse_progress(t, self.pos as int);
            }
            let right = match self.parse_and() {
                Some(r) => r,
                None => return None,
            };
            left = SearchExpr::Or(Box::new(left), Box::new(right));
        }
    }

    /// Parses `AND`-separated negations.
    pub fn parse_and(&mut self) -> (res: Option<SearchExpr>)
        ensures
            final(self).tokens == old(self).tokens,
            match spec_parse_and(old(self).toks(), old(self).pos as int) {
                Some((e, p)) => res matches Some(r) && r@ == e && final(self).pos == p,
                None => res is None,
            },
            old(self).pos <= old(self).tokens.len() ==> final(self).pos <= final(self).tokens.len(),
        decreases old(self).tokens.len() - old(self).pos, 2int,
    {
        let ghost t = self.toks();
        let ghost pos0 = self.pos as int;
        proof {
            lemma_parse_progress(t, pos0);
        }
        let mut left = match self.parse_not() {
            Some(l) => l,
            None => return None,
        };
        loop
            invariant
                self.tokens == old(self).tokens,
                self.toks() == t,
                t == old(self).toks(),
                pos0 == old(self).pos,
                pos0 < self.pos <= self.tokens.len(),
                spec_parse_and(t, pos0) == spec_and_tail(t, left@, self.pos as int),
            decreases self.tokens.len() - self.pos,
        {
            if !self.at_and() {
                return Some(left);
            }
            self.advance();
            proof {
                lemma_parse_progress(t, self.pos as int);
            }
            let right = match self.parse_not() {
                Some(r) => r,
                None => return None,
            };
            left = SearchExpr::And(Box::new(left), Box::new(right));
        }
    }

    /// Parses any number of `NOT`s before a primary expression.
    pub fn parse_not(&mut self) -> (res: Option<SearchExpr>)
        ensures
            final(self).tokens == old(self).tokens,
            match spec_parse_not(old(self).toks(), old(self).pos as int) {
                Some((e, p)) => res matches Some(r) && r@ == e && final(self).pos == p,
                None => res is None,
            },
            old(self).pos <= old(self).tokens.len() ==> final(self).pos <= final(self).tokens.len(),
        decreases old(self).tokens.len() - old(self).pos, 1int,
    {
        if self.at_not() {
            self.advance();
            let expr = match self.parse_not() {
                Some(e) => e,
                None => return None,
            };
            return Some(SearchExpr::Not(Box::new(expr)));
        }
        self.parse_primary()
    }

    /// Parses a term, or a parenthesised expression whose closing
    /// parenthesis may be missing.
    pub fn parse_primary(&mut self) -> (res: Option<SearchExpr>)
        ensures
            final(self).tokens == old(self).tokens,
            match spec_parse_primary(old(self).toks(), old(self).pos as int) {
                Some((e, p)) => res matches Some(r) && r@ == e && final(self).pos == p,
                None => res is None,
            },
            old(self).pos <= old(self).tokens.len() ==> final(self).pos <= final(self).tokens.len(),
            res is None && !(old(self).pos < old(self).tokens.len() && old(self).toks()[old(self).pos as int] is LParen)
                ==> final(self).pos == old(self).pos,
        decreases old(self).tokens.len() - old(self).pos, 0int,
    {
        let term = match self.peek() {
            None => return None,
            Some(Token::LParen) => None,
            Some(Token::Term(s)) => Some(s.clone()),
            Some(_) => return None,
        };
        match term {
            Some(s) => {
                self.pos += 1;
                Some(SearchExpr::Term(s))
            },
            None => {
                self.advance();
                let expr = match self.parse_or() {
                    Some(e) => e,
                    None => return None,
                };
                if self.at_rparen() {
                    self.advance();
                }
                Some(expr)
            },
        }
    }
}

} // verus!
