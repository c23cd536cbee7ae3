//! The parser: a recursive-descent pass that turns a token sequence into a
//! single expression tree under strict operator-precedence rules.
//!
//! The grammar, lowest binding first:
//! ```text
//! expression  := equality
//! equality    := comparison ( ("!=" | "==") comparison )*
//! comparison  := term ( ("<" | ">" | "<=" | ">=") term )*
//! term        := factor ( ("-" | "+") factor )*
//! factor      := unary ( ("/" | "*") unary )*
//! unary       := ("!" | "-") unary | primary
//! primary     := FALSE | TRUE | NIL | NUMBER | STRING | "(" expression ")"
//! ```
//!
//! The mathematical model is a family of spec functions, one per precedence
//! level; the four binary levels share `sp_level`, told apart by a level
//! index (5 = equality down to 2 = factor). Each executable method is proved
//! to return exactly the model's result: the same tree on success, the same
//! offending token and message on a syntax error. Syntax errors are fatal to
//! the parse: no partial tree is produced.

use crate::exprs::{Expr, LiteralValue, SpecExpr, SpecLiteralValue};
use crate::scanner::is_digit_char;
use crate::tokens::{SpecToken, Token, TokenType, toks_of};
use vstd::prelude::*;
use vstd::string::StrSliceExecFns;
use vstd::string::StringExecFns;

verus! {

/// A fatal syntax error: the offending token and an expectation message.
#[derive(Debug)]
pub struct ParseError {
    pub token: Token,
    pub msg: String,
}

/// Mathematical model of a syntax error.
#[verifier::ext_equal]
pub struct SpecParseError {
    pub token: SpecToken,
    pub msg: Seq<char>,
}

impl View for ParseError {
    type V = SpecParseError;

    open spec fn view(&self) -> SpecParseError {
        SpecParseError { token: self.token@, msg: self.msg@ }
    }
}

// ---------------------------------------------------------------------------
// Canonical number text
// ---------------------------------------------------------------------------

/// Every character in `s` is a decimal digit.
pub open spec fn all_digits(s: Seq<char>) -> bool {
    forall|k: int| 0 <= k < s.len() ==> is_digit_char(s[k])
}

/// The position of the first dot at or after `i`, or the end of the text.
pub open spec fn dot_pos(s: Seq<char>, i: int) -> int
    decreases s.len() - i,
        when 0 <= i <= s.len()
{
    if i < s.len() && s[i] != '.' {
        dot_pos(s, i + 1)
    } else {
        i
    }
}

/// A numeric literal as the scanner produces it: one or more digits,
/// optionally followed by a dot and one or more digits.
pub open spec fn is_number_text(s: Seq<char>) -> bool {
    let d = dot_pos(s, 0);
    if d == s.len() {
        s.len() > 0 && all_digits(s)
    } else {
        &&& 0 < d
        &&& d + 1 < s.len()
        &&& all_digits(s.subrange(0, d))
        &&& all_digits(s.subrange(d + 1, s.len() as int))
    }
}

/// The start of the integer part once leading zeros are dropped, keeping at
/// least the digit just before `hi`.
pub open spec fn lead_zeros_end(s: Seq<char>, i: int, hi: int) -> int
    decreases hi - i,
        when 0 <= i <= hi
{
    if i + 1 < hi && s[i] == '0' {
        lead_zeros_end(s, i + 1, hi)
    } else {
        i
    }
}

/// The end of the fraction once trailing zeros are dropped, moving down to
/// `lo` at the furthest.
pub open spec fn trail_zeros_start(s: Seq<char>, j: int, lo: int) -> int
    decreases j - lo,
        when lo <= j
{
    if j > lo && s[j - 1] == '0' {
        trail_zeros_start(s, j - 1, lo)
    } else {
        j
    }
}

/// The canonical decimal text of a numeric literal: leading zeros of the
/// integer part dropped (keeping at least one digit), trailing zeros of the
/// fraction dropped, and the dot dropped when the fraction becomes empty.
/// Text that is no numeric literal is left unchanged.
pub open spec fn canon_number(s: Seq<char>) -> Seq<char> {
    if !is_number_text(s) {
        s
    } else {
        let d = dot_pos(s, 0);
        let a = lead_zeros_end(s, 0, d);
        if d == s.len() {
            s.subrange(a, d)
        } else {
            let b = trail_zeros_start(s, s.len() as int, d + 1);
            if b == d + 1 {
                s.subrange(a, d)
            } else {
                s.subrange(a, d) + seq!['.'] + s.subrange(d + 1, b)
            }
        }
    }
}

// ---------------------------------------------------------------------------
// The grammar, one spec function per precedence level
// ---------------------------------------------------------------------------

/// What a parse step yields: a tree and the position just past it, or the
/// offending token and message of a fatal syntax error.
#[verifier::ext_equal]
pub enum POut {
    Parsed { e: SpecExpr, next: int },
    Failure { tok: SpecToken, msg: Seq<char> },
}

/// The operator set of each binary precedence level: 5 = equality,
/// 4 = comparison, 3 = term, 2 = factor.
pub open spec fn level_op(lvl: int, k: TokenType) -> bool {
    if lvl == 5 {
        k == TokenType::BANG_EQUAL || k == TokenType::EQUAL_EQUAL
    } else if lvl == 4 {
        ||| k == TokenType::GREATER
        ||| k == TokenType::GREATER_EQUAL
        ||| k == TokenType::LESS
        ||| k == TokenType::LESS_EQUAL
    } else if lvl == 3 {
        k == TokenType::MINUS || k == TokenType::PLUS
    } else {
        k == TokenType::SLASH || k == TokenType::STAR
    }
}

/// An expression: the lowest-binding level.
pub open spec fn sp_expression(t: Seq<SpecToken>, i: int) -> POut
    decreases t.len() - i, 6int,
        when 0 <= i <= t.len()
{
    sp_level(t, i, 5)
}

/// One binary precedence level: one operand at the next tighter level, then
/// any number of (operator, operand) pairs folded to the left.
pub open spec fn sp_level(t: Seq<SpecToken>, i: int, lvl: int) -> POut
    decreases t.len() - i, lvl,
        when 0 <= i <= t.len() && 2 <= lvl <= 5
{
    if i >= t.len() {
        POut::Failure { tok: t[i], msg: "Expected expression"@ }
    } else {
        let first = if lvl == 2 {
            sp_unary(t, i)
        } else {
            sp_level(t, i, lvl - 1)
        };
        match first {
            POut::Parsed { e, next } => sp_level_rest(
                t,
                lvl,
                e,
                if i < next <= t.len() {
                    next
                } else {
                    t.len() as int
                },
            ),
            f => f,
        }
    }
}

/// The fold of one binary level: while the token at `j` belongs to the
/// level's operator set, consume it, parse the next tighter operand, and fold
/// the accumulated tree into a new Binary node on the left.
pub open spec fn sp_level_rest(t: Seq<SpecToken>, lvl: int, acc: SpecExpr, j: int) -> POut
    decreases t.len() - j, lvl,
        when 0 <= j <= t.len() && 2 <= lvl <= 5
{
    if j < t.len() && level_op(lvl, t[j].kind) {
        let rhs = if lvl == 2 {
            sp_unary(t, j + 1)
        } else {
            sp_level(t, j + 1, lvl - 1)
        };
        match rhs {
            POut::Parsed { e, next } => sp_level_rest(
                t,
                lvl,
                SpecExpr::Binary { left: Box::new(acc), operator: t[j], right: Box::new(e) },
                if j + 1 < next <= t.len() {
                    next
                } else {
                    t.len() as int
                },
            ),
            f => f,
        }
    } else {
        POut::Parsed { e: acc, next: j }
    }
}

/// A unary expression: any number of `!` or `-` prefixes, right-recursive,
/// around a primary expression.
pub open spec fn sp_unary(t: Seq<SpecToken>, i: int) -> POut
    decreases t.len() - i, 1int,
        when 0 <= i <= t.len()
{
    if i < t.len() && (t[i].kind == TokenType::BANG || t[i].kind == TokenType::MINUS) {
        match sp_unary(t, i + 1) {
            POut::Parsed { e, next } => POut::Parsed {
                e: SpecExpr::Unary { operator: t[i], right: Box::new(e) },
                next,
            },
            f => f,
        }
    } else {
        sp_primary(t, i)
    }
}

/// A primary expression: a literal, or a parenthesized expression that must
/// be closed; any other token is a fatal syntax error.
pub open spec fn sp_primary(t: Seq<SpecToken>, i: int) -> POut
    decreases t.len() - i, 0int,
        when 0 <= i <= t.len()
{
    if i < t.len() && t[i].kind == TokenType::FALSE {
        POut::Parsed {
            e: SpecExpr::Literal { literal: SpecLiteralValue::Boolean(false) },
            next: i + 1,
        }
    } else if i < t.len() && t[i].kind == TokenType::TRUE {
        POut::Parsed {
            e: SpecExpr::Literal { literal: SpecLiteralValue::Boolean(true) },
            next: i + 1,
        }
    } else if i < t.len() && t[i].kind == TokenType::NIL {
        POut::Parsed { e: SpecExpr::Literal { literal: SpecLiteralValue::Null }, next: i + 1 }
    } else if i < t.len() && t[i].kind == TokenType::NUMBER {
        POut::Parsed {
            e: SpecExpr::Literal {
                literal: SpecLiteralValue::Number(canon_number(t[i].literal)),
            },
            next: i + 1,
        }
    } else if i < t.len() && t[i].kind == TokenType::STRING {
        POut::Parsed {
            e: SpecExpr::Literal { literal: SpecLiteralValue::Str(t[i].literal) },
            next: i + 1,
        }
    } else if i < t.len() && t[i].kind == TokenType::LEFT_PAREN {
        match sp_expression(t, i + 1) {
            POut::Parsed { e, next } => {
                if 0 <= next < t.len() && t[next].kind == TokenType::RIGHT_PAREN {
                    POut::Parsed {
                        e: SpecExpr::Grouping { expression: Box::new(e) },
                        next: next + 1,
                    }
                } else {
                    POut::Failure {
                        tok: if 0 <= next < t.len() {
                            t[next]
                        } else {
                            t[i]
                        },
                        msg: "Expect ')' after expression."@,
                    }
                }
            },
            f => f,
        }
    } else {
        POut::Failure { tok: t[i], msg: "Expected expression"@ }
    }
}

// ---------------------------------------------------------------------------
// Progress: a successful parse consumes at least one token and stays within
// the sequence
// ---------------------------------------------------------------------------

/// An expression parse that succeeds moves the position strictly forward and
/// never past the end.
pub proof fn lemma_expression_progress(t: Seq<SpecToken>, i: int)
    requires
        0 <= i <= t.len(),
    ensures
        sp_expression(t, i) matches POut::Parsed { e, next } ==> i < next <= t.len(),
    decreases t.len() - i, 6int,
{
    lemma_level_progress(t, i, 5);
}

/// A binary-level parse that succeeds moves the position strictly forward
/// and never past the end.
pub proof fn lemma_level_progress(t: Seq<SpecToken>, i: int, lvl: int)
    requires
        0 <= i <= t.len(),
        2 <= lvl <= 5,
    ensures
        sp_level(t, i, lvl) matches POut::Parsed { e, next } ==> i < next <= t.len(),
    decreases t.len() - i, lvl,
{
    if i < t.len() {
        if lvl == 2 {
            lemma_unary_progress(t, i);
        } else {
            lemma_level_progress(t, i, lvl - 1);
        }
        let first = if lvl == 2 {
            sp_unary(t, i)
        } else {
            sp_level(t, i, lvl - 1)
        };
        match first {
            POut::Parsed { e, next } => {
                lemma_level_rest_progress(t, lvl, e, next);
            },
            POut::Failure { .. } => {},
        }
    }
}

/// A binary-level fold that succeeds never moves the position backwards nor
/// past the end.
pub proof fn lemma_level_rest_progress(t: Seq<SpecToken>, lvl: int, acc: SpecExpr, j: int)
    requires
        0 <= j <= t.len(),
        2 <= lvl <= 5,
    ensures
        sp_level_rest(t, lvl, acc, j) matches POut::Parsed { e, next } ==> j <= next <= t.len(),
    decreases t.len() - j, lvl,
{
    if j < t.len() && level_op(lvl, t[j].kind) {
        if lvl == 2 {
            lemma_unary_progress(t, j + 1);
        } else {
            lemma_level_progress(t, j + 1, lvl - 1);
        }
        let rhs = if lvl == 2 {
            sp_unary(t, j + 1)
        } else {
            sp_level(t, j + 1, lvl - 1)
        };
        match rhs {
            POut::Parsed { e, next } => {
                lemma_level_rest_progress(
                    t,
                    lvl,
                    SpecExpr::Binary { left: Box::new(acc), operator: t[j], right: Box::new(e) },
                    next,
                );
            },
            POut::Failure { .. } => {},
        }
    }
}

/// A unary parse that succeeds moves the position strictly forward and never
/// past the end.
pub proof fn lemma_unary_progress(t: Seq<SpecToken>, i: int)
    requires
        0 <= i <= t.len(),
    ensures
        sp_unary(t, i) matches POut::Parsed { e, next } ==> i < next <= t.len(),
    decreases t.len() - i, 1int,
{
    if i < t.len() && (t[i].kind == TokenType::BANG || t[i].kind == TokenType::MINUS) {
        lemma_unary_progress(t, i + 1);
    } else {
        lemma_primary_progress(t, i);
    }
}

/// A primary parse that succeeds moves the position strictly forward and
/// never past the end.
pub proof fn lemma_primary_progress(t: Seq<SpecToken>, i: int)
    requires
        0 <= i <= t.len(),
    ensures
        sp_primary(t, i) matches POut::Parsed { e, next } ==> i < next <= t.len(),
    decreases t.len() - i, 0int,
{
    if i < t.len() && t[i].kind == TokenType::LEFT_PAREN {
        lemma_expression_progress(t, i + 1);
    }
}

// ---------------------------------------------------------------------------
// Laws of the parse
// ---------------------------------------------------------------------------

/// Law: the term level folds strictly to the left. For any three number
/// tokens `a`, `b`, `c` and any two minus tokens `m1`, `m2`, the stream
/// `a m1 b m2 c <end>` parses to `((a - b) - c)` — a Binary whose left child
/// is the Binary of `a` and `b` — never to `(a - (b - c))`.
pub proof fn lemma_term_left_associative(
    a: SpecToken,
    m1: SpecToken,
    b: SpecToken,
    m2: SpecToken,
    c: SpecToken,
    eof: SpecToken,
)
    requires
        a.kind == TokenType::NUMBER,
        b.kind == TokenType::NUMBER,
        c.kind == TokenType::NUMBER,
        m1.kind == TokenType::MINUS,
        m2.kind == TokenType::MINUS,
        eof.kind == TokenType::EOF,
    ensures
        ({
            let t = seq![a, m1, b, m2, c, eof];
            let la = SpecExpr::Literal {
                literal: SpecLiteralValue::Number(canon_number(a.literal)),
            };
            let lb = SpecExpr::Literal {
                literal: SpecLiteralValue::Number(canon_number(b.literal)),
            };
            let lc = SpecExpr::Literal {
                literal: SpecLiteralValue::Number(canon_number(c.literal)),
            };
            sp_expression(t, 0) == POut::Parsed {
                e: SpecExpr::Binary {
                    left: Box::new(
                        SpecExpr::Binary {
                            left: Box::new(la),
                            operator: m1,
                            right: Box::new(lb),
                        },
                    ),
                    operator: m2,
                    right: Box::new(lc),
                },
                next: 5,
            }
        }),
{
    let t = seq![a, m1, b, m2, c, eof];
    let la = SpecExpr::Literal { literal: SpecLiteralValue::Number(canon_number(a.literal)) };
    let lb = SpecExpr::Literal { literal: SpecLiteralValue::Number(canon_number(b.literal)) };
    let lc = SpecExpr::Literal { literal: SpecLiteralValue::Number(canon_number(c.literal)) };
    let bin1 = SpecExpr::Binary { left: Box::new(la), operator: m1, right: Box::new(lb) };
    let bin2 = SpecExpr::Binary { left: Box::new(bin1), operator: m2, right: Box::new(lc) };
    assert(sp_primary(t, 0) == POut::Parsed { e: la, next: 1 });
    assert(sp_primary(t, 2) == POut::Parsed { e: lb, next: 3 });
    assert(sp_primary(t, 4) == POut::Parsed { e: lc, next: 5 });
    assert(sp_unary(t, 0) == POut::Parsed { e: la, next: 1 });
    assert(sp_unary(t, 2) == POut::Parsed { e: lb, next: 3 });
    assert(sp_unary(t, 4) == POut::Parsed { e: lc, next: 5 });
    assert(sp_level_rest(t, 2, la, 1) == POut::Parsed { e: la, next: 1 });
    assert(sp_level(t, 0, 2) == POut::Parsed { e: la, next: 1 });
    assert(sp_level_rest(t, 2, lb, 3) == POut::Parsed { e: lb, next: 3 });
    assert(sp_level(t, 2, 2) == POut::Parsed { e: lb, next: 3 });
    assert(sp_level_rest(t, 2, lc, 5) == POut::Parsed { e: lc, next: 5 });
    assert(sp_level(t, 4, 2) == POut::Parsed { e: lc, next: 5 });
    assert(sp_level_rest(t, 3, bin2, 5) == POut::Parsed { e: bin2, next: 5 });
    assert(sp_level_rest(t, 3, bin1, 3) == POut::Parsed { e: bin2, next: 5 });
    assert(sp_level_rest(t, 3, la, 1) == POut::Parsed { e: bin2, next: 5 });
    assert(sp_level(t, 0, 3) == POut::Parsed { e: bin2, next: 5 });
    assert(sp_level_rest(t, 4, bin2, 5) == POut::Parsed { e: bin2, next: 5 });
    assert(sp_level(t, 0, 4) == POut::Parsed { e: bin2, next: 5 });
    assert(sp_level_rest(t, 5, bin2, 5) == POut::Parsed { e: bin2, next: 5 });
    assert(sp_level(t, 0, 5) == POut::Parsed { e: bin2, next: 5 });
}

// ---------------------------------------------------------------------------
// Canonical number text, executably
// ---------------------------------------------------------------------------

/// Whether every character of `s` in positions `lo` up to `hi` is a digit.
#[verifier::loop_isolation(false)]
fn digits_range(s: &str, lo: usize, hi: usize) -> (b: bool)
    requires
        lo <= hi,
        hi as int <= s@.len(),
    ensures
        b == all_digits(s@.subrange(lo as int, hi as int)),
{
    let mut k: usize = lo;
    while k < hi
        invariant
            lo <= k <= hi,
            forall|q: int| lo <= q < k ==> is_digit_char(s@[q]),
        decreases hi - k,
    {
        let c = s.get_char(k);
        if !(c >= '0' && c <= '9') {
            proof {
                assert(s@.subrange(lo as int, hi as int)[k - lo] == s@[k as int]);
            }
            return false;
        }
        k = k + 1;
    }
    proof {
        assert forall|q: int| 0 <= q < hi - lo implies is_digit_char(
            s@.subrange(lo as int, hi as int)[q],
        ) by {
            assert(s@.subrange(lo as int, hi as int)[q] == s@[lo + q]);
        }
    }
    true
}

/// The canonical decimal text of a numeric literal, as `canon_number` says:
/// leading zeros of the integer part and trailing zeros of the fraction are
/// dropped, and so is a dot left with no fraction; text that is no numeric
/// literal comes back unchanged.
#[verifier::loop_isolation(false)]
pub fn canonical_number(s: &str) -> (r: String)
    ensures
        r@ == canon_number(s@),
{
    let n = s.unicode_len();
    let mut d: usize = 0;
    while d < n && s.get_char(d) != '.'
        invariant
            0 <= d <= n,
            dot_pos(s@, d as int) == dot_pos(s@, 0),
        decreases n - d,
    {
        d = d + 1;
    }
    let valid: bool = if d == n {
        n > 0 && digits_range(s, 0, n)
    } else {
        d > 0 && d + 1 < n && digits_range(s, 0, d) && digits_range(s, d + 1, n)
    };
    if !valid {
        return s.to_owned();
    }
    let mut a: usize = 0;
    while a + 1 < d && s.get_char(a) == '0'
        invariant
            0 <= a < d,
            lead_zeros_end(s@, a as int, d as int) == lead_zeros_end(s@, 0, d as int),
        decreases d - a,
    {
        a = a + 1;
    }
    proof {
        if d == n {
            assert(s@.subrange(0, n as int) =~= s@);
        }
        assert(is_number_text(s@));
        assert(d as int == dot_pos(s@, 0));
        assert(a as int == lead_zeros_end(s@, 0, d as int));
    }
    let mut out = String::new();
    out.append(s.substring_char(a, d));
    if d < n {
        let mut b: usize = n;
        while b > d + 1 && s.get_char(b - 1) == '0'
            invariant
                d + 1 <= b <= n,
                trail_zeros_start(s@, b as int, d as int + 1) == trail_zeros_start(
                    s@,
                    n as int,
                    d as int + 1,
                ),
            decreases b,
        {
            b = b - 1;
        }
        if b > d + 1 {
            out.append(".");
            out.append(s.substring_char(d + 1, b));
            proof {
                reveal_strlit(".");
                assert("."@ =~= seq!['.']);
                assert(is_number_text(s@));
                assert(d as int == dot_pos(s@, 0));
                assert(a as int == lead_zeros_end(s@, 0, d as int));
                assert(b as int == trail_zeros_start(s@, n as int, d as int + 1));
                assert(out@ =~= s@.subrange(a as int, d as int) + seq!['.'] + s@.subrange(
                    d as int + 1,
                    b as int,
                ));
                assert(out@ =~= canon_number(s@));
            }
            return out;
        }
    }
    proof {
        assert(out@ =~= canon_number(s@));
    }
    out
}

// ---------------------------------------------------------------------------
// The executable parser
// ---------------------------------------------------------------------------

/// Recursive-descent parser state: the token sequence and a cursor that only
/// ever moves forward.
pub struct Parser {
    pub tokens: Vec<Token>,
    pub current: usize,
}

impl Parser {
    /// The model of the token sequence.
    pub open spec fn toks(self) -> Seq<SpecToken> {
        toks_of(self.tokens@)
    }

    /// The parser's invariant: the stream ends in the end-of-input sentinel,
    /// and the cursor never reaches past it.
    pub open spec fn wf(self) -> bool {
        &&& self.tokens@.len() >= 1
        &&& self.current < self.tokens@.len()
        &&& self.toks()[self.tokens@.len() - 1].kind == TokenType::EOF
    }

    /// A fresh parser over the given tokens, with the cursor at the front.
    pub fn new(t: Vec<Token>) -> (p: Parser)
        ensures
            p.tokens == t,
            p.current == 0,
    {
        Parser { tokens: t, current: 0 }
    }

    /// The token under the cursor.
    fn peek(&self) -> (tok: Token)
        requires
            self.wf(),
        ensures
            tok@ == self.toks()[self.current as int],
    {
        self.tokens[self.current].clone()
    }

    /// The token just before the cursor.
    fn previous(&self) -> (tok: Token)
        requires
            self.wf(),
            self.current >= 1,
        ensures
            tok@ == self.toks()[self.current as int - 1],
    {
        self.tokens[self.current - 1].clone()
    }

    /// Whether the cursor has reached the end-of-input sentinel.
    fn is_at_end(&self) -> (b: bool)
        requires
            self.wf(),
        ensures
            b == (self.toks()[self.current as int].kind == TokenType::EOF),
    {
        let tok = self.peek();
        tok.tok_type == TokenType::EOF
    }

    /// Whether the token under the cursor has the given kind; never true at
    /// the end-of-input sentinel.
    fn check_type(&self, tt: &TokenType) -> (b: bool)
        requires
            self.wf(),
        ensures
            b == (self.toks()[self.current as int].kind != TokenType::EOF && self.toks()[self.current as int].kind
                == *tt),
    {
        if self.is_at_end() {
            return false;
        }
        let tok = self.peek();
        tok.tok_type == *tt
    }

    /// Consumes and returns the token under the cursor, which must not be
    /// the end-of-input sentinel.
    fn advance(&mut self) -> (tok: Token)
        requires
            old(self).wf(),
            old(self).toks()[old(self).current as int].kind != TokenType::EOF,
        ensures
            final(self).wf(),
            final(self).tokens == old(self).tokens,
            final(self).current == old(self).current + 1,
            tok@ == old(self).toks()[old(self).current as int],
    {
        // the stream length fits a usize, so the cursor cannot overflow
        let _n = self.tokens.len();
        if !self.is_at_end() {
            self.current = self.current + 1;
        }
        self.previous()
    }

    /// Consumes the token under the cursor when its kind is in the given
    /// set; a cursor that moved is the only sign of a match.
    #[verifier::loop_isolation(false)]
    fn matches(&mut self, token_types: &Vec<TokenType>) -> (b: bool)
        requires
            old(self).wf(),
        ensures
            final(self).wf(),
            final(self).tokens == old(self).tokens,
            ({
                let k = old(self).toks()[old(self).current as int].kind;
                &&& b == (k != TokenType::EOF && token_types@.contains(k))
                &&& final(self).current as int == old(self).current + (if b {
                    1int
                } else {
                    0int
                })
            }),
    {
        let ghost k = self.toks()[self.current as int].kind;
        let n = token_types.len();
        let mut idx: usize = 0;
        while idx < n
            invariant
                idx <= n,
                *self == *old(self),
                forall|q: int| 0 <= q < idx ==> !(k != TokenType::EOF && token_types@[q] == k),
            decreases n - idx,
        {
            if self.check_type(&token_types[idx]) {
                self.advance();
                return true;
            }
            idx = idx + 1;
        }
        proof {
            if k != TokenType::EOF && token_types@.contains(k) {
                let q = choose|q: int| 0 <= q < token_types@.len() && token_types@[q] == k;
                assert(!(k != TokenType::EOF && token_types@[q] == k));
            }
        }
        false
    }

    /// Consumes the token under the cursor when it has the expected kind;
    /// otherwise a fatal syntax error carrying the offending token and the
    /// given message.
    fn consume(&mut self, tt: &TokenType, msg: String) -> (r: Result<Token, ParseError>)
        requires
            old(self).wf(),
        ensures
            final(self).wf(),
            final(self).tokens == old(self).tokens,
            ({
                let k = old(self).toks()[old(self).current as int].kind;
                if k != TokenType::EOF && k == *tt {
                    &&& r matches Result::Ok(tok) && tok@ == old(self).toks()[old(
                        self,
                    ).current as int]
                    &&& final(self).current == old(self).current + 1
                } else {
                    &&& r matches Result::Err(pe) && pe@.token == old(self).toks()[old(
                        self,
                    ).current as int] && pe@.msg == msg@
                    &&& final(self).current == old(self).current
                }
            }),
    {
        if self.check_type(tt) {
            Ok(self.advance())
        } else {
            Err(ParseError { token: self.peek(), msg })
        }
    }
}

/// What it means for an executable parse step to agree with the model: the
/// tokens are untouched, the cursor never moves backward, and the result is
/// exactly what the model says — on success the same tree with the cursor
/// just past it, on failure the same offending token and message.
pub open spec fn parse_result_matches(
    pre: Parser,
    post: Parser,
    r: Result<Expr, ParseError>,
    out: POut,
) -> bool {
    &&& post.tokens == pre.tokens
    &&& pre.current <= post.current
    &&& match out {
        POut::Parsed { e, next } => {
            &&& r matches Result::Ok(v) && v@ == e
            &&& post.current as int == next
        },
        POut::Failure { tok, msg } => r matches Result::Err(pe) && pe@.token == tok && pe@.msg
            == msg,
    }
}

impl Parser {
    /// Parses one expression at the cursor: the lowest-binding level. The
    /// stream need not be exhausted: the cursor stops just past the tree.
    pub fn expression(&mut self) -> (r: Result<Expr, ParseError>)
        requires
            old(self).wf(),
        ensures
            final(self).wf(),
            parse_result_matches(
                *old(self),
                *final(self),
                r,
                sp_expression(old(self).toks(), old(self).current as int),
            ),
        decreases self.tokens@.len() - self.current, 6int,
    {
        self.equality()
    }

    /// The equality level: comparisons joined by `!=` or `==`, folded left.
    #[verifier::loop_isolation(false)]
    fn equality(&mut self) -> (r: Result<Expr, ParseError>)
        requires
            old(self).wf(),
        ensures
            final(self).wf(),
            parse_result_matches(
                *old(self),
                *final(self),
                r,
                sp_level(old(self).toks(), old(self).current as int, 5),
            ),
        decreases self.tokens@.len() - self.current, 5int,
    {
        let ghost t = self.toks();
        let ghost i0 = self.current as int;
        let ghost target = sp_level(t, i0, 5);
        let first = self.comparison();
        proof {
            lemma_level_progress(t, i0, 4);
        }
        let mut expr = match first {
            Ok(e) => e,
            Err(pe) => {
                return Err(pe);
            },
        };
        let mut m = self.matches(&(vec![TokenType::BANG_EQUAL, TokenType::EQUAL_EQUAL]));
        while m
            invariant
                self.wf(),
                self.tokens == old(self).tokens,
                i0 <= self.current as int,
                m ==> self.current >= 1 && i0 < self.current as int && level_op(
                    5,
                    t[self.current as int - 1].kind,
                ) && sp_level_rest(t, 5, expr@, self.current as int - 1) == target,
                !m ==> sp_level_rest(t, 5, expr@, self.current as int) == target && !level_op(
                    5,
                    t[self.current as int].kind,
                ),
            decreases self.tokens@.len() - self.current,
        {
            let ghost j = self.current as int - 1;
            let operator = self.previous();
            let rhs_r = self.comparison();
            proof {
                lemma_level_progress(t, j + 1, 4);
            }
            let right = match rhs_r {
                Ok(e) => e,
                Err(pe) => {
                    return Err(pe);
                },
            };
            expr = Expr::Binary { left: Box::new(expr), operator, right: Box::new(right) };
            m = self.matches(&(vec![TokenType::BANG_EQUAL, TokenType::EQUAL_EQUAL]));
        }
        Ok(expr)
    }

    /// The comparison level: terms joined by `<`, `>`, `<=` or `>=`, folded
    /// left.
    #[verifier::loop_isolation(false)]
    fn comparison(&mut self) -> (r: Result<Expr, ParseError>)
        requires
            old(self).wf(),
        ensures
            final(self).wf(),
            parse_result_matches(
                *old(self),
                *final(self),
                r,
                sp_level(old(self).toks(), old(self).current as int, 4),
            ),
        decreases self.tokens@.len() - self.current, 4int,
    {
        let ghost t = self.toks();
        let ghost i0 = self.current as int;
        let ghost target = sp_level(t, i0, 4);
        let first = self.term();
        proof {
            lemma_level_progress(t, i0, 3);
        }
        let mut expr = match first {
            Ok(e) => e,
            Err(pe) => {
                return Err(pe);
            },
        };
        let mut m = self.matches(
            &(vec![
                TokenType::GREATER,
                TokenType::GREATER_EQUAL,
                TokenType::LESS,
                TokenType::LESS_EQUAL,
            ]),
        );
        while m
            invariant
                self.wf(),
                self.tokens == old(self).tokens,
                i0 <= self.current as int,
                m ==> self.current >= 1 && i0 < self.current as int && level_op(
                    4,
                    t[self.current as int - 1].kind,
                ) && sp_level_rest(t, 4, expr@, self.current as int - 1) == target,
                !m ==> sp_level_rest(t, 4, expr@, self.current as int) == target && !level_op(
                    4,
                    t[self.current as int].kind,
                ),
            decreases self.tokens@.len() - self.current,
        {
            let ghost j = self.current as int - 1;
            let operator = self.previous();
            let rhs_r = self.term();
            proof {
                lemma_level_progress(t, j + 1, 3);
            }
            let right = match rhs_r {
                Ok(e) => e,
                Err(pe) => {
                    return Err(pe);
                },
            };
            expr = Expr::Binary { left: Box::new(expr), operator, right: Box::new(right) };
            m = self.matches(
                &(vec![
                    TokenType::GREATER,
                    TokenType::GREATER_EQUAL,
                    TokenType::LESS,
                    TokenType::LESS_EQUAL,
                ]),
            );
        }
        Ok(expr)
    }

    /// The term level: factors joined by `-` or `+`, folded left.
    #[verifier::loop_isolation(false)]
    fn term(&mut self) -> (r: Result<Expr, ParseError>)
        requires
            old(self).wf(),
        ensures
            final(self).wf(),
            parse_result_matches(
                *old(self),
                *final(self),
                r,
                sp_level(old(self).toks(), old(self).current as int, 3),
            ),
        decreases self.tokens@.len() - self.current, 3int,
    {
        let ghost t = self.toks();
        let ghost i0 = self.current as int;
        let ghost target = sp_level(t, i0, 3);
        let first = self.factor();
        proof {
            lemma_level_progress(t, i0, 2);
        }
        let mut expr = match first {
            Ok(e) => e,
            Err(pe) => {
                return Err(pe);
            },
        };
        let mut m = self.matches(&(vec![TokenType::MINUS, TokenType::PLUS]));
        while m
            invariant
                self.wf(),
                self.tokens == old(self).tokens,
                i0 <= self.current as int,
                m ==> self.current >= 1 && i0 < self.current as int && level_op(
                    3,
                    t[self.current as int - 1].kind,
                ) && sp_level_rest(t, 3, expr@, self.current as int - 1) == target,
                !m ==> sp_level_rest(t, 3, expr@, self.current as int) == target && !level_op(
                    3,
                    t[self.current as int].kind,
                ),
            decreases self.tokens@.len() - self.current,
        {
            let ghost j = self.current as int - 1;
            let operator = self.previous();
            let rhs_r = self.factor();
            proof {
                lemma_level_progress(t, j + 1, 2);
            }
            let right = match rhs_r {
                Ok(e) => e,
                Err(pe) => {
                    return Err(pe);
                },
            };
            expr = Expr::Binary { left: Box::new(expr), operator, right: Box::new(right) };
            m = self.matches(&(vec![TokenType::MINUS, TokenType::PLUS]));
        }
        Ok(expr)
    }

    /// The factor level: unary expressions joined by `/` or `*`, folded left.
    #[verifier::loop_isolation(false)]
    fn factor(&mut self) -> (r: Result<Expr, ParseError>)
        requires
            old(self).wf(),
        ensures
            final(self).wf(),
            parse_result_matches(
                *old(self),
                *final(self),
                r,
                sp_level(old(self).toks(), old(self).current as int, 2),
            ),
        decreases self.tokens@.len() - self.current, 2int,
    {
        let ghost t = self.toks();
        let ghost i0 = self.current as int;
        let ghost target = sp_level(t, i0, 2);
        let first = self.unary();
        proof {
            lemma_unary_progress(t, i0);
        }
        let mut expr = match first {
            Ok(e) => e,
            Err(pe) => {
                return Err(pe);
            },
        };
        let mut m = self.matches(&(vec![TokenType::SLASH, TokenType::STAR]));
        while m
            invariant
                self.wf(),
                self.tokens == old(self).tokens,
                i0 <= self.current as int,
                m ==> self.current >= 1 && i0 < self.current as int && level_op(
                    2,
                    t[self.current as int - 1].kind,
                ) && sp_level_rest(t, 2, expr@, self.current as int - 1) == target,
                !m ==> sp_level_rest(t, 2, expr@, self.current as int) == target && !level_op(
                    2,
                    t[self.current as int].kind,
                ),
            decreases self.tokens@.len() - self.current,
        {
            let ghost j = self.current as int - 1;
            let operator = self.previous();
            let rhs_r = self.unary();
            proof {
                lemma_unary_progress(t, j + 1);
            }
            let right = match rhs_r {
                Ok(e) => e,
                Err(pe) => {
                    return Err(pe);
                },
            };
            expr = Expr::Binary { left: Box::new(expr), operator, right: Box::new(right) };
            m = self.matches(&(vec![TokenType::SLASH, TokenType::STAR]));
        }
        Ok(expr)
    }

    /// A unary expression: `!` or `-` wraps a fresh unary parse, so repeated
    /// prefixes nest to the right; anything else is a primary expression.
    fn unary(&mut self) -> (r: Result<Expr, ParseError>)
        requires
            old(self).wf(),
        ensures
            final(self).wf(),
            parse_result_matches(
                *old(self),
                *final(self),
                r,
                sp_unary(old(self).toks(), old(self).current as int),
            ),
        decreases self.tokens@.len() - self.current, 1int,
    {
        if self.matches(&(vec![TokenType::BANG, TokenType::MINUS])) {
            let operator = self.previous();
            let right = match self.unary() {
                Ok(e) => e,
                Err(pe) => {
                    return Err(pe);
                },
            };
            return Ok(Expr::Unary { operator, right: Box::new(right) });
        }
        self.primary()
    }

    /// A primary expression: a literal, or a parenthesized expression that
    /// must be closed by `)`; any other token is a fatal syntax error, since
    /// every valid expression bottoms out here.
    fn primary(&mut self) -> (r: Result<Expr, ParseError>)
        requires
            old(self).wf(),
        ensures
            final(self).wf(),
            parse_result_matches(
                *old(self),
                *final(self),
                r,
                sp_primary(old(self).toks(), old(self).current as int),
            ),
        decreases self.tokens@.len() - self.current, 0int,
    {
        let ghost t = self.toks();
        let ghost i0 = self.current as int;
        if self.matches(&(vec![TokenType::FALSE])) {
            return Ok(Expr::Literal { literal: LiteralValue::Boolean(false) });
        }
        if self.matches(&(vec![TokenType::TRUE])) {
            return Ok(Expr::Literal { literal: LiteralValue::Boolean(true) });
        }
        if self.matches(&(vec![TokenType::NIL])) {
            return Ok(Expr::Literal { literal: LiteralValue::Null });
        }
        if self.matches(&(vec![TokenType::NUMBER])) {
            let xx = self.previous().literal;
            let num = canonical_number(xx.as_str());
            return Ok(Expr::Literal { literal: LiteralValue::Number(num) });
        }
        if self.matches(&(vec![TokenType::STRING])) {
            let sv = self.previous().literal;
            return Ok(Expr::Literal { literal: LiteralValue::Str(sv) });
        }
        if self.matches(&(vec![TokenType::LEFT_PAREN])) {
            let inner = match self.expression() {
                Ok(e) => e,
                Err(pe) => {
                    return Err(pe);
                },
            };
            proof {
                lemma_expression_progress(t, i0 + 1);
            }
            let closing = self.consume(
                &TokenType::RIGHT_PAREN,
                "Expect ')' after expression.".to_owned(),
            );
            match closing {
                Ok(_) => (),
                Err(pe) => {
                    return Err(pe);
                },
            }
            return Ok(Expr::Grouping { expression: Box::new(inner) });
        }
        Err(ParseError { token: self.peek(), msg: "Expected expression".to_owned() })
    }
}

} // verus!
