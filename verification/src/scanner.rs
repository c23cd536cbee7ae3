//! The scanner: a single forward pass that turns source text into an ordered
//! token sequence terminated by exactly one end-of-input sentinel.
//!
//! The mathematical model is `spec_step`, which says what one scan cycle does
//! at a given cursor position, and `scan_rest`, which folds `spec_step` over
//! the remaining input. The executable scanner is proved to produce exactly
//! the tokens, diagnostics and final line counter of that model.
//!
//! Lexical errors (an unrecognized character, an unterminated string) do not
//! stop the scan: they are recorded as diagnostics, and the caller inspects
//! them after scanning finishes. The line counter counts the newlines
//! consumed since the start of the scan, so the first line is line 0; this
//! convention is chosen so the counter can never outgrow the cursor.

use crate::tokens::{SpecToken, Token, TokenType, toks_of};
use vstd::prelude::*;
use vstd::string::StrSliceExecFns;

verus! {

/// A recorded lexical error: the offending line, a location note and a message.
#[derive(Debug)]
pub struct Diag {
    pub line: usize,
    pub wher: String,
    pub msg: String,
}

/// Mathematical model of a diagnostic.
#[verifier::ext_equal]
pub struct SpecDiag {
    pub line: nat,
    pub wher: Seq<char>,
    pub msg: Seq<char>,
}

impl View for Diag {
    type V = SpecDiag;

    open spec fn view(&self) -> SpecDiag {
        SpecDiag { line: self.line as nat, wher: self.wher@, msg: self.msg@ }
    }
}

/// The model of the sequence of diagnostics a vector holds.
pub open spec fn diags_of(ds: Seq<Diag>) -> Seq<SpecDiag> {
    ds.map_values(|d: Diag| d@)
}

/// Records a lexical error on the given line.
pub fn error(line: usize, msg: &str) -> (d: Diag)
    ensures
        d@ == (SpecDiag { line: line as nat, wher: Seq::<char>::empty(), msg: msg@ }),
{
    proof {
        reveal_strlit("");
        assert(""@ =~= Seq::<char>::empty());
    }
    report(line, "", msg)
}

/// Builds the diagnostic record from its parts.
pub fn report(line: usize, wher: &str, msg: &str) -> (d: Diag)
    ensures
        d@ == (SpecDiag { line: line as nat, wher: wher@, msg: msg@ }),
{
    Diag { line, wher: wher.to_owned(), msg: msg.to_owned() }
}

// ---------------------------------------------------------------------------
// Character classes
// ---------------------------------------------------------------------------

/// A decimal digit.
pub open spec fn is_digit_char(c: char) -> bool {
    '0' <= c && c <= '9'
}

/// A letter or underscore: what may start an identifier.
pub open spec fn is_alpha_char(c: char) -> bool {
    ('a' <= c && c <= 'z') || ('A' <= c && c <= 'Z') || c == '_'
}

/// A letter, digit or underscore: what may continue an identifier.
pub open spec fn is_alphanumeric_char(c: char) -> bool {
    is_digit_char(c) || is_alpha_char(c)
}

/// The kind a single character maps to directly, or UNKNOWN if none.
pub open spec fn single_char_kind(c: char) -> TokenType {
    if c == '(' {
        TokenType::LEFT_PAREN
    } else if c == ')' {
        TokenType::RIGHT_PAREN
    } else if c == '{' {
        TokenType::LEFT_BRACE
    } else if c == '}' {
        TokenType::RIGHT_BRACE
    } else if c == ',' {
        TokenType::COMMA
    } else if c == '.' {
        TokenType::DOT
    } else if c == '-' {
        TokenType::MINUS
    } else if c == '+' {
        TokenType::PLUS
    } else if c == ';' {
        TokenType::SEMICOLON
    } else if c == '*' {
        TokenType::STAR
    } else {
        TokenType::UNKNOWN
    }
}

/// A character that merges with a following `=` into a two-character operator.
pub open spec fn is_merge_candidate(c: char) -> bool {
    c == '!' || c == '=' || c == '<' || c == '>'
}

/// The combined kind when a merge candidate is followed by `=`.
pub open spec fn merged_kind(c: char) -> TokenType {
    if c == '!' {
        TokenType::BANG_EQUAL
    } else if c == '=' {
        TokenType::EQUAL_EQUAL
    } else if c == '<' {
        TokenType::LESS_EQUAL
    } else {
        TokenType::GREATER_EQUAL
    }
}

/// The kind when a merge candidate stands alone.
pub open spec fn lone_kind(c: char) -> TokenType {
    if c == '!' {
        TokenType::BANG
    } else if c == '=' {
        TokenType::EQUAL
    } else if c == '<' {
        TokenType::LESS
    } else {
        TokenType::GREATER
    }
}

/// The keyword kind for an identifier text, or UNKNOWN if it is no keyword.
pub open spec fn keyword_kind(s: Seq<char>) -> TokenType {
    if s == "and"@ {
        TokenType::AND
    } else if s == "class"@ {
        TokenType::CLASS
    } else if s == "else"@ {
        TokenType::ELSE
    } else if s == "false"@ {
        TokenType::FALSE
    } else if s == "for"@ {
        TokenType::FOR
    } else if s == "fun"@ {
        TokenType::FUN
    } else if s == "if"@ {
        TokenType::IF
    } else if s == "nil"@ {
        TokenType::NIL
    } else if s == "or"@ {
        TokenType::OR
    } else if s == "print"@ {
        TokenType::PRINT
    } else if s == "return"@ {
        TokenType::RETURN
    } else if s == "super"@ {
        TokenType::SUPER
    } else if s == "this"@ {
        TokenType::THIS
    } else if s == "true"@ {
        TokenType::TRUE
    } else if s == "var"@ {
        TokenType::VAR
    } else if s == "while"@ {
        TokenType::WHILE
    } else {
        TokenType::UNKNOWN
    }
}

// ---------------------------------------------------------------------------
// Runs of characters
// ---------------------------------------------------------------------------

/// The position just past the maximal run of identifier characters at `i`.
pub open spec fn alnum_end(src: Seq<char>, i: int) -> int
    decreases src.len() - i,
        when 0 <= i <= src.len()
{
    if i < src.len() && is_alphanumeric_char(src[i]) {
        alnum_end(src, i + 1)
    } else {
        i
    }
}

/// The position just past the maximal run of digits at `i`.
pub open spec fn digits_end(src: Seq<char>, i: int) -> int
    decreases src.len() - i,
        when 0 <= i <= src.len()
{
    if i < src.len() && is_digit_char(src[i]) {
        digits_end(src, i + 1)
    } else {
        i
    }
}

/// The position of the next newline at or after `i`, or the end of the text.
pub open spec fn comment_end(src: Seq<char>, i: int) -> int
    decreases src.len() - i,
        when 0 <= i <= src.len()
{
    if i < src.len() && src[i] != '\n' {
        comment_end(src, i + 1)
    } else {
        i
    }
}

/// The position of the next double quote at or after `i`, or the end of the text.
pub open spec fn string_end(src: Seq<char>, i: int) -> int
    decreases src.len() - i,
        when 0 <= i <= src.len()
{
    if i < src.len() && src[i] != '"' {
        string_end(src, i + 1)
    } else {
        i
    }
}

/// Bounds and contents of an identifier run.
pub proof fn lemma_alnum_end(src: Seq<char>, i: int)
    requires
        0 <= i <= src.len(),
    ensures
        i <= alnum_end(src, i) <= src.len(),
        forall|k: int| i <= k < alnum_end(src, i) ==> is_alphanumeric_char(src[k]),
        alnum_end(src, i) < src.len() ==> !is_alphanumeric_char(src[alnum_end(src, i)]),
    decreases src.len() - i,
{
    if i < src.len() && is_alphanumeric_char(src[i]) {
        lemma_alnum_end(src, i + 1);
    }
}

/// Bounds and contents of a digit run.
pub proof fn lemma_digits_end(src: Seq<char>, i: int)
    requires
        0 <= i <= src.len(),
    ensures
        i <= digits_end(src, i) <= src.len(),
        forall|k: int| i <= k < digits_end(src, i) ==> is_digit_char(src[k]),
        digits_end(src, i) < src.len() ==> !is_digit_char(src[digits_end(src, i)]),
    decreases src.len() - i,
{
    if i < src.len() && is_digit_char(src[i]) {
        lemma_digits_end(src, i + 1);
    }
}

/// Bounds of a comment run.
pub proof fn lemma_comment_end(src: Seq<char>, i: int)
    requires
        0 <= i <= src.len(),
    ensures
        i <= comment_end(src, i) <= src.len(),
    decreases src.len() - i,
{
    if i < src.len() && src[i] != '\n' {
        lemma_comment_end(src, i + 1);
    }
}

/// Bounds of a string body run, and the closing quote at its end.
pub proof fn lemma_string_end(src: Seq<char>, i: int)
    requires
        0 <= i <= src.len(),
    ensures
        i <= string_end(src, i) <= src.len(),
        string_end(src, i) < src.len() ==> src[string_end(src, i)] == '"',
    decreases src.len() - i,
{
    if i < src.len() && src[i] != '"' {
        lemma_string_end(src, i + 1);
    }
}

/// How many newline characters `src` holds in positions `i` (inclusive)
/// up to `j` (exclusive).
pub open spec fn newlines_in(src: Seq<char>, i: int, j: int) -> int
    decreases j - i,
        when i <= j
{
    if i < j {
        newlines_in(src, i, j - 1) + if src[j - 1] == '\n' {
            1int
        } else {
            0int
        }
    } else {
        0
    }
}

/// A newline count is at least zero and at most the width of its range.
pub proof fn lemma_newlines_bounds(src: Seq<char>, i: int, j: int)
    requires
        i <= j,
    ensures
        0 <= newlines_in(src, i, j) <= j - i,
    decreases j - i,
{
    if i < j {
        lemma_newlines_bounds(src, i, j - 1);
    }
}

// ---------------------------------------------------------------------------
// One scan cycle
// ---------------------------------------------------------------------------

/// What one scan cycle produces at cursor position `i` with line counter
/// `line`: the new cursor, the new line counter, at most one token and at
/// most one diagnostic.
#[verifier::ext_equal]
pub struct ScanStep {
    pub next: int,
    pub line: int,
    pub tok: Option<SpecToken>,
    pub err: Option<SpecDiag>,
}

/// The token or diagnostic of a step, as a sequence of length zero or one.
pub open spec fn opt_seq<T>(o: Option<T>) -> Seq<T> {
    match o {
        Option::Some(t) => seq![t],
        Option::None => Seq::empty(),
    }
}

/// One cycle of the scanner at position `i`: classifies `src[i]`, consumes
/// the whole lexeme it starts, and says what is emitted.
pub open spec fn spec_step(src: Seq<char>, i: int, line: int) -> ScanStep
    recommends
        0 <= i < src.len(),
{
    let c = src[i];
    if is_alpha_char(c) {
        let e = alnum_end(src, i + 1);
        let text = src.subrange(i, e);
        let kw = keyword_kind(text);
        let kind = if kw == TokenType::UNKNOWN {
            TokenType::IDENTIFIER
        } else {
            kw
        };
        ScanStep {
            next: e,
            line,
            tok: Some(SpecToken { kind, lexeme: text, literal: Seq::empty(), line: line as nat }),
            err: None,
        }
    } else if c == ' ' || c == '\r' || c == '\t' {
        ScanStep { next: i + 1, line, tok: None, err: None }
    } else if c == '\n' {
        ScanStep { next: i + 1, line: line + 1, tok: None, err: None }
    } else if single_char_kind(c) != TokenType::UNKNOWN {
        ScanStep {
            next: i + 1,
            line,
            tok: Some(
                SpecToken {
                    kind: single_char_kind(c),
                    lexeme: src.subrange(i, i + 1),
                    literal: Seq::empty(),
                    line: line as nat,
                },
            ),
            err: None,
        }
    } else if is_merge_candidate(c) {
        if i + 1 < src.len() && src[i + 1] == '=' {
            ScanStep {
                next: i + 2,
                line,
                tok: Some(
                    SpecToken {
                        kind: merged_kind(c),
                        lexeme: src.subrange(i, i + 2),
                        literal: Seq::empty(),
                        line: line as nat,
                    },
                ),
                err: None,
            }
        } else {
            ScanStep {
                next: i + 1,
                line,
                tok: Some(
                    SpecToken {
                        kind: lone_kind(c),
                        lexeme: src.subrange(i, i + 1),
                        literal: Seq::empty(),
                        line: line as nat,
                    },
                ),
                err: None,
            }
        }
    } else if c == '/' {
        if i + 1 < src.len() && src[i + 1] == '/' {
            ScanStep { next: comment_end(src, i + 2), line, tok: None, err: None }
        } else {
            ScanStep {
                next: i + 1,
                line,
                tok: Some(
                    SpecToken {
                        kind: TokenType::SLASH,
                        lexeme: src.subrange(i, i + 1),
                        literal: Seq::empty(),
                        line: line as nat,
                    },
                ),
                err: None,
            }
        }
    } else if c == '"' {
        let e = string_end(src, i + 1);
        let l2 = line + newlines_in(src, i + 1, e);
        if e == src.len() {
            ScanStep {
                next: e,
                line: l2,
                tok: None,
                err: Some(
                    SpecDiag { line: l2 as nat, wher: Seq::empty(), msg: "Unterminated string."@ },
                ),
            }
        } else {
            ScanStep {
                next: e + 1,
                line: l2,
                tok: Some(
                    SpecToken {
                        kind: TokenType::STRING,
                        lexeme: src.subrange(i, e + 1),
                        literal: src.subrange(i + 1, e),
                        line: l2 as nat,
                    },
                ),
                err: None,
            }
        }
    } else if is_digit_char(c) {
        let e1 = digits_end(src, i + 1);
        let has_fraction = e1 + 1 < src.len() && src[e1] == '.' && is_digit_char(src[e1 + 1]);
        let e = if has_fraction {
            digits_end(src, e1 + 1)
        } else {
            e1
        };
        ScanStep {
            next: e,
            line,
            tok: Some(
                SpecToken {
                    kind: TokenType::NUMBER,
                    lexeme: src.subrange(i, e),
                    literal: src.subrange(i, e),
                    line: line as nat,
                },
            ),
            err: None,
        }
    } else {
        ScanStep {
            next: i + 1,
            line,
            tok: None,
            err: Some(
                SpecDiag { line: line as nat, wher: Seq::empty(), msg: "Unexpected token."@ },
            ),
        }
    }
}

/// Every scan cycle consumes at least one character, stays within the text,
/// and never moves the line counter backwards nor past the cursor.
pub proof fn lemma_step_bounds(src: Seq<char>, i: int, line: int)
    requires
        0 <= i < src.len(),
    ensures
        i < spec_step(src, i, line).next <= src.len(),
        line <= spec_step(src, i, line).line,
        line <= i ==> spec_step(src, i, line).line <= spec_step(src, i, line).next,
{
    let c = src[i];
    if is_alpha_char(c) {
        lemma_alnum_end(src, i + 1);
    } else if c == ' ' || c == '\r' || c == '\t' || c == '\n' {
    } else if single_char_kind(c) != TokenType::UNKNOWN {
    } else if is_merge_candidate(c) {
    } else if c == '/' {
        if i + 1 < src.len() && src[i + 1] == '/' {
            lemma_comment_end(src, i + 2);
        }
    } else if c == '"' {
        let e = string_end(src, i + 1);
        lemma_string_end(src, i + 1);
        lemma_newlines_bounds(src, i + 1, e);
    } else if is_digit_char(c) {
        let e1 = digits_end(src, i + 1);
        lemma_digits_end(src, i + 1);
        if e1 + 1 < src.len() && src[e1] == '.' && is_digit_char(src[e1 + 1]) {
            lemma_digits_end(src, e1 + 1);
        }
    }
}

// ---------------------------------------------------------------------------
// The whole scan
// ---------------------------------------------------------------------------

/// Everything the scan loop emits from position `i` to the end of the text,
/// and the line counter it finishes with. The end-of-input sentinel is not
/// part of this fold; `scan_tokens` appends it once after the loop.
#[verifier::ext_equal]
pub struct ScanOut {
    pub toks: Seq<SpecToken>,
    pub errs: Seq<SpecDiag>,
    pub line: int,
}

/// Folds `spec_step` over the rest of the text.
pub open spec fn scan_rest(src: Seq<char>, i: int, line: int) -> ScanOut
    decreases src.len() - i,
        when 0 <= i <= src.len()
{
    if i >= src.len() {
        ScanOut { toks: Seq::empty(), errs: Seq::empty(), line }
    } else {
        let s = spec_step(src, i, line);
        let nx = if i < s.next <= src.len() {
            s.next
        } else {
            i + 1
        };
        let rest = scan_rest(src, nx, s.line);
        ScanOut {
            toks: opt_seq(s.tok) + rest.toks,
            errs: opt_seq(s.err) + rest.errs,
            line: rest.line,
        }
    }
}

/// Unfolds one cycle of `scan_rest` with the cursor clamp resolved.
pub proof fn lemma_scan_rest_unfold(src: Seq<char>, i: int, line: int)
    requires
        0 <= i < src.len(),
    ensures
        ({
            let s = spec_step(src, i, line);
            let rest = scan_rest(src, s.next, s.line);
            scan_rest(src, i, line) == (ScanOut {
                toks: opt_seq(s.tok) + rest.toks,
                errs: opt_seq(s.err) + rest.errs,
                line: rest.line,
            })
        }),
{
    lemma_step_bounds(src, i, line);
}

// ---------------------------------------------------------------------------
// Laws of the scan
// ---------------------------------------------------------------------------

/// Input that holds nothing but whitespace and line comments from position
/// `i` to the end.
pub open spec fn trivia_only(src: Seq<char>, i: int) -> bool
    decreases src.len() - i,
        when 0 <= i <= src.len()
        via trivia_only_decreases
{
    if i >= src.len() {
        true
    } else if src[i] == ' ' || src[i] == '\r' || src[i] == '\t' || src[i] == '\n' {
        trivia_only(src, i + 1)
    } else if src[i] == '/' && i + 1 < src.len() && src[i + 1] == '/' {
        trivia_only(src, comment_end(src, i + 2))
    } else {
        false
    }
}

#[via_fn]
proof fn trivia_only_decreases(src: Seq<char>, i: int) {
    if i < src.len() && !(src[i] == ' ' || src[i] == '\r' || src[i] == '\t' || src[i] == '\n') {
        if src[i] == '/' && i + 1 < src.len() && src[i + 1] == '/' {
            lemma_comment_end(src, i + 2);
        }
    }
}

/// Law: scanning input that holds only whitespace and line comments emits no
/// token and no diagnostic, so with the sentinel that `scan_tokens` appends
/// afterwards such input yields exactly one token.
pub proof fn lemma_trivia_scans_to_nothing(src: Seq<char>, i: int, line: int)
    requires
        0 <= i <= src.len(),
        trivia_only(src, i),
    ensures
        scan_rest(src, i, line).toks == Seq::<SpecToken>::empty(),
        scan_rest(src, i, line).errs == Seq::<SpecDiag>::empty(),
    decreases src.len() - i,
{
    if i < src.len() {
        let s = spec_step(src, i, line);
        lemma_step_bounds(src, i, line);
        if src[i] == '/' {
            lemma_comment_end(src, i + 2);
        }
        lemma_trivia_scans_to_nothing(src, s.next, s.line);
        assert(scan_rest(src, i, line).toks =~= Seq::<SpecToken>::empty());
        assert(scan_rest(src, i, line).errs =~= Seq::<SpecDiag>::empty());
    }
}

/// Law: a merge candidate (`!`, `=`, `<`, `>`) followed by `=` scans as one
/// combined two-character operator token, not as two tokens; followed by
/// anything else, or by the end of the input, it scans as the
/// single-character kind alone.
pub proof fn lemma_two_char_operators(src: Seq<char>, i: int, line: int)
    requires
        0 <= i < src.len(),
        is_merge_candidate(src[i]),
    ensures
        ({
            let s = spec_step(src, i, line);
            if i + 1 < src.len() && src[i + 1] == '=' {
                s.tok == Some(
                    SpecToken {
                        kind: merged_kind(src[i]),
                        lexeme: src.subrange(i, i + 2),
                        literal: Seq::<char>::empty(),
                        line: line as nat,
                    },
                ) && s.next == i + 2
            } else {
                s.tok == Some(
                    SpecToken {
                        kind: lone_kind(src[i]),
                        lexeme: src.subrange(i, i + 1),
                        literal: Seq::<char>::empty(),
                        line: line as nat,
                    },
                ) && s.next == i + 1
            }
        }),
{
}

/// Law: the scan loop itself never emits an end-of-input token, so the
/// sentinel that `scan_tokens` appends to a fresh scan is the only one in
/// the stream, and it stands last.
pub proof fn lemma_scan_emits_no_eof(src: Seq<char>, i: int, line: int)
    requires
        0 <= i <= src.len(),
    ensures
        forall|k: int|
            0 <= k < scan_rest(src, i, line).toks.len() ==> #[trigger] scan_rest(
                src,
                i,
                line,
            ).toks[k].kind != TokenType::EOF,
    decreases src.len() - i,
{
    if i < src.len() {
        let s = spec_step(src, i, line);
        lemma_step_bounds(src, i, line);
        lemma_scan_emits_no_eof(src, s.next, s.line);
    }
}

/// Law: the literal field of every token the scan emits follows the token's
/// kind — the matched numeric text for a number, the text between the quotes
/// for a string (so the literal never holds the quotes themselves), and
/// empty for every other kind.
pub proof fn lemma_literal_field_contract(src: Seq<char>, i: int, line: int)
    requires
        0 <= i <= src.len(),
    ensures
        forall|k: int|
            0 <= k < scan_rest(src, i, line).toks.len() ==> {
                let tok = #[trigger] scan_rest(src, i, line).toks[k];
                &&& (tok.kind != TokenType::STRING && tok.kind != TokenType::NUMBER
                    ==> tok.literal == Seq::<char>::empty())
                &&& (tok.kind == TokenType::NUMBER ==> tok.literal == tok.lexeme)
                &&& (tok.kind == TokenType::STRING ==> tok.lexeme == seq!['"'] + tok.literal
                    + seq!['"'])
            },
    decreases src.len() - i,
{
    if i < src.len() {
        let s = spec_step(src, i, line);
        lemma_step_bounds(src, i, line);
        lemma_literal_field_contract(src, s.next, s.line);
        if src[i] == '"' {
            let e = string_end(src, i + 1);
            lemma_string_end(src, i + 1);
            if e < src.len() {
                assert(src.subrange(i, e + 1) =~= seq!['"'] + src.subrange(i + 1, e)
                    + seq!['"']);
            }
        }
    }
}

// ---------------------------------------------------------------------------
// The executable scanner
// ---------------------------------------------------------------------------

/// Mapping a token vector extended by one token extends the model by its view.
pub proof fn lemma_toks_push(ts: Seq<Token>, t: Token)
    ensures
        toks_of(ts.push(t)) == toks_of(ts) + seq![t@],
{
    assert(toks_of(ts.push(t)) =~= toks_of(ts) + seq![t@]);
}

/// Mapping a diagnostic vector extended by one entry extends the model by its view.
pub proof fn lemma_diags_push(ds: Seq<Diag>, d: Diag)
    ensures
        diags_of(ds.push(d)) == diags_of(ds) + seq![d@],
{
    assert(diags_of(ds.push(d)) =~= diags_of(ds) + seq![d@]);
}

/// Single-pass scanner state: the source text, a lexeme-start marker, a
/// cursor, a line counter, the tokens emitted so far and the diagnostics
/// recorded so far.
#[derive(Debug)]
pub struct Scanner {
    pub source: String,
    pub line: usize,
    pub start: usize,
    pub current: usize,
    pub tokens: Vec<Token>,
    pub diags: Vec<Diag>,
}

/// What one executable scan cycle must have done: exactly what the model
/// step `s` says, relative to the state `pre` it started from.
pub open spec fn step_applied(pre: Scanner, post: Scanner, s: ScanStep) -> bool {
    &&& post.source == pre.source
    &&& post.start == pre.start
    &&& post.current as int == s.next
    &&& post.line as int == s.line
    &&& toks_of(post.tokens@) == toks_of(pre.tokens@) + opt_seq(s.tok)
    &&& diags_of(post.diags@) == diags_of(pre.diags@) + opt_seq(s.err)
}

impl Scanner {
    /// The source text as a character sequence.
    pub open spec fn src(self) -> Seq<char> {
        self.source@
    }

    /// The scanner's cursor invariant: the lexeme-start marker never passes
    /// the cursor, the cursor never leaves the text, and the line counter
    /// never outgrows the cursor.
    pub open spec fn wf(self) -> bool {
        &&& self.start <= self.current <= self.src().len() <= usize::MAX
        &&& self.line <= self.current
    }

    /// A fresh scanner over the given source text.
    pub fn new(code: String) -> (s: Scanner)
        ensures
            s.wf(),
            s.src() == code@,
            s.line == 0,
            s.start == 0,
            s.current == 0,
            s.tokens@.len() == 0,
            s.diags@.len() == 0,
    {
        // the character count fits a usize, which wf records
        let _n = code.as_str().unicode_len();
        Scanner { source: code, line: 0, start: 0, current: 0, tokens: Vec::new(), diags: Vec::new() }
    }

    /// Whether the cursor has reached the end of the source text.
    fn is_at_end(&self) -> (b: bool)
        requires
            self.wf(),
        ensures
            b == (self.current as int >= self.src().len()),
    {
        self.current >= self.source.as_str().unicode_len()
    }

    /// Consumes and returns the character under the cursor.
    fn advance(&mut self) -> (c: char)
        requires
            old(self).wf(),
            (old(self).current as int) < old(self).src().len(),
        ensures
            final(self).wf(),
            c == old(self).src()[old(self).current as int],
            final(self).current == old(self).current + 1,
            final(self).source == old(self).source,
            final(self).start == old(self).start,
            final(self).line == old(self).line,
            final(self).tokens == old(self).tokens,
            final(self).diags == old(self).diags,
    {
        let c = self.source.as_str().get_char(self.current);
        self.current = self.current + 1;
        c
    }

    /// Consumes the character under the cursor only if it is `ch`.
    fn match_char(&mut self, ch: char) -> (b: bool)
        requires
            old(self).wf(),
        ensures
            final(self).wf(),
            b == ((old(self).current as int) < old(self).src().len() && old(self).src()[old(
                self,
            ).current as int] == ch),
            final(self).current as int == if b {
                old(self).current + 1
            } else {
                old(self).current as int
            },
            final(self).source == old(self).source,
            final(self).start == old(self).start,
            final(self).line == old(self).line,
            final(self).tokens == old(self).tokens,
            final(self).diags == old(self).diags,
    {
        if self.is_at_end() {
            return false;
        }
        if self.source.as_str().get_char(self.current) != ch {
            return false;
        }
        self.current = self.current + 1;
        true
    }

    /// The character under the cursor, or NUL at the end of the text.
    fn peek(&self) -> (c: char)
        requires
            self.wf(),
        ensures
            c == if (self.current as int) < self.src().len() {
                self.src()[self.current as int]
            } else {
                '\0'
            },
    {
        if self.is_at_end() {
            return '\0';
        }
        self.source.as_str().get_char(self.current)
    }

    /// The character one past the cursor, or NUL if there is none.
    fn peek_next(&self) -> (c: char)
        requires
            self.wf(),
        ensures
            c == if self.current as int + 1 < self.src().len() {
                self.src()[self.current as int + 1]
            } else {
                '\0'
            },
    {
        let n = self.source.as_str().unicode_len();
        if self.current < n && self.current + 1 < n {
            self.source.as_str().get_char(self.current + 1)
        } else {
            '\0'
        }
    }

    /// Emits a token without a literal, spanning the current lexeme.
    fn add_token(&mut self, tt: TokenType)
        requires
            old(self).wf(),
        ensures
            final(self).wf(),
            toks_of(final(self).tokens@) == toks_of(old(self).tokens@) + seq![
                SpecToken {
                    kind: tt,
                    lexeme: old(self).src().subrange(
                        old(self).start as int,
                        old(self).current as int,
                    ),
                    literal: Seq::empty(),
                    line: old(self).line as nat,
                },
            ],
            final(self).source == old(self).source,
            final(self).start == old(self).start,
            final(self).current == old(self).current,
            final(self).line == old(self).line,
            final(self).diags == old(self).diags,
    {
        self.add_token_1(tt, String::new());
    }

    /// Emits a token carrying the given literal, spanning the current lexeme.
    fn add_token_1(&mut self, tt: TokenType, literal: String)
        requires
            old(self).wf(),
        ensures
            final(self).wf(),
            toks_of(final(self).tokens@) == toks_of(old(self).tokens@) + seq![
                SpecToken {
                    kind: tt,
                    lexeme: old(self).src().subrange(
                        old(self).start as int,
                        old(self).current as int,
                    ),
                    literal: literal@,
                    line: old(self).line as nat,
                },
            ],
            final(self).source == old(self).source,
            final(self).start == old(self).start,
            final(self).current == old(self).current,
            final(self).line == old(self).line,
            final(self).diags == old(self).diags,
    {
        let txt = self.source.as_str().substring_char(self.start, self.current).to_owned();
        let token = Token::new(tt, txt, literal, self.line);
        proof {
            lemma_toks_push(self.tokens@, token);
        }
        self.tokens.push(token);
    }

    /// Whether `ch` is a decimal digit.
    fn is_digit(&self, ch: char) -> (b: bool)
        ensures
            b == is_digit_char(ch),
    {
        match ch {
            '0' | '1' | '2' | '3' | '4' | '5' | '6' | '7' | '8' | '9' => true,
            _ => false,
        }
    }

    /// Whether `ch` may start an identifier.
    fn is_alpha(&self, ch: char) -> (b: bool)
        ensures
            b == is_alpha_char(ch),
    {
        (ch >= 'a' && ch <= 'z') || (ch >= 'A' && ch <= 'Z') || ch == '_'
    }

    /// Whether `ch` may continue an identifier.
    fn is_alphanumeric(&self, ch: char) -> (b: bool)
        ensures
            b == is_alphanumeric_char(ch),
    {
        self.is_digit(ch) || self.is_alpha(ch)
    }

    /// Whether this scan recorded any lexical error: the signal a caller
    /// inspects after scanning, before treating the input as valid.
    pub fn had_error(&self) -> (b: bool)
        ensures
            b == (self.diags@.len() > 0),
    {
        self.diags.len() > 0
    }

    /// Looks an identifier text up in the keyword table.
    pub fn resolve_identifier(&self, ident: &str) -> (tt: TokenType)
        ensures
            tt == keyword_kind(ident@),
    {
        if str_eq(ident, "and") {
            TokenType::AND
        } else if str_eq(ident, "class") {
            TokenType::CLASS
        } else if str_eq(ident, "else") {
            TokenType::ELSE
        } else if str_eq(ident, "false") {
            TokenType::FALSE
        } else if str_eq(ident, "for") {
            TokenType::FOR
        } else if str_eq(ident, "fun") {
            TokenType::FUN
        } else if str_eq(ident, "if") {
            TokenType::IF
        } else if str_eq(ident, "nil") {
            TokenType::NIL
        } else if str_eq(ident, "or") {
            TokenType::OR
        } else if str_eq(ident, "print") {
            TokenType::PRINT
        } else if str_eq(ident, "return") {
            TokenType::RETURN
        } else if str_eq(ident, "super") {
            TokenType::SUPER
        } else if str_eq(ident, "this") {
            TokenType::THIS
        } else if str_eq(ident, "true") {
            TokenType::TRUE
        } else if str_eq(ident, "var") {
            TokenType::VAR
        } else if str_eq(ident, "while") {
            TokenType::WHILE
        } else {
            TokenType::UNKNOWN
        }
    }

    /// Scans the identifier or keyword whose first character was just consumed.
    #[verifier::loop_isolation(false)]
    fn identifier(&mut self)
        requires
            old(self).wf(),
            old(self).current == old(self).start + 1,
            is_alpha_char(old(self).src()[old(self).start as int]),
    ensures
            final(self).wf(),
            step_applied(
                *old(self),
                *final(self),
                spec_step(old(self).src(), old(self).start as int, old(self).line as int),
            ),
    {
        let ghost src = self.src();
        let ghost i = self.start as int;
        proof {
            lemma_alnum_end(src, i + 1);
        }
        while self.is_alphanumeric(self.peek())
            invariant
                self.wf(),
                self.source == old(self).source,
                self.start == old(self).start,
                self.line == old(self).line,
                self.tokens == old(self).tokens,
                self.diags == old(self).diags,
                i + 1 <= self.current as int <= alnum_end(src, i + 1),
                alnum_end(src, self.current as int) == alnum_end(src, i + 1),
            decreases src.len() - self.current,
        {
            proof {
                lemma_alnum_end(src, self.current as int + 1);
            }
            self.advance();
        }
        proof {
            assert(self.current as int == alnum_end(src, i + 1));
        }
        let ident = self.source.as_str().substring_char(self.start, self.current).to_owned();
        let mut tt = self.resolve_identifier(ident.as_str());
        match tt {
            TokenType::UNKNOWN => {
                tt = TokenType::IDENTIFIER;
            },
            _ => (),
        }
        self.add_token(tt);
        proof {
            assert(toks_of(final(self).tokens@) =~= toks_of(old(self).tokens@) + opt_seq(
                spec_step(src, i, old(self).line as int).tok,
            ));
        }
    }

    /// Scans the number whose first digit was just consumed.
    #[verifier::loop_isolation(false)]
    fn number(&mut self)
        requires
            old(self).wf(),
            old(self).current == old(self).start + 1,
            is_digit_char(old(self).src()[old(self).start as int]),
        ensures
            final(self).wf(),
            step_applied(
                *old(self),
                *final(self),
                spec_step(old(self).src(), old(self).start as int, old(self).line as int),
            ),
    {
        let ghost src = self.src();
        let ghost i = self.start as int;
        let ghost e1 = digits_end(src, i + 1);
        proof {
            lemma_digits_end(src, i + 1);
        }
        while self.is_digit(self.peek())
            invariant
                self.wf(),
                self.source == old(self).source,
                self.start == old(self).start,
                self.line == old(self).line,
                self.tokens == old(self).tokens,
                self.diags == old(self).diags,
                i + 1 <= self.current as int <= e1,
                digits_end(src, self.current as int) == e1,
            decreases src.len() - self.current,
        {
            proof {
                lemma_digits_end(src, self.current as int + 1);
            }
            self.advance();
        }
        proof {
            assert(self.current as int == e1);
        }
        let p = self.peek();
        let pn = self.peek_next();
        if p == '.' && self.is_digit(pn) {
            proof {
                assert(e1 + 1 < src.len() && src[e1] == '.' && is_digit_char(src[e1 + 1]));
                lemma_digits_end(src, e1 + 1);
            }
            let ghost e2 = digits_end(src, e1 + 1);
            self.advance();
            while self.is_digit(self.peek())
                invariant
                    self.wf(),
                    self.source == old(self).source,
                    self.start == old(self).start,
                    self.line == old(self).line,
                    self.tokens == old(self).tokens,
                    self.diags == old(self).diags,
                    e1 + 1 <= self.current as int <= e2,
                    digits_end(src, self.current as int) == e2,
                decreases src.len() - self.current,
            {
                proof {
                    lemma_digits_end(src, self.current as int + 1);
                }
                self.advance();
            }
            proof {
                assert(self.current as int == e2);
            }
        }
        let literal = self.source.as_str().substring_char(self.start, self.current).to_owned();
        self.add_token_1(TokenType::NUMBER, literal);
        proof {
            assert(toks_of(final(self).tokens@) =~= toks_of(old(self).tokens@) + opt_seq(
                spec_step(src, i, old(self).line as int).tok,
            ));
        }
    }

    /// Scans the string literal whose opening quote was just consumed.
    #[verifier::loop_isolation(false)]
    fn string(&mut self)
        requires
            old(self).wf(),
            old(self).current == old(self).start + 1,
            old(self).src()[old(self).start as int] == '"',
            old(self).line <= old(self).start,
        ensures
            final(self).wf(),
            step_applied(
                *old(self),
                *final(self),
                spec_step(old(self).src(), old(self).start as int, old(self).line as int),
            ),
    {
        let ghost src = self.src();
        let ghost i = self.start as int;
        let ghost line0 = self.line as int;
        let ghost e = string_end(src, i + 1);
        proof {
            lemma_string_end(src, i + 1);
        }
        while self.peek() != '"' && !self.is_at_end()
            invariant
                self.wf(),
                self.source == old(self).source,
                self.start == old(self).start,
                self.tokens == old(self).tokens,
                self.diags == old(self).diags,
                i + 1 <= self.current as int <= e,
                string_end(src, self.current as int) == e,
                self.line as int == line0 + newlines_in(src, i + 1, self.current as int),
            decreases src.len() - self.current,
        {
            proof {
                lemma_newlines_bounds(src, i + 1, self.current as int);
                lemma_string_end(src, self.current as int + 1);
            }
            let p = self.peek();
            if p == '\n' {
                self.line = self.line + 1;
            }
            self.advance();
        }
        proof {
            assert(self.current as int == e);
        }
        if self.is_at_end() {
            let d = error(self.line, "Unterminated string.");
            proof {
                lemma_diags_push(self.diags@, d);
            }
            self.diags.push(d);
            proof {
                assert(diags_of(final(self).diags@) =~= diags_of(old(self).diags@) + opt_seq(
                    spec_step(src, i, line0).err,
                ));
                assert(toks_of(final(self).tokens@) =~= toks_of(old(self).tokens@) + opt_seq(
                    spec_step(src, i, line0).tok,
                ));
            }
            return ;
        }
        self.advance();
        let literal = self.source.as_str().substring_char(self.start + 1, self.current - 1).to_owned();
        self.add_token_1(TokenType::STRING, literal);
        proof {
            assert(toks_of(final(self).tokens@) =~= toks_of(old(self).tokens@) + opt_seq(
                spec_step(src, i, line0).tok,
            ));
        }
    }
    /// Scans one token, advancing past its lexeme: exactly one cycle of the
    /// scan model at the cursor.
    #[verifier::loop_isolation(false)]
    fn scan_token(&mut self)
        requires
            old(self).wf(),
            old(self).start == old(self).current,
            (old(self).current as int) < old(self).src().len(),
        ensures
            final(self).wf(),
            step_applied(
                *old(self),
                *final(self),
                spec_step(old(self).src(), old(self).current as int, old(self).line as int),
            ),
    {
        let ghost src = self.src();
        let ghost i = self.current as int;
        let ghost line0 = self.line as int;
        let c = self.advance();
        if self.is_alpha(c) {
            self.identifier();
            return ;
        }
        match c {
            ' ' | '\r' | '\t' => (),
            '\n' => {
                self.line = self.line + 1;
            },
            '(' => self.add_token(TokenType::LEFT_PAREN),
            ')' => self.add_token(TokenType::RIGHT_PAREN),
            '{' => self.add_token(TokenType::LEFT_BRACE),
            '}' => self.add_token(TokenType::RIGHT_BRACE),
            ',' => self.add_token(TokenType::COMMA),
            '.' => self.add_token(TokenType::DOT),
            '-' => self.add_token(TokenType::MINUS),
            '+' => self.add_token(TokenType::PLUS),
            ';' => self.add_token(TokenType::SEMICOLON),
            '*' => self.add_token(TokenType::STAR),
            '!' => {
                if self.match_char('=') {
                    self.add_token(TokenType::BANG_EQUAL)
                } else {
                    self.add_token(TokenType::BANG)
                }
            },
            '=' => {
                if self.match_char('=') {
                    self.add_token(TokenType::EQUAL_EQUAL)
                } else {
                    self.add_token(TokenType::EQUAL)
                }
            },
            '<' => {
                if self.match_char('=') {
                    self.add_token(TokenType::LESS_EQUAL)
                } else {
                    self.add_token(TokenType::LESS)
                }
            },
            '>' => {
                if self.match_char('=') {
                    self.add_token(TokenType::GREATER_EQUAL)
                } else {
                    self.add_token(TokenType::GREATER)
                }
            },
            '/' => {
                if self.match_char('/') {
                    proof {
                        lemma_comment_end(src, i + 2);
                    }
                    while self.peek() != '\n' && !self.is_at_end()
                        invariant
                            self.wf(),
                            self.source == old(self).source,
                            self.start == old(self).start,
                            self.line == old(self).line,
                            self.tokens == old(self).tokens,
                            self.diags == old(self).diags,
                            i + 2 <= self.current as int <= comment_end(src, i + 2),
                            comment_end(src, self.current as int) == comment_end(src, i + 2),
                        decreases src.len() - self.current,
                    {
                        proof {
                            lemma_comment_end(src, self.current as int + 1);
                        }
                        self.advance();
                    }
                } else {
                    self.add_token(TokenType::SLASH);
                }
            },
            '"' => self.string(),
            '0' | '1' | '2' | '3' | '4' | '5' | '6' | '7' | '8' | '9' => self.number(),
            _ => {
                let d = error(self.line, "Unexpected token.");
                proof {
                    lemma_diags_push(self.diags@, d);
                }
                self.diags.push(d);
            },
        }
        proof {
            let s = spec_step(src, i, line0);
            assert(toks_of(self.tokens@) =~= toks_of(old(self).tokens@) + opt_seq(s.tok));
            assert(diags_of(self.diags@) =~= diags_of(old(self).diags@) + opt_seq(s.err));
        }
    }

    /// Scans the whole source text: emits every token and every diagnostic of
    /// the scan model, then appends exactly one end-of-input sentinel with an
    /// empty lexeme, carrying the final line counter.
    #[verifier::loop_isolation(false)]
    pub fn scan_tokens(&mut self)
        requires
            old(self).wf(),
        ensures
            final(self).wf(),
            final(self).source == old(self).source,
            ({
                let out = scan_rest(
                    old(self).src(),
                    old(self).current as int,
                    old(self).line as int,
                );
                &&& toks_of(final(self).tokens@) == toks_of(old(self).tokens@) + out.toks + seq![
                    SpecToken {
                        kind: TokenType::EOF,
                        lexeme: Seq::empty(),
                        literal: Seq::empty(),
                        line: out.line as nat,
                    },
                ]
                &&& diags_of(final(self).diags@) == diags_of(old(self).diags@) + out.errs
                &&& final(self).line as int == out.line
            }),
    {
        let ghost src = self.src();
        let ghost out0 = scan_rest(src, self.current as int, self.line as int);
        while !self.is_at_end()
            invariant
                self.wf(),
                self.source == old(self).source,
                toks_of(self.tokens@) + scan_rest(src, self.current as int, self.line as int).toks
                    == toks_of(old(self).tokens@) + out0.toks,
                diags_of(self.diags@) + scan_rest(src, self.current as int, self.line as int).errs
                    == diags_of(old(self).diags@) + out0.errs,
                scan_rest(src, self.current as int, self.line as int).line == out0.line,
            decreases src.len() - self.current,
        {
            let ghost pre = *self;
            self.start = self.current;
            self.scan_token();
            proof {
                lemma_step_bounds(src, pre.current as int, pre.line as int);
                lemma_scan_rest_unfold(src, pre.current as int, pre.line as int);
                assert(toks_of(self.tokens@) + scan_rest(
                    src,
                    self.current as int,
                    self.line as int,
                ).toks =~= toks_of(old(self).tokens@) + out0.toks);
                assert(diags_of(self.diags@) + scan_rest(
                    src,
                    self.current as int,
                    self.line as int,
                ).errs =~= diags_of(old(self).diags@) + out0.errs);
            }
        }
        let tok = Token::new(TokenType::EOF, String::new(), String::new(), self.line);
        proof {
            lemma_toks_push(self.tokens@, tok);
        }
        self.tokens.push(tok);
        proof {
            assert(toks_of(final(self).tokens@) =~= toks_of(old(self).tokens@) + out0.toks + seq![
                SpecToken {
                    kind: TokenType::EOF,
                    lexeme: Seq::empty(),
                    literal: Seq::empty(),
                    line: out0.line as nat,
                },
            ]);
            assert(diags_of(final(self).diags@) =~= diags_of(old(self).diags@) + out0.errs);
        }
    }
}

/// Whether two string slices hold the same characters.
#[verifier::loop_isolation(false)]
pub fn str_eq(a: &str, b: &str) -> (r: bool)
    ensures
        r == (a@ == b@),
{
    let na = a.unicode_len();
    let nb = b.unicode_len();
    if na != nb {
        return false;
    }
    let mut k: usize = 0;
    while k < na
        invariant
            na == a@.len(),
            nb == b@.len(),
            na == nb,
            k <= na,
            forall|j: int| 0 <= j < k ==> a@[j] == b@[j],
        decreases na - k,
    {
        if a.get_char(k) != b.get_char(k) {
            return false;
        }
        k = k + 1;
    }
    proof {
        assert(a@ =~= b@);
    }
    true
}

} // verus!
