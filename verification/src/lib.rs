//! A small language front end: a scanner that turns source text into a
//! token stream, a recursive-descent parser that turns that stream into an
//! expression tree under strict precedence rules, and a visitor abstraction
//! with a reference printer that renders a tree to a parenthesized string.
//!
//! Data flows text -> Scanner -> tokens -> Parser -> Expr -> visitor ->
//! result; `run` chains the whole pipeline for one source text. Every stage
//! is a pure in-memory pass: diagnostics are values returned to the caller,
//! never shared state, so repeated invocations cannot interfere.

pub mod exprs;
pub mod parser;
pub mod scanner;
pub mod tokens;

use crate::exprs::{render, render_expr};
use crate::parser::{POut, ParseError, Parser, sp_expression};
use crate::scanner::{Diag, Scanner, diags_of, scan_rest};
use crate::tokens::{SpecToken, TokenType, toks_of};
use vstd::prelude::*;

verus! {

/// What one front-end pass produces: the scan's diagnostics, and either the
/// canonical rendering of the parsed tree or the fatal syntax error.
pub struct RunOutcome {
    pub diags: Vec<Diag>,
    pub rendering: Result<String, ParseError>,
}

/// The token stream a fresh scan of `code` hands to the parser: everything
/// the scan model emits, then one end-of-input sentinel.
pub open spec fn scanned_stream(code: Seq<char>) -> Seq<SpecToken> {
    let scanned = scan_rest(code, 0, 0);
    scanned.toks + seq![
        SpecToken {
            kind: TokenType::EOF,
            lexeme: Seq::empty(),
            literal: Seq::empty(),
            line: scanned.line as nat,
        },
    ]
}

/// Law: the token stream a fresh scan produces ends in exactly one
/// end-of-input sentinel — the sentinel stands last, and no token before it
/// has the sentinel kind.
pub proof fn lemma_stream_single_sentinel(code: Seq<char>)
    ensures
        scanned_stream(code).len() >= 1,
        scanned_stream(code).last().kind == TokenType::EOF,
        forall|k: int|
            0 <= k < scanned_stream(code).len() - 1 ==> #[trigger] scanned_stream(
                code,
            )[k].kind != TokenType::EOF,
{
    crate::scanner::lemma_scan_emits_no_eof(code, 0, 0);
}

/// Scans one source text, parses one expression from the resulting stream,
/// and renders the tree. The scan's diagnostics come back beside the
/// result, so input that failed to scan cleanly is never mistaken for
/// valid.
pub fn run(code: String) -> (out: RunOutcome)
    ensures
        diags_of(out.diags@) == scan_rest(code@, 0, 0).errs,
        ({
            match sp_expression(scanned_stream(code@), 0) {
                POut::Parsed { e, next } => out.rendering matches Result::Ok(s) && s@ == render(e),
                POut::Failure { tok, msg } => out.rendering matches Result::Err(pe) && pe@.token
                    == tok && pe@.msg == msg,
            }
        }),
{
    let mut scnr = Scanner::new(code);
    scnr.scan_tokens();
    let ghost stream = scanned_stream(scnr.source@);
    proof {
        assert(toks_of(scnr.tokens@) =~= stream);
        assert(stream[stream.len() - 1].kind == TokenType::EOF);
        assert(diags_of(scnr.diags@) =~= scan_rest(scnr.source@, 0, 0).errs);
    }
    let diags = scnr.diags;
    let mut p = Parser::new(scnr.tokens);
    let parsed = p.expression();
    let rendering = match parsed {
        Ok(e) => Ok(render_expr(&e)),
        Err(pe) => Err(pe),
    };
    RunOutcome { diags, rendering }
}

} // verus!
