//! The expression tree: a closed recursive sum type built by the parser, a
//! visitor abstraction that lets consumers traverse it without modifying it,
//! and a reference visitor that renders a tree to a fully parenthesized
//! prefix string.

use crate::tokens::{SpecToken, Token};
use vstd::prelude::*;

verus! {

/// The decoded value a literal expression holds. A number is carried as its
/// canonical decimal text, which keeps the model exact; rendering and
/// comparison work on that text.
#[derive(Debug)]
pub enum LiteralValue {
    Boolean(bool),
    Null,
    Number(String),
    Str(String),
}

/// Mathematical model of a literal value.
#[verifier::ext_equal]
pub enum SpecLiteralValue {
    Boolean(bool),
    Null,
    Number(Seq<char>),
    Str(Seq<char>),
}

impl View for LiteralValue {
    type V = SpecLiteralValue;

    open spec fn view(&self) -> SpecLiteralValue {
        match self {
            LiteralValue::Boolean(b) => SpecLiteralValue::Boolean(*b),
            LiteralValue::Null => SpecLiteralValue::Null,
            LiteralValue::Number(s) => SpecLiteralValue::Number(s@),
            LiteralValue::Str(s) => SpecLiteralValue::Str(s@),
        }
    }
}

/// The expression tree: a strict tree in which each composite node owns its
/// children, built once by the parser and never mutated afterwards.
#[derive(Debug)]
pub enum Expr {
    Binary { left: Box<Expr>, operator: Token, right: Box<Expr> },
    Unary { operator: Token, right: Box<Expr> },
    Grouping { expression: Box<Expr> },
    Literal { literal: LiteralValue },
}

/// Mathematical model of an expression tree.
#[verifier::ext_equal]
pub enum SpecExpr {
    Binary { left: Box<SpecExpr>, operator: SpecToken, right: Box<SpecExpr> },
    Unary { operator: SpecToken, right: Box<SpecExpr> },
    Grouping { expression: Box<SpecExpr> },
    Literal { literal: SpecLiteralValue },
}

/// The model of an expression tree, node for node.
pub open spec fn expr_view(e: Expr) -> SpecExpr
    decreases e,
{
    match e {
        Expr::Binary { left, operator, right } => SpecExpr::Binary {
            left: Box::new(expr_view(*left)),
            operator: operator@,
            right: Box::new(expr_view(*right)),
        },
        Expr::Unary { operator, right } => SpecExpr::Unary {
            operator: operator@,
            right: Box::new(expr_view(*right)),
        },
        Expr::Grouping { expression } => SpecExpr::Grouping {
            expression: Box::new(expr_view(*expression)),
        },
        Expr::Literal { literal } => SpecExpr::Literal { literal: literal@ },
    }
}

impl View for Expr {
    type V = SpecExpr;

    open spec fn view(&self) -> SpecExpr {
        expr_view(*self)
    }
}

// ---------------------------------------------------------------------------
// The canonical rendering
// ---------------------------------------------------------------------------

/// The canonical text of a literal value: booleans as `true`/`false`, the
/// null value as `Null`, numbers and strings as their text.
pub open spec fn render_literal(v: SpecLiteralValue) -> Seq<char> {
    match v {
        SpecLiteralValue::Boolean(b) => if b {
            "true"@
        } else {
            "false"@
        },
        SpecLiteralValue::Null => "Null"@,
        SpecLiteralValue::Number(s) => s,
        SpecLiteralValue::Str(s) => s,
    }
}

/// The canonical fully parenthesized prefix text of a tree: Binary and Unary
/// as `(<operator-lexeme> <operand>...)`, Grouping as `(Group <inner>)`,
/// a literal as its canonical text.
pub open spec fn render(e: SpecExpr) -> Seq<char>
    decreases e,
{
    match e {
        SpecExpr::Binary { left, operator, right } => seq!['('] + operator.lexeme + seq![' ']
            + render(*left) + seq![' '] + render(*right) + seq![')'],
        SpecExpr::Unary { operator, right } => seq!['('] + operator.lexeme + seq![' '] + render(
            *right,
        ) + seq![')'],
        SpecExpr::Grouping { expression } => seq!['('] + "Group"@ + seq![' '] + render(
            *expression,
        ) + seq![')'],
        SpecExpr::Literal { literal } => render_literal(literal),
    }
}

/// Each part preceded by one space, in order.
pub open spec fn spaced(parts: Seq<Seq<char>>) -> Seq<char>
    decreases parts.len(),
{
    if parts.len() == 0 {
        Seq::empty()
    } else {
        spaced(parts.drop_last()) + seq![' '] + parts.last()
    }
}

/// A name and its space-separated parts, wrapped in parentheses.
pub open spec fn paren_parts(name: Seq<char>, parts: Seq<Seq<char>>) -> Seq<char> {
    seq!['('] + name + spaced(parts) + seq![')']
}

/// The model of the rendered parts a string vector holds.
pub open spec fn strs_of(parts: Seq<String>) -> Seq<Seq<char>> {
    parts.map_values(|p: String| p@)
}

/// Renders `(name part part ...)`.
#[verifier::loop_isolation(false)]
fn parenthesize(name: &str, parts: &Vec<String>) -> (r: String)
    ensures
        r@ == paren_parts(name@, strs_of(parts@)),
{
    let mut rslt = String::new();
    rslt.append("(");
    rslt.append(name);
    proof {
        reveal_strlit("(");
        reveal_strlit(")");
        reveal_strlit(" ");
        assert(rslt@ =~= seq!['('] + name@ + spaced(strs_of(parts@).take(0)));
    }
    let n = parts.len();
    let mut k: usize = 0;
    while k < n
        invariant
            0 <= k <= n,
            n == parts@.len(),
            rslt@ == seq!['('] + name@ + spaced(strs_of(parts@).take(k as int)),
        decreases n - k,
    {
        rslt.append(" ");
        rslt.append(parts[k].as_str());
        proof {
            assert(strs_of(parts@).take(k as int + 1).drop_last() =~= strs_of(parts@).take(
                k as int,
            ));
            assert(strs_of(parts@).take(k as int + 1).last() == parts@[k as int]@);
            assert(rslt@ =~= seq!['('] + name@ + spaced(strs_of(parts@).take(k as int + 1)));
        }
        k = k + 1;
    }
    rslt.append(")");
    proof {
        assert(strs_of(parts@).take(n as int) =~= strs_of(parts@));
        assert(rslt@ =~= paren_parts(name@, strs_of(parts@)));
    }
    rslt
}

/// The canonical text of a literal value, executably.
fn literal_text(v: &LiteralValue) -> (r: String)
    ensures
        r@ == render_literal(v@),
{
    match v {
        LiteralValue::Boolean(b) => if *b {
            "true".to_owned()
        } else {
            "false".to_owned()
        },
        LiteralValue::Null => "Null".to_owned(),
        LiteralValue::Number(s) => s.clone(),
        LiteralValue::Str(s) => s.clone(),
    }
}

/// Renders a tree to its canonical parenthesized prefix text.
pub fn render_expr(e: &Expr) -> (r: String)
    ensures
        r@ == render(e@),
    decreases *e,
{
    match e {
        Expr::Binary { left, operator, right } => {
            let mut parts: Vec<String> = Vec::new();
            let l = render_expr(&**left);
            let rr = render_expr(&**right);
            parts.push(l);
            parts.push(rr);
            let out = parenthesize(operator.lexeme.as_str(), &parts);
            proof {
                reveal_with_fuel(spaced, 4);
                assert(strs_of(parts@) =~= seq![render(expr_view(**left)), render(
                    expr_view(**right),
                )]);
                assert(spaced(strs_of(parts@).drop_last()) =~= seq![' '] + render(
                    expr_view(**left),
                ));
                assert(out@ =~= render(e@));
            }
            out
        },
        Expr::Unary { operator, right } => {
            let mut parts: Vec<String> = Vec::new();
            let rr = render_expr(&**right);
            parts.push(rr);
            let out = parenthesize(operator.lexeme.as_str(), &parts);
            proof {
                reveal_with_fuel(spaced, 4);
                assert(strs_of(parts@) =~= seq![render(expr_view(**right))]);
                assert(strs_of(parts@).drop_last() =~= Seq::<Seq<char>>::empty());
                assert(out@ =~= render(e@));
            }
            out
        },
        Expr::Grouping { expression } => {
            let mut parts: Vec<String> = Vec::new();
            let inner = render_expr(&**expression);
            parts.push(inner);
            let out = parenthesize("Group", &parts);
            proof {
                reveal_with_fuel(spaced, 4);
                assert(strs_of(parts@) =~= seq![render(expr_view(**expression))]);
                assert(strs_of(parts@).drop_last() =~= Seq::<Seq<char>>::empty());
                assert(out@ =~= render(e@));
            }
            out
        },
        Expr::Literal { literal } => literal_text(literal),
    }
}

// ---------------------------------------------------------------------------
// The visitor abstraction
// ---------------------------------------------------------------------------

/// One operation over the tree, implemented once per node kind and applied
/// without altering the tree. A visitor declares, as spec functions, what
/// each visit returns over the models of the node's children; each visit
/// method then promises exactly that result.
pub trait Visitor<T: DeepView> {
    /// What visiting a Binary node returns.
    spec fn spec_binary(&self, left: SpecExpr, op: SpecToken, right: SpecExpr) -> T::V;

    /// What visiting a Unary node returns.
    spec fn spec_unary(&self, op: SpecToken, right: SpecExpr) -> T::V;

    /// What visiting a Grouping node returns.
    spec fn spec_grouping(&self, inner: SpecExpr) -> T::V;

    /// What visiting a Literal node returns.
    spec fn spec_literal(&self, value: SpecLiteralValue) -> T::V;

    fn visit_binary(&mut self, left: &Expr, op: &Token, right: &Expr) -> (r: T)
        ensures
            r.deep_view() == old(self).spec_binary(left@, op@, right@),
    ;

    fn visit_unary(&mut self, op: &Token, right: &Expr) -> (r: T)
        ensures
            r.deep_view() == old(self).spec_unary(op@, right@),
    ;

    fn visit_grouping(&mut self, exp: &Expr) -> (r: T)
        ensures
            r.deep_view() == old(self).spec_grouping(exp@),
    ;

    fn visit_literal(&mut self, g: &LiteralValue) -> (r: T)
        ensures
            r.deep_view() == old(self).spec_literal(g@),
    ;
}

impl Expr {
    /// Dispatches on the variant and forwards references to the node's
    /// immediate children — not pre-computed results: the visitor, not the
    /// tree, decides whether and in what order to recurse.
    pub fn accept<T: DeepView, V: Visitor<T>>(&self, visitor: &mut V) -> (r: T)
        ensures
            r.deep_view() == match self@ {
                SpecExpr::Binary { left, operator, right } => old(visitor).spec_binary(
                    *left,
                    operator,
                    *right,
                ),
                SpecExpr::Unary { operator, right } => old(visitor).spec_unary(operator, *right),
                SpecExpr::Grouping { expression } => old(visitor).spec_grouping(*expression),
                SpecExpr::Literal { literal } => old(visitor).spec_literal(literal),
            },
    {
        match self {
            Expr::Binary { left, operator, right } => visitor.visit_binary(
                &**left,
                operator,
                &**right,
            ),
            Expr::Unary { operator, right } => visitor.visit_unary(operator, &**right),
            Expr::Grouping { expression } => visitor.visit_grouping(&**expression),
            Expr::Literal { literal } => visitor.visit_literal(literal),
        }
    }
}

/// The reference visitor: renders a tree to its canonical parenthesized
/// prefix text, the acceptance oracle for the parser.
pub struct AstPrinter;

impl AstPrinter {
    /// Renders the whole tree through the visitor dispatch.
    pub fn print(&mut self, expr: &Expr) -> (r: String)
        ensures
            r@ == render(expr@),
    {
        expr.accept(self)
    }
}

impl Visitor<String> for AstPrinter {
    open spec fn spec_binary(&self, left: SpecExpr, op: SpecToken, right: SpecExpr) -> Seq<char> {
        render(
            SpecExpr::Binary { left: Box::new(left), operator: op, right: Box::new(right) },
        )
    }

    open spec fn spec_unary(&self, op: SpecToken, right: SpecExpr) -> Seq<char> {
        render(SpecExpr::Unary { operator: op, right: Box::new(right) })
    }

    open spec fn spec_grouping(&self, inner: SpecExpr) -> Seq<char> {
        render(SpecExpr::Grouping { expression: Box::new(inner) })
    }

    open spec fn spec_literal(&self, value: SpecLiteralValue) -> Seq<char> {
        render_literal(value)
    }

    fn visit_binary(&mut self, left: &Expr, op: &Token, right: &Expr) -> (r: String) {
        let mut parts: Vec<String> = Vec::new();
        parts.push(render_expr(left));
        parts.push(render_expr(right));
        let out = parenthesize(op.lexeme.as_str(), &parts);
        proof {
            reveal_with_fuel(spaced, 4);
            assert(strs_of(parts@) =~= seq![render(left@), render(right@)]);
            assert(spaced(strs_of(parts@).drop_last()) =~= seq![' '] + render(left@));
            assert(out@ =~= self.spec_binary(left@, op@, right@));
        }
        out
    }

    fn visit_unary(&mut self, op: &Token, right: &Expr) -> (r: String) {
        let mut parts: Vec<String> = Vec::new();
        parts.push(render_expr(right));
        let out = parenthesize(op.lexeme.as_str(), &parts);
        proof {
            reveal_with_fuel(spaced, 4);
            assert(strs_of(parts@) =~= seq![render(right@)]);
            assert(strs_of(parts@).drop_last() =~= Seq::<Seq<char>>::empty());
            assert(out@ =~= self.spec_unary(op@, right@));
        }
        out
    }

    fn visit_grouping(&mut self, exp: &Expr) -> (r: String) {
        let mut parts: Vec<String> = Vec::new();
        parts.push(render_expr(exp));
        let out = parenthesize("Group", &parts);
        proof {
            reveal_with_fuel(spaced, 4);
            assert(strs_of(parts@) =~= seq![render(exp@)]);
            assert(strs_of(parts@).drop_last() =~= Seq::<Seq<char>>::empty());
            assert(out@ =~= self.spec_grouping(exp@));
        }
        out
    }

    fn visit_literal(&mut self, g: &LiteralValue) -> (r: String) {
        literal_text(g)
    }
}

} // verus!
