//! The reference visitor: prints a tree fully parenthesized.
use vstd::prelude::*;
use crate::expr::{Expr, ExprModel, Visitor};
use crate::literal::{display, Object};
use crate::text::{push_char, push_str};
use crate::token::Token;

verus! {

/// The parts, each preceded by one space.
pub open spec fn spaced(parts: Seq<Seq<char>>) -> Seq<char>
    decreases parts.len(),
{
    if parts.len() == 0 {
        Seq::empty()
    } else {
        spaced(parts.drop_last()) + seq![' '] + parts.last()
    }
}

/// `(<name> <part> <part> ...)`
pub open spec fn parenthesized(name: Seq<char>, parts: Seq<Seq<char>>) -> Seq<char> {
    seq!['('] + name + spaced(parts) + seq![')']
}

/// The canonical print form of a tree: `(<operator> <left> <right>)` for a
/// binary node, `(<operator> <operand>)` for a unary one, `(group <inner>)` for
/// a grouping, and the display form of a literal's value.
pub open spec fn printed(e: ExprModel) -> Seq<char>
    decreases e,
{
    match e {
        ExprModel::Binary { left, operator, right } => parenthesized(
            operator.lexeme,
            seq![printed(*left), printed(*right)],
        ),
        ExprModel::Grouping { expression } => parenthesized(
            seq!['g', 'r', 'o', 'u', 'p'],
            seq![printed(*expression)],
        ),
        ExprModel::Literal { value } => display(value),
        ExprModel::Unary { operator, right } => parenthesized(operator.lexeme, seq![printed(*right)]),
    }
}

/// Prints trees in their canonical, fully parenthesized form.
pub struct AstPrinter;

impl AstPrinter {
    /// The canonical print form of `expr`.
    pub fn print(&self, expr: &Expr) -> (r: String)
        ensures
            r@ == printed(expr@),
    {
        match expr.accept(self) {
            Ok(s) => s,
            Err(_) => String::new(),
        }
    }

    /// `(<name> <part> <part> ...)`
    pub fn parenthesize(&self, name: &str, parts: &Vec<String>) -> (r: String)
        ensures
            r@ == parenthesized(name@, parts@.map_values(|p: String| p@)),
    {
        let mut builder = String::new();
        push_char(&mut builder, '(');
        push_str(&mut builder, name);
        let mut i: usize = 0;
        while i < parts.len()
            invariant
                i <= parts@.len(),
                builder@ == seq!['('] + name@ + spaced(
                    parts@.map_values(|p: String| p@).take(i as int),
                ),
            decreases parts@.len() - i,
        {
            push_char(&mut builder, ' ');
            push_str(&mut builder, parts[i].as_str());
            proof {
                let ps = parts@.map_values(|p: String| p@);
                assert(ps.take(i + 1).drop_last() =~= ps.take(i as int));
            }
            i = i + 1;
            assert(builder@ =~= seq!['('] + name@ + spaced(
                parts@.map_values(|p: String| p@).take(i as int),
            ));
        }
        push_char(&mut builder, ')');
        proof {
            let ps = parts@.map_values(|p: String| p@);
            assert(ps.take(parts@.len() as int) =~= ps);
        }
        assert(builder@ =~= parenthesized(name@, parts@.map_values(|p: String| p@)));
        builder
    }
}

impl Visitor<String, ()> for AstPrinter {
    open spec fn produces(&self, e: Expr, out: String) -> bool {
        out@ == printed(e@)
    }

    open spec fn infallible(&self) -> bool {
        true
    }

    fn visit_binary(&self, left: &Expr, operator: &Token, right: &Expr, left_out: String, right_out: String) -> (r: Result<String, ()>) {
        let parts = vec![left_out, right_out];
        let s = self.parenthesize(operator.lexeme.as_str(), &parts);
        proof {
            assert(parts@.map_values(|p: String| p@) =~= seq![printed(left@), printed(right@)]);
        }
        Ok(s)
    }

    fn visit_grouping(&self, expression: &Expr, inner_out: String) -> (r: Result<String, ()>) {
        let parts = vec![inner_out];
        let s = self.parenthesize("group", &parts);
        proof {
            reveal_strlit("group");
            assert("group"@ =~= seq!['g', 'r', 'o', 'u', 'p']);
            assert(parts@.map_values(|p: String| p@) =~= seq![printed(expression@)]);
        }
        Ok(s)
    }

    fn visit_literal(&self, value: &Object) -> (r: Result<String, ()>) {
        Ok(value.display())
    }

    fn visit_unary(&self, operator: &Token, right: &Expr, right_out: String) -> (r: Result<String, ()>) {
        let parts = vec![right_out];
        let s = self.parenthesize(operator.lexeme.as_str(), &parts);
        proof {
            assert(parts@.map_values(|p: String| p@) =~= seq![printed(right@)]);
        }
        Ok(s)
    }
}

} // verus!
