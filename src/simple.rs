//! Evaluation of expressions by substitution.
use vstd::prelude::*;
use crate::ast::{convert, result_view, Ctx, Expr, Expression, Fault, FaultV, Term, Val, Context};

verus! {

/// Evaluation by substitution: the value of `e` in context `c`.
pub open spec fn execute(c: Ctx, e: Expr) -> Result<Val, FaultV>
    decreases e,
{
    match e {
        Expr::Annotation(x, _) => execute(c, *x),
        Expr::Constant(v) => Ok(v),
        Expr::Variable(id) => if c.terms.contains_key(id) {
            Ok(c.terms[id])
        } else {
            Err(FaultV::UnboundVariable(id))
        },
        Expr::Abstraction(_, _) => Err(FaultV::NotAValue),
        Expr::Application(f, a) => match *f {
            Expr::Abstraction(p, body) => match execute(c, *a) {
                Ok(v) => execute(Ctx { terms: c.terms.insert(p, v), funcs: c.funcs }, *body),
                Err(x) => Err(x),
            },
            _ => Err(FaultV::NotAnAbstraction),
        },
        Expr::Conditional(a, b, d) => match execute(c, *a) {
            Ok(Val::Boolean(true)) => execute(c, *b),
            Ok(Val::Boolean(false)) => execute(c, *d),
            Ok(v) => match convert(v) {
                Ok(k) => Err(FaultV::NonBooleanCondition(k)),
                Err(x) => Err(x),
            },
            Err(x) => Err(x),
        },
    }
}

impl Context {
    /// Evaluates an expression, given a context of variables, to a term.
    pub fn execute(&self, expression: Expression) -> (r: Result<Term, Fault>)
        ensures
            result_view(r) == execute(self@, expression@),
        decreases expression,
    {
        match expression {
            Expression::Annotation { expr, .. } => self.execute(*expr),
            Expression::Constant { term } => Ok(term),
            Expression::Variable { id } => match self.get_term(&id) {
                Some(term) => Ok(term.clone()),
                None => Err(Fault::UnboundVariable(id)),
            },
            Expression::Abstraction { .. } => Err(Fault::NotAValue),
            Expression::Application { func, arg } => match *func {
                Expression::Abstraction { param, func: body } => {
                    assert((*func)@ == Expr::Abstraction(param@, Box::new((*body)@)));
                    let value = match self.execute(*arg) {
                        Ok(v) => v,
                        Err(f) => return Err(f),
                    };
                    let mut context = self.clone();
                    context.insert_term(param, value);
                    context.execute(*body)
                },
                _ => {
                    assert(!((*func)@ is Abstraction));
                    Err(Fault::NotAnAbstraction)
                },
            },
            Expression::Conditional { if_cond, if_then, if_else } => match self.execute(*if_cond) {
                Ok(Term::Boolean(true)) => self.execute(*if_then),
                Ok(Term::Boolean(false)) => self.execute(*if_else),
                Ok(term) => match term.convert() {
                    Ok(k) => Err(Fault::NonBooleanCondition(k)),
                    Err(f) => Err(f),
                },
                Err(f) => Err(f),
            },
        }
    }
}

} // verus!
