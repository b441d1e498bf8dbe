//! Assignments of the intermediate language and lists of them.
use crate::expr::{node, postfix2, well_formed, width, LinearizedExpr, OpView};
use crate::render::infix;
use vstd::string::StringExecFns;
use vstd::prelude::*;

verus! {

/// `lhs = rhs`, where the destination is a register or a memory dereference of the
/// same width as the source.
pub struct Assignment {
    pub lhs: LinearizedExpr,
    pub rhs: LinearizedExpr,
    pub size: usize,
}

impl Assignment {
    pub fn new(lhs: LinearizedExpr, rhs: LinearizedExpr) -> (r: Assignment)
        requires
            lhs@.len() > 0,
            rhs@.len() > 0,
            width(lhs@) == width(rhs@),
        ensures
            r.lhs@ == lhs@,
            r.rhs@ == rhs@,
            r.size == width(lhs@),
    {
        let size = lhs.size();
        Assignment { lhs, rhs, size }
    }

    /// The assignment as one expression rooted at an assignment operator.
    pub fn to_expr(&self) -> (r: LinearizedExpr)
        requires
            self.lhs@.len() > 0,
            self.rhs@.len() > 0,
            width(self.lhs@) == width(self.rhs@),
            width(self.lhs@) > 0,
        ensures
            r@ == postfix2(self.lhs@, self.rhs@, OpView::Assign, width(self.lhs@)),
    {
        crate::expression_utils::assignment(self.lhs.clone(), self.rhs.clone())
    }

    /// The assignment that does nothing.
    pub fn no_op(size: usize) -> (r: Assignment)
        ensures
            r.lhs@ == seq![node(OpView::Nop, size)],
            r.rhs@ == seq![node(OpView::Nop, size)],
            r.size == size,
    {
        Assignment::new(LinearizedExpr::no_op(size), LinearizedExpr::no_op(size))
    }

    /// `lhs = rhs` in infix text.
    pub fn to_string(&self) -> (r: String)
        requires
            well_formed(self.lhs@),
            well_formed(self.rhs@),
        ensures
            r@ == assignment_text(self),
    {
        let mut r = self.lhs.to_infix();
        r.append(" = ");
        let rhs = self.rhs.to_infix();
        r.append(rhs.as_str());
        r
    }

    pub fn is_nop(&self) -> (r: bool)
        requires
            self.lhs@.len() > 0,
            self.rhs@.len() > 0,
        ensures
            r == (self.lhs@.last().op is Nop && self.rhs@.last().op is Nop),
    {
        self.lhs.is_nop() && self.rhs.is_nop()
    }
}

/// The text of an assignment.
pub open spec fn assignment_text(a: &Assignment) -> Seq<char> {
    infix(a.lhs@) + " = "@ + infix(a.rhs@)
}

/// The texts of assignments `1..n`, each after a separator.
pub open spec fn formula_tail(v: Seq<Assignment>, n: int) -> Seq<char>
    decreases n,
{
    if n <= 1 {
        Seq::empty()
    } else {
        formula_tail(v, n - 1) + " ; "@ + assignment_text(&v[n - 1])
    }
}

/// A sequence of assignments.
pub struct SemanticFormula(pub Vec<Assignment>);

impl SemanticFormula {
    pub fn new(v: Vec<Assignment>) -> (r: SemanticFormula)
        ensures
            r.0 == v,
    {
        SemanticFormula(v)
    }

    /// The assignments in braces, separated by semicolons.
    pub fn to_string(&self) -> (r: String)
        requires
            self.0@.len() > 0,
            forall|i: int|
                0 <= i < self.0@.len() ==> well_formed(#[trigger] self.0@[i].lhs@) && well_formed(
                    self.0@[i].rhs@,
                ),
        ensures
            r@ == "{ "@ + assignment_text(&self.0@[0]) + formula_tail(self.0@, self.0@.len() as int)
                + " }"@,
    {
        let mut ret = String::new();
        ret.append("{ ");
        let first = self.0[0].to_string();
        ret.append(first.as_str());
        let ghost head = ret@;
        let mut i: usize = 1;
        while i < self.0.len()
            invariant
                1 <= i <= self.0@.len(),
                head == "{ "@ + assignment_text(&self.0@[0]),
                ret@ == head + formula_tail(self.0@, i as int),
                forall|j: int|
                    0 <= j < self.0@.len() ==> well_formed(#[trigger] self.0@[j].lhs@) && well_formed(
                        self.0@[j].rhs@,
                    ),
            decreases self.0@.len() - i,
        {
            ret.append(" ; ");
            let t = self.0[i].to_string();
            ret.append(t.as_str());
            i += 1;
            assert(ret@ =~= head + formula_tail(self.0@, i as int));
        }
        ret.append(" }");
        ret
    }
}

} // verus!
