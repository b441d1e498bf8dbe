//! Rendering of expressions as infix text.
use crate::assignment::Assignment;
use crate::evaluator::{evaluate, lemma_run_stack_len, run_stack};
use crate::expr::{height, op_arity, well_formed, LinearExpr, LinearExprOp, LinearizedExpr, NodeView, OpView};
use vstd::prelude::*;
use vstd::string::StringExecFns;

verus! {

/// One hexadecimal or decimal digit.
pub open spec fn digit(d: nat) -> Seq<char> {
    if d == 0 { "0"@ } else if d == 1 { "1"@ } else if d == 2 { "2"@ } else if d == 3 { "3"@ }
    else if d == 4 { "4"@ } else if d == 5 { "5"@ } else if d == 6 { "6"@ } else if d == 7 { "7"@ }
    else if d == 8 { "8"@ } else if d == 9 { "9"@ } else if d == 10 { "a"@ } else if d == 11 { "b"@ }
    else if d == 12 { "c"@ } else if d == 13 { "d"@ } else if d == 14 { "e"@ } else { "f"@ }
}

/// The digits of `n` in base 16 (`hex`) or 10, most significant first, without leading
/// zeros.
pub open spec fn digits(n: nat, hex: bool) -> Seq<char>
    decreases n,
{
    if hex {
        if n < 16 {
            digit(n)
        } else {
            digits(n / 16, hex) + digit(n % 16)
        }
    } else {
        if n < 10 {
            digit(n)
        } else {
            digits(n / 10, hex) + digit(n % 10)
        }
    }
}

fn digit_str(d: u64) -> (r: &'static str)
    requires
        d < 16,
    ensures
        r@ == digit(d as nat),
{
    match d {
        0 => "0",
        1 => "1",
        2 => "2",
        3 => "3",
        4 => "4",
        5 => "5",
        6 => "6",
        7 => "7",
        8 => "8",
        9 => "9",
        10 => "a",
        11 => "b",
        12 => "c",
        13 => "d",
        14 => "e",
        _ => "f",
    }
}

/// Appends the digits of `n` in base `b` (10 or 16).
pub fn push_digits(out: &mut String, n: u64, hex: bool)
    ensures
        final(out)@ == old(out)@ + digits(n as nat, hex),
    decreases n,
{
    let b: u64 = if hex {
        16
    } else {
        10
    };
    if n < b {
        out.append(digit_str(n));
    } else {
        push_digits(out, n / b, hex);
        out.append(digit_str(n % b));
        assert(final(out)@ =~= old(out)@ + digits(n as nat, hex));
    }
}

/// Decimal text of `n`.
pub open spec fn dec(n: nat) -> Seq<char> {
    digits(n, false)
}

/// The text of one element applied to the texts of its operands.
pub open spec fn infix_step(a: Seq<Seq<char>>, e: NodeView) -> Seq<char> {
    let size = dec(e.size as nat);
    match e.op {
        OpView::Const(x) => "0x"@ + digits(x as nat, true),
        OpView::ConstSlice(x, y) => "Const["@ + dec(x as nat) + ":"@ + dec(y as nat) + "]"@,
        OpView::Reg(n) => n,
        OpView::RegSlice(x, y) => "Reg["@ + dec(x as nat) + ":"@ + dec(y as nat) + "]"@,
        OpView::E => "E"@,
        OpView::Nop => "NOP"@,
        OpView::Alloc(c) => "Alloc("@ + dec(c as nat) + ")"@,
        OpView::ZeroExtend => "ZeroExtend("@ + a[0] + ", "@ + size + ")"@,
        OpView::SignExtend => "SignExtend("@ + a[0] + ", "@ + size + ")"@,
        OpView::Trunc => "Trunc("@ + a[0] + ", "@ + size + ")"@,
        OpView::Not => "(~ "@ + a[0] + ")"@,
        OpView::Neg => "(- "@ + a[0] + ")"@,
        OpView::Mem => "@"@ + size + "["@ + a[0] + "]"@,
        OpView::Slice(s, t) => "Slice("@ + a[0] + ", "@ + dec(s as nat) + ", "@ + dec(t as nat) + ")"@,
        OpView::Load => "Load("@ + a[0] + ", "@ + size + ")"@,
        OpView::BitCast => "BitCast("@ + a[0] + ", "@ + size + ")"@,
        OpView::Alloca => "Alloca("@ + a[0] + ")"@,
        OpView::Assign => "("@ + a[0] + " = "@ + a[1] + ")"@,
        OpView::Add => "("@ + a[0] + " + "@ + a[1] + ")"@,
        OpView::Sub => "("@ + a[0] + " - "@ + a[1] + ")"@,
        OpView::And => "("@ + a[0] + " & "@ + a[1] + ")"@,
        OpView::Or => "("@ + a[0] + " | "@ + a[1] + ")"@,
        OpView::Xor => "("@ + a[0] + " ^ "@ + a[1] + ")"@,
        OpView::Nand => "("@ + a[0] + " NAND "@ + a[1] + ")"@,
        OpView::Nor => "("@ + a[0] + " NOR "@ + a[1] + ")"@,
        OpView::Mul => "("@ + a[0] + " * "@ + a[1] + ")"@,
        OpView::Udiv => "("@ + a[0] + " / "@ + a[1] + ")"@,
        OpView::Sdiv => "("@ + a[0] + " /s "@ + a[1] + ")"@,
        OpView::Urem => "("@ + a[0] + " % "@ + a[1] + ")"@,
        OpView::Srem => "("@ + a[0] + " %s "@ + a[1] + ")"@,
        OpView::Ult => "("@ + a[0] + " < "@ + a[1] + ")"@,
        OpView::Slt => "("@ + a[0] + " <s "@ + a[1] + ")"@,
        OpView::Ule => "("@ + a[0] + " <= "@ + a[1] + ")"@,
        OpView::Sle => "("@ + a[0] + " <=s "@ + a[1] + ")"@,
        OpView::Equal => "("@ + a[0] + " == "@ + a[1] + ")"@,
        OpView::Ashr => "("@ + a[0] + " a>> "@ + a[1] + ")"@,
        OpView::Lshr => "("@ + a[0] + " >> "@ + a[1] + ")"@,
        OpView::Shl => "("@ + a[0] + " << "@ + a[1] + ")"@,
        OpView::Concat => "("@ + a[0] + " ++ "@ + a[1] + ")"@,
        OpView::GEP => "GEP("@ + a[0] + ", "@ + a[1] + ")"@,
        OpView::Store => "Store("@ + a[0] + ", "@ + a[1] + ", "@ + size + ")"@,
        OpView::Ite => "("@ + a[0] + " ? "@ + a[1] + " : "@ + a[2] + ")"@,
    }
}

/// [`infix_step`] as a function value.
pub open spec fn infix_builder() -> spec_fn(Seq<Seq<char>>, NodeView) -> Seq<char> {
    |a: Seq<Seq<char>>, e: NodeView| infix_step(a, e)
}

/// The infix text of an expression.
pub open spec fn infix(s: Seq<NodeView>) -> Seq<char> {
    evaluate(s, infix_builder())
}

/// The models of a vector of strings.
pub open spec fn strings_view(v: Seq<String>) -> Seq<Seq<char>> {
    v.map_values(|s: String| s@)
}

fn pop_strings(stack: &mut Vec<String>, k: usize) -> (r: Vec<String>)
    requires
        k <= 3,
        k <= old(stack)@.len(),
    ensures
        strings_view(r@) == strings_view(old(stack)@).subrange(old(stack)@.len() - k, old(stack)@.len() as int),
        strings_view(final(stack)@) == strings_view(old(stack)@).subrange(0, old(stack)@.len() - k),
{
    let ghost all = strings_view(stack@);
    let ghost n = stack@.len() as int;
    let r = if k == 0 {
        Vec::new()
    } else if k == 1 {
        let x = stack.pop().unwrap();
        vec![x]
    } else if k == 2 {
        let y = stack.pop().unwrap();
        let x = stack.pop().unwrap();
        vec![x, y]
    } else {
        let z = stack.pop().unwrap();
        let y = stack.pop().unwrap();
        let x = stack.pop().unwrap();
        vec![x, y, z]
    };
    assert(stack@ =~= old(stack)@.subrange(0, n - k));
    assert(strings_view(stack@) =~= all.subrange(0, n - k));
    assert(strings_view(r@) =~= all.subrange(n - k, n));
    r
}

fn render_step(a: &Vec<String>, e: &LinearExpr) -> (r: String)
    requires
        a@.len() == op_arity(e@.op),
    ensures
        r@ == infix_step(strings_view(a@), e@),
{
    let ghost av = strings_view(a@);
    assert(a@.len() >= 1 ==> av[0] == a@[0]@);
    assert(a@.len() >= 2 ==> av[1] == a@[1]@);
    assert(a@.len() >= 3 ==> av[2] == a@[2]@);
    let mut r = String::new();
    match &e.op {
        LinearExprOp::Const(x) => {
            r.append("0x");
            push_digits(&mut r, *x, true);
        },
        LinearExprOp::ConstSlice(x, y) => {
            r.append("Const[");
            push_digits(&mut r, *x as u64, false);
            r.append(":");
            push_digits(&mut r, *y as u64, false);
            r.append("]");
        },
        LinearExprOp::Reg(n) => {
            r.append(n.as_str());
        },
        LinearExprOp::RegSlice(x, y) => {
            r.append("Reg[");
            push_digits(&mut r, *x as u64, false);
            r.append(":");
            push_digits(&mut r, *y as u64, false);
            r.append("]");
        },
        LinearExprOp::E => {
            r.append("E");
        },
        LinearExprOp::Nop => {
            r.append("NOP");
        },
        LinearExprOp::Alloc(c) => {
            r.append("Alloc(");
            push_digits(&mut r, *c, false);
            r.append(")");
        },
        LinearExprOp::Not => {
            r.append("(~ ");
            r.append(a[0].as_str());
            r.append(")");
        },
        LinearExprOp::Neg => {
            r.append("(- ");
            r.append(a[0].as_str());
            r.append(")");
        },
        LinearExprOp::Mem => {
            r.append("@");
            push_digits(&mut r, e.size as u64, false);
            r.append("[");
            r.append(a[0].as_str());
            r.append("]");
        },
        LinearExprOp::Slice(s, t) => {
            r.append("Slice(");
            r.append(a[0].as_str());
            r.append(", ");
            push_digits(&mut r, *s as u64, false);
            r.append(", ");
            push_digits(&mut r, *t as u64, false);
            r.append(")");
        },
        LinearExprOp::Alloca => {
            r.append("Alloca(");
            r.append(a[0].as_str());
            r.append(")");
        },
        LinearExprOp::ZeroExtend => {
            r.append("ZeroExtend(");
            r.append(a[0].as_str());
            r.append(", ");
            push_digits(&mut r, e.size as u64, false);
            r.append(")");
        },
        LinearExprOp::SignExtend => {
            r.append("SignExtend(");
            r.append(a[0].as_str());
            r.append(", ");
            push_digits(&mut r, e.size as u64, false);
            r.append(")");
        },
        LinearExprOp::Trunc => {
            r.append("Trunc(");
            r.append(a[0].as_str());
            r.append(", ");
            push_digits(&mut r, e.size as u64, false);
            r.append(")");
        },
        LinearExprOp::Load => {
            r.append("Load(");
            r.append(a[0].as_str());
            r.append(", ");
            push_digits(&mut r, e.size as u64, false);
            r.append(")");
        },
        LinearExprOp::BitCast => {
            r.append("BitCast(");
            r.append(a[0].as_str());
            r.append(", ");
            push_digits(&mut r, e.size as u64, false);
            r.append(")");
        },
        LinearExprOp::Assign => {
            r.append("(");
            r.append(a[0].as_str());
            r.append(" = ");
            r.append(a[1].as_str());
            r.append(")");
        },
        LinearExprOp::Add => {
            r.append("(");
            r.append(a[0].as_str());
            r.append(" + ");
            r.append(a[1].as_str());
            r.append(")");
        },
        LinearExprOp::Sub => {
            r.append("(");
            r.append(a[0].as_str());
            r.append(" - ");
            r.append(a[1].as_str());
            r.append(")");
        },
        LinearExprOp::And => {
            r.append("(");
            r.append(a[0].as_str());
            r.append(" & ");
            r.append(a[1].as_str());
            r.append(")");
        },
        LinearExprOp::Or => {
            r.append("(");
            r.append(a[0].as_str());
            r.append(" | ");
            r.append(a[1].as_str());
            r.append(")");
        },
        LinearExprOp::Xor => {
            r.append("(");
            r.append(a[0].as_str());
            r.append(" ^ ");
            r.append(a[1].as_str());
            r.append(")");
        },
        LinearExprOp::Nand => {
            r.append("(");
            r.append(a[0].as_str());
            r.append(" NAND ");
            r.append(a[1].as_str());
            r.append(")");
        },
        LinearExprOp::Nor => {
            r.append("(");
            r.append(a[0].as_str());
            r.append(" NOR ");
            r.append(a[1].as_str());
            r.append(")");
        },
        LinearExprOp::Mul => {
            r.append("(");
            r.append(a[0].as_str());
            r.append(" * ");
            r.append(a[1].as_str());
            r.append(")");
        },
        LinearExprOp::Udiv => {
            r.append("(");
            r.append(a[0].as_str());
            r.append(" / ");
            r.append(a[1].as_str());
            r.append(")");
        },
        LinearExprOp::Sdiv => {
            r.append("(");
            r.append(a[0].as_str());
            r.append(" /s ");
            r.append(a[1].as_str());
            r.append(")");
        },
        LinearExprOp::Urem => {
            r.append("(");
            r.append(a[0].as_str());
            r.append(" % ");
            r.append(a[1].as_str());
            r.append(")");
        },
        LinearExprOp::Srem => {
            r.append("(");
            r.append(a[0].as_str());
            r.append(" %s ");
            r.append(a[1].as_str());
            r.append(")");
        },
        LinearExprOp::Ult => {
            r.append("(");
            r.append(a[0].as_str());
            r.append(" < ");
            r.append(a[1].as_str());
            r.append(")");
        },
        LinearExprOp::Slt => {
            r.append("(");
            r.append(a[0].as_str());
            r.append(" <s ");
            r.append(a[1].as_str());
            r.append(")");
        },
        LinearExprOp::Ule => {
            r.append("(");
            r.append(a[0].as_str());
            r.append(" <= ");
            r.append(a[1].as_str());
            r.append(")");
        },
        LinearExprOp::Sle => {
            r.append("(");
            r.append(a[0].as_str());
            r.append(" <=s ");
            r.append(a[1].as_str());
            r.append(")");
        },
        LinearExprOp::Equal => {
            r.append("(");
            r.append(a[0].as_str());
            r.append(" == ");
            r.append(a[1].as_str());
            r.append(")");
        },
        LinearExprOp::Ashr => {
            r.append("(");
            r.append(a[0].as_str());
            r.append(" a>> ");
            r.append(a[1].as_str());
            r.append(")");
        },
        LinearExprOp::Lshr => {
            r.append("(");
            r.append(a[0].as_str());
            r.append(" >> ");
            r.append(a[1].as_str());
            r.append(")");
        },
        LinearExprOp::Shl => {
            r.append("(");
            r.append(a[0].as_str());
            r.append(" << ");
            r.append(a[1].as_str());
            r.append(")");
        },
        LinearExprOp::Concat => {
            r.append("(");
            r.append(a[0].as_str());
            r.append(" ++ ");
            r.append(a[1].as_str());
            r.append(")");
        },
        LinearExprOp::GEP => {
            r.append("GEP(");
            r.append(a[0].as_str());
            r.append(", ");
            r.append(a[1].as_str());
            r.append(")");
        },
        LinearExprOp::Store => {
            r.append("Store(");
            r.append(a[0].as_str());
            r.append(", ");
            r.append(a[1].as_str());
            r.append(", ");
            push_digits(&mut r, e.size as u64, false);
            r.append(")");
        },
        LinearExprOp::Ite => {
            r.append("(");
            r.append(a[0].as_str());
            r.append(" ? ");
            r.append(a[1].as_str());
            r.append(" : ");
            r.append(a[2].as_str());
            r.append(")");
        },
    }
    assert(r@ =~= infix_step(av, e@));
    r
}

impl LinearizedExpr {
    /// The expression as infix text.
    pub fn to_infix(&self) -> (r: String)
        requires
            well_formed(self@),
        ensures
            r@ == infix(self@),
    {
        let ghost step = infix_builder();
        let mut stack: Vec<String> = Vec::new();
        let n = self.0.len();
        let mut i: usize = 0;
        assert(strings_view(stack@) =~= run_stack(self@, 0, step));
        while i < n
            invariant
                n == self@.len(),
                i <= n,
                well_formed(self@),
                step == infix_builder(),
                strings_view(stack@) == run_stack(self@, i as nat, step),
            decreases n - i,
        {
            proof {
                lemma_run_stack_len(self@, i as nat, step);
                let ii = i as int;
                assert(height(self@, ii as nat) >= op_arity(self@[ii].op));
            }
            let e = &self.0[i];
            assert(e@ == self@[i as int]);
            let k = e.arity();
            let ghost st = strings_view(stack@);
            let args = pop_strings(&mut stack, k);
            let ghost base = strings_view(stack@);
            assert(strings_view(args@).len() == args@.len());
            let res = render_step(&args, e);
            stack.push(res);
            proof {
                assert(strings_view(stack@) =~= base.push(res@));
                let a = st.subrange(st.len() - op_arity(self@[i as int].op), st.len() as int);
                assert(step(a, self@[i as int]) == res@);
            }
            i += 1;
        }
        proof {
            lemma_run_stack_len(self@, n as nat, step);
        }
        stack.pop().unwrap()
    }

    /// The expression as infix text.
    pub fn to_string(&self) -> (r: String)
        requires
            well_formed(self@),
        ensures
            r@ == infix(self@),
    {
        self.to_infix()
    }
}

/// Operators that have a z3py rendering.
pub open spec fn z3py_op(op: OpView) -> bool {
    match op {
        OpView::Reg(_) | OpView::Const(_) | OpView::Not | OpView::Neg | OpView::Add | OpView::Sub
        | OpView::Mul | OpView::Urem | OpView::Shl | OpView::Lshr | OpView::Ashr | OpView::And
        | OpView::Or | OpView::Xor | OpView::Ite => true,
        _ => false,
    }
}

/// The z3py text of one element applied to the texts of its operands.
pub open spec fn z3py_step(a: Seq<Seq<char>>, e: NodeView) -> Seq<char> {
    let size = dec(e.size as nat);
    match e.op {
        OpView::Reg(n) => "BitVec(\""@ + n + "\", "@ + size + ")"@,
        OpView::Const(x) => "BitVecVal("@ + dec(x as nat) + ", "@ + size + ")"@,
        OpView::Not => "(~"@ + a[0] + ")"@,
        OpView::Neg => "(-"@ + a[0] + ")"@,
        OpView::Add => "("@ + a[0] + " + "@ + a[1] + ")"@,
        OpView::Sub => "("@ + a[0] + " - "@ + a[1] + ")"@,
        OpView::Mul => "("@ + a[0] + " * "@ + a[1] + ")"@,
        OpView::Shl => "("@ + a[0] + " << "@ + a[1] + ")"@,
        OpView::Ashr => "("@ + a[0] + " >> "@ + a[1] + ")"@,
        OpView::And => "("@ + a[0] + " & "@ + a[1] + ")"@,
        OpView::Or => "("@ + a[0] + " | "@ + a[1] + ")"@,
        OpView::Xor => "("@ + a[0] + " ^ "@ + a[1] + ")"@,
        OpView::Urem => "URem("@ + a[0] + ", "@ + a[1] + ")"@,
        OpView::Lshr => "LShR("@ + a[0] + ", "@ + a[1] + ")"@,
        _ => "(If("@ + a[0] + ", "@ + a[1] + ", "@ + a[2] + "))"@,
    }
}

pub open spec fn z3py_builder() -> spec_fn(Seq<Seq<char>>, NodeView) -> Seq<char> {
    |a: Seq<Seq<char>>, e: NodeView| z3py_step(a, e)
}

/// Rendering of expressions as z3py source text, for equivalence queries.
pub struct TranslatorZ3PythonString {}

impl TranslatorZ3PythonString {
    fn step(a: &Vec<String>, e: &LinearExpr) -> (r: String)
        requires
            a@.len() == op_arity(e@.op),
            z3py_op(e@.op),
        ensures
            r@ == z3py_step(strings_view(a@), e@),
    {
        let ghost av = strings_view(a@);
        assert(a@.len() >= 1 ==> av[0] == a@[0]@);
        assert(a@.len() >= 2 ==> av[1] == a@[1]@);
        assert(a@.len() >= 3 ==> av[2] == a@[2]@);
        let mut r = String::new();
        match &e.op {
            LinearExprOp::Reg(n) => {
                r.append("BitVec(\"");
                r.append(n.as_str());
                r.append("\", ");
                push_digits(&mut r, e.size as u64, false);
                r.append(")");
            },
            LinearExprOp::Const(x) => {
                r.append("BitVecVal(");
                push_digits(&mut r, *x, false);
                r.append(", ");
                push_digits(&mut r, e.size as u64, false);
                r.append(")");
            },
            LinearExprOp::Not => {
                r.append("(~");
                r.append(a[0].as_str());
                r.append(")");
            },
            LinearExprOp::Neg => {
                r.append("(-");
                r.append(a[0].as_str());
                r.append(")");
            },
            LinearExprOp::Add => {
                r.append("(");
                r.append(a[0].as_str());
                r.append(" + ");
                r.append(a[1].as_str());
                r.append(")");
            },
            LinearExprOp::Sub => {
                r.append("(");
                r.append(a[0].as_str());
                r.append(" - ");
                r.append(a[1].as_str());
                r.append(")");
            },
            LinearExprOp::Mul => {
                r.append("(");
                r.append(a[0].as_str());
                r.append(" * ");
                r.append(a[1].as_str());
                r.append(")");
            },
            LinearExprOp::Shl => {
                r.append("(");
                r.append(a[0].as_str());
                r.append(" << ");
                r.append(a[1].as_str());
                r.append(")");
            },
            LinearExprOp::Ashr => {
                r.append("(");
                r.append(a[0].as_str());
                r.append(" >> ");
                r.append(a[1].as_str());
                r.append(")");
            },
            LinearExprOp::And => {
                r.append("(");
                r.append(a[0].as_str());
                r.append(" & ");
                r.append(a[1].as_str());
                r.append(")");
            },
            LinearExprOp::Or => {
                r.append("(");
                r.append(a[0].as_str());
                r.append(" | ");
                r.append(a[1].as_str());
                r.append(")");
            },
            LinearExprOp::Xor => {
                r.append("(");
                r.append(a[0].as_str());
                r.append(" ^ ");
                r.append(a[1].as_str());
                r.append(")");
            },
            LinearExprOp::Urem => {
                r.append("URem(");
                r.append(a[0].as_str());
                r.append(", ");
                r.append(a[1].as_str());
                r.append(")");
            },
            LinearExprOp::Lshr => {
                r.append("LShR(");
                r.append(a[0].as_str());
                r.append(", ");
                r.append(a[1].as_str());
                r.append(")");
            },
            _ => {
                r.append("(If(");
                r.append(a[0].as_str());
                r.append(", ");
                r.append(a[1].as_str());
                r.append(", ");
                r.append(a[2].as_str());
                r.append("))");
            },
        }
        assert(r@ =~= z3py_step(av, e@));
        r
    }

    /// The expression as a z3py bit-vector term.
    pub fn translate(expr: &LinearizedExpr) -> (r: String)
        requires
            well_formed(expr@),
            forall|i: int| 0 <= i < expr@.len() ==> #[trigger] z3py_op(expr@[i].op),
        ensures
            r@ == evaluate(expr@, z3py_builder()),
    {
        let ghost step = z3py_builder();
        let mut stack: Vec<String> = Vec::new();
        let n = expr.0.len();
        let mut i: usize = 0;
        assert(strings_view(stack@) =~= run_stack(expr@, 0, step));
        while i < n
            invariant
                n == expr@.len(),
                i <= n,
                well_formed(expr@),
                forall|t: int| 0 <= t < expr@.len() ==> #[trigger] z3py_op(expr@[t].op),
                step == z3py_builder(),
                strings_view(stack@) == run_stack(expr@, i as nat, step),
            decreases n - i,
        {
            proof {
                lemma_run_stack_len(expr@, i as nat, step);
                let ii = i as int;
                assert(height(expr@, ii as nat) >= op_arity(expr@[ii].op));
            }
            let e = &expr.0[i];
            assert(e@ == expr@[i as int]);
            let k = e.arity();
            let ghost st = strings_view(stack@);
            let args = pop_strings(&mut stack, k);
            let ghost base = strings_view(stack@);
            assert(strings_view(args@).len() == args@.len());
            let res = TranslatorZ3PythonString::step(&args, e);
            stack.push(res);
            proof {
                assert(strings_view(stack@) =~= base.push(res@));
                let a = st.subrange(st.len() - op_arity(expr@[i as int].op), st.len() as int);
                assert(step(a, expr@[i as int]) == res@);
            }
            i += 1;
        }
        proof {
            lemma_run_stack_len(expr@, n as nat, step);
        }
        stack.pop().unwrap()
    }
}

/// Operators the pseudo-assembly emitter handles.
pub open spec fn assembly_op(op: OpView) -> bool {
    match op {
        OpView::Reg(_) | OpView::Const(_) | OpView::Nop | OpView::Ite | OpView::Not | OpView::Neg | OpView::ZeroExtend | OpView::SignExtend | OpView::Load | OpView::Add | OpView::Sub | OpView::And | OpView::Or | OpView::Xor | OpView::Shl | OpView::Lshr | OpView::Ashr | OpView::Equal | OpView::Mul | OpView::Udiv | OpView::Sdiv | OpView::Urem | OpView::Srem | OpView::Ult | OpView::Slt | OpView::Ule | OpView::Sle => true,
        _ => false,
    }
}

/// The pseudo-assembly of one element applied to the texts of its operands.
pub open spec fn assembly_step(a: Seq<Seq<char>>, e: NodeView) -> Seq<char> {
    let size = dec(e.size as nat);
    match e.op {
        OpView::Reg(n) => "REG "@ + size + " "@ + n,
        OpView::Const(x) => "INT "@ + size + " 0x"@ + digits(x as nat, true),
        OpView::Nop => "NOP"@,
        OpView::Not => "NOT "@ + size + " "@ + a[0],
        OpView::Neg => "NEG "@ + size + " "@ + a[0],
        OpView::ZeroExtend => "ZEXT "@ + size + " "@ + a[0],
        OpView::SignExtend => "SEXT "@ + size + " "@ + a[0],
        OpView::Load => "LOAD "@ + size + " "@ + a[0],
        OpView::Add => "ADD "@ + size + " "@ + a[0] + " "@ + a[1],
        OpView::Sub => "SUB "@ + size + " "@ + a[0] + " "@ + a[1],
        OpView::And => "AND "@ + size + " "@ + a[0] + " "@ + a[1],
        OpView::Or => "OR "@ + size + " "@ + a[0] + " "@ + a[1],
        OpView::Xor => "XOR "@ + size + " "@ + a[0] + " "@ + a[1],
        OpView::Shl => "SHL "@ + size + " "@ + a[0] + " "@ + a[1],
        OpView::Lshr => "LSHR "@ + size + " "@ + a[0] + " "@ + a[1],
        OpView::Ashr => "ASHR "@ + size + " "@ + a[0] + " "@ + a[1],
        OpView::Equal => "ICMPEQ "@ + size + " "@ + a[0] + " "@ + a[1],
        OpView::Mul => "MUL "@ + size + " "@ + a[0] + " "@ + a[1],
        OpView::Udiv => "UDIV "@ + size + " "@ + a[0] + " "@ + a[1],
        OpView::Sdiv => "SDIV "@ + size + " "@ + a[0] + " "@ + a[1],
        OpView::Urem => "UREM "@ + size + " "@ + a[0] + " "@ + a[1],
        OpView::Srem => "SREM "@ + size + " "@ + a[0] + " "@ + a[1],
        OpView::Ult => "ULT "@ + size + " "@ + a[0] + " "@ + a[1],
        OpView::Slt => "SLT "@ + size + " "@ + a[0] + " "@ + a[1],
        OpView::Ule => "ULE "@ + size + " "@ + a[0] + " "@ + a[1],
        OpView::Sle => "SLE "@ + size + " "@ + a[0] + " "@ + a[1],
        _ => "ITE "@ + size + " "@ + a[0] + " "@ + a[1] + " "@ + a[2],
    }
}

pub open spec fn assembly_builder() -> spec_fn(Seq<Seq<char>>, NodeView) -> Seq<char> {
    |a: Seq<Seq<char>>, e: NodeView| assembly_step(a, e)
}

/// The pseudo-assembly of an expression.
pub open spec fn assembly(s: Seq<NodeView>) -> Seq<char> {
    evaluate(s, assembly_builder())
}

/// Emission of handler semantics as pseudo-assembly for the code generator.
pub struct LLVMTranslator {}

impl LLVMTranslator {
    fn step(a: &Vec<String>, e: &LinearExpr) -> (r: String)
        requires
            a@.len() == op_arity(e@.op),
            assembly_op(e@.op),
        ensures
            r@ == assembly_step(strings_view(a@), e@),
    {
        let ghost av = strings_view(a@);
        assert(a@.len() >= 1 ==> av[0] == a@[0]@);
        assert(a@.len() >= 2 ==> av[1] == a@[1]@);
        assert(a@.len() >= 3 ==> av[2] == a@[2]@);
        let mut r = String::new();
        match &e.op {
            LinearExprOp::Reg(n) => {
                r.append("REG ");
                push_digits(&mut r, e.size as u64, false);
                r.append(" ");
                r.append(n.as_str());
            },
            LinearExprOp::Const(x) => {
                r.append("INT ");
                push_digits(&mut r, e.size as u64, false);
                r.append(" 0x");
                push_digits(&mut r, *x, true);
            },
            LinearExprOp::Nop => {
                r.append("NOP");
            },
            LinearExprOp::Not => {
                r.append("NOT ");
                push_digits(&mut r, e.size as u64, false);
                r.append(" ");
                r.append(a[0].as_str());
            },
            LinearExprOp::Neg => {
                r.append("NEG ");
                push_digits(&mut r, e.size as u64, false);
                r.append(" ");
                r.append(a[0].as_str());
            },
            LinearExprOp::ZeroExtend => {
                r.append("ZEXT ");
                push_digits(&mut r, e.size as u64, false);
                r.append(" ");
                r.append(a[0].as_str());
            },
            LinearExprOp::SignExtend => {
                r.append("SEXT ");
                push_digits(&mut r, e.size as u64, false);
                r.append(" ");
                r.append(a[0].as_str());
            },
            LinearExprOp::Load => {
                r.append("LOAD ");
                push_digits(&mut r, e.size as u64, false);
                r.append(" ");
                r.append(a[0].as_str());
            },
            LinearExprOp::Add => {
                r.append("ADD ");
                push_digits(&mut r, e.size as u64, false);
                r.append(" ");
                r.append(a[0].as_str());
                r.append(" ");
                r.append(a[1].as_str());
            },
            LinearExprOp::Sub => {
                r.append("SUB ");
                push_digits(&mut r, e.size as u64, false);
                r.append(" ");
                r.append(a[0].as_str());
                r.append(" ");
                r.append(a[1].as_str());
            },
            LinearExprOp::And => {
                r.append("AND ");
                push_digits(&mut r, e.size as u64, false);
                r.append(" ");
                r.append(a[0].as_str());
                r.append(" ");
                r.append(a[1].as_str());
            },
            LinearExprOp::Or => {
                r.append("OR ");
                push_digits(&mut r, e.size as u64, false);
                r.append(" ");
                r.append(a[0].as_str());
                r.append(" ");
                r.append(a[1].as_str());
            },
            LinearExprOp::Xor => {
                r.append("XOR ");
                push_digits(&mut r, e.size as u64, false);
                r.append(" ");
                r.append(a[0].as_str());
                r.append(" ");
                r.append(a[1].as_str());
            },
            LinearExprOp::Shl => {
                r.append("SHL ");
                push_digits(&mut r, e.size as u64, false);
                r.append(" ");
                r.append(a[0].as_str());
                r.append(" ");
                r.append(a[1].as_str());
            },
            LinearExprOp::Lshr => {
                r.append("LSHR ");
                push_digits(&mut r, e.size as u64, false);
                r.append(" ");
                r.append(a[0].as_str());
                r.append(" ");
                r.append(a[1].as_str());
            },
            LinearExprOp::Ashr => {
                r.append("ASHR ");
                push_digits(&mut r, e.size as u64, false);
                r.append(" ");
                r.append(a[0].as_str());
                r.append(" ");
                r.append(a[1].as_str());
            },
            LinearExprOp::Equal => {
                r.append("ICMPEQ ");
                push_digits(&mut r, e.size as u64, false);
                r.append(" ");
                r.append(a[0].as_str());
                r.append(" ");
                r.append(a[1].as_str());
            },
            LinearExprOp::Mul => {
                r.append("MUL ");
                push_digits(&mut r, e.size as u64, false);
                r.append(" ");
                r.append(a[0].as_str());
                r.append(" ");
                r.append(a[1].as_str());
            },
            LinearExprOp::Udiv => {
                r.append("UDIV ");
                push_digits(&mut r, e.size as u64, false);
                r.append(" ");
                r.append(a[0].as_str());
                r.append(" ");
                r.append(a[1].as_str());
            },
            LinearExprOp::Sdiv => {
                r.append("SDIV ");
                push_digits(&mut r, e.size as u64, false);
                r.append(" ");
                r.append(a[0].as_str());
                r.append(" ");
                r.append(a[1].as_str());
            },
            LinearExprOp::Urem => {
                r.append("UREM ");
                push_digits(&mut r, e.size as u64, false);
                r.append(" ");
                r.append(a[0].as_str());
                r.append(" ");
                r.append(a[1].as_str());
            },
            LinearExprOp::Srem => {
                r.append("SREM ");
                push_digits(&mut r, e.size as u64, false);
                r.append(" ");
                r.append(a[0].as_str());
                r.append(" ");
                r.append(a[1].as_str());
            },
            LinearExprOp::Ult => {
                r.append("ULT ");
                push_digits(&mut r, e.size as u64, false);
                r.append(" ");
                r.append(a[0].as_str());
                r.append(" ");
                r.append(a[1].as_str());
            },
            LinearExprOp::Slt => {
                r.append("SLT ");
                push_digits(&mut r, e.size as u64, false);
                r.append(" ");
                r.append(a[0].as_str());
                r.append(" ");
                r.append(a[1].as_str());
            },
            LinearExprOp::Ule => {
                r.append("ULE ");
                push_digits(&mut r, e.size as u64, false);
                r.append(" ");
                r.append(a[0].as_str());
                r.append(" ");
                r.append(a[1].as_str());
            },
            LinearExprOp::Sle => {
                r.append("SLE ");
                push_digits(&mut r, e.size as u64, false);
                r.append(" ");
                r.append(a[0].as_str());
                r.append(" ");
                r.append(a[1].as_str());
            },
            _ => {
                r.append("ITE ");
                push_digits(&mut r, e.size as u64, false);
                r.append(" ");
                r.append(a[0].as_str());
                r.append(" ");
                r.append(a[1].as_str());
                r.append(" ");
                r.append(a[2].as_str());
            },
        }
        assert(r@ =~= assembly_step(av, e@));
        r
    }

    /// The expression as pseudo-assembly.
    pub fn translate(expr: &LinearizedExpr) -> (r: String)
        requires
            well_formed(expr@),
            forall|i: int| 0 <= i < expr@.len() ==> #[trigger] assembly_op(expr@[i].op),
        ensures
            r@ == assembly(expr@),
    {
        let ghost step = assembly_builder();
        let mut stack: Vec<String> = Vec::new();
        let n = expr.0.len();
        let mut i: usize = 0;
        assert(strings_view(stack@) =~= run_stack(expr@, 0, step));
        while i < n
            invariant
                n == expr@.len(),
                i <= n,
                well_formed(expr@),
                forall|t: int| 0 <= t < expr@.len() ==> #[trigger] assembly_op(expr@[t].op),
                step == assembly_builder(),
                strings_view(stack@) == run_stack(expr@, i as nat, step),
            decreases n - i,
        {
            proof {
                lemma_run_stack_len(expr@, i as nat, step);
                let ii = i as int;
                assert(height(expr@, ii as nat) >= op_arity(expr@[ii].op));
            }
            let e = &expr.0[i];
            assert(e@ == expr@[i as int]);
            let k = e.arity();
            let ghost st = strings_view(stack@);
            let args = pop_strings(&mut stack, k);
            let ghost base = strings_view(stack@);
            assert(strings_view(args@).len() == args@.len());
            let res = LLVMTranslator::step(&args, e);
            stack.push(res);
            proof {
                assert(strings_view(stack@) =~= base.push(res@));
                let a = st.subrange(st.len() - op_arity(expr@[i as int].op), st.len() as int);
                assert(step(a, expr@[i as int]) == res@);
            }
            i += 1;
        }
        proof {
            lemma_run_stack_len(expr@, n as nat, step);
        }
        stack.pop().unwrap()
    }

    /// One line `name = assembly` per assignment.
    pub fn from_ssa_assignments(assignments: &[Assignment]) -> (r: String)
        requires
            forall|i: int|
                0 <= i < assignments@.len() ==> emittable(#[trigger] assignments@[i]),
        ensures
            r@ == assembly_lines(assignments@, assignments@.len() as int),
    {
        let mut r = String::new();
        let mut i: usize = 0;
        while i < assignments.len()
            invariant
                i <= assignments@.len(),
                forall|t: int| 0 <= t < assignments@.len() ==> emittable(#[trigger] assignments@[t]),
                r@ == assembly_lines(assignments@, i as int),
            decreases assignments@.len() - i,
        {
            let a = &assignments[i];
            assert(emittable(assignments@[i as int]));
            r.append(a.lhs.get_var_name());
            r.append(" = ");
            let t = LLVMTranslator::translate(&a.rhs);
            r.append(t.as_str());
            r.append("\n");
            i += 1;
            assert(r@ =~= assembly_lines(assignments@, i as int));
        }
        r
    }

    /// The pseudo-assembly of a handler's single-assignment form, without its final copy
    /// to the output.
    pub fn from_alu(alu: &Vec<Assignment>) -> (r: String)
        requires
            alu@.len() > 0,
            forall|i: int| 0 <= i < alu@.len() - 1 ==> emittable(#[trigger] alu@[i]),
        ensures
            r@ == assembly_lines(alu@.subrange(0, alu@.len() - 1), alu@.len() - 1),
    {
        let s = vstd::slice::slice_subrange(alu.as_slice(), 0, alu.len() - 1);
        assert forall|i: int| 0 <= i < s@.len() implies emittable(#[trigger] s@[i]) by {
            assert(s@[i] == alu@[i]);
        }
        LLVMTranslator::from_ssa_assignments(s)
    }
}

/// An assignment to a register whose source the emitter handles.
pub open spec fn emittable(a: Assignment) -> bool {
    &&& a.lhs@.len() == 1
    &&& a.lhs@[0].op is Reg
    &&& well_formed(a.rhs@)
    &&& forall|k: int| 0 <= k < a.rhs@.len() ==> #[trigger] assembly_op(a.rhs@[k].op)
}

/// The lines of the first `n` assignments.
pub open spec fn assembly_lines(v: Seq<Assignment>, n: int) -> Seq<char>
    decreases n,
{
    if n <= 0 {
        Seq::empty()
    } else {
        assembly_lines(v, n - 1) + v[n - 1].lhs@[0].op->Reg_0 + " = "@ + assembly(v[n - 1].rhs@) + "\n"@
    }
}

} // verus!
