//! The expression model: operators, postfix elements and postfix sequences.
use vstd::prelude::*;

verus! {

/// Operator tag of one postfix element; terminal operators carry their payload.
#[derive(Debug, Hash, Eq, PartialEq, PartialOrd, Ord)]
pub enum LinearExprOp {
    Assign,
    Add,
    Sub,
    Or,
    And,
    Xor,
    Nand,
    Nor,
    Not,
    Neg,
    Ashr,
    Lshr,
    Shl,
    Mul,
    Udiv,
    Sdiv,
    Urem,
    Srem,
    Ult,
    Slt,
    Ule,
    Sle,
    Equal,
    Const(u64),
    Reg(String),
    RegSlice(u8, u8),
    ConstSlice(u8, u8),
    Ite,
    Slice(u8, u8),
    Mem,
    Concat,
    ZeroExtend,
    SignExtend,
    Trunc,
    BitCast,
    E,
    Nop,
    GEP,
    Load,
    Store,
    Alloc(u64),
    Alloca,
}

/// Mathematical counterpart of [`LinearExprOp`]: a register name is its character sequence.
pub enum OpView {
    Assign,
    Add,
    Sub,
    Or,
    And,
    Xor,
    Nand,
    Nor,
    Not,
    Neg,
    Ashr,
    Lshr,
    Shl,
    Mul,
    Udiv,
    Sdiv,
    Urem,
    Srem,
    Ult,
    Slt,
    Ule,
    Sle,
    Equal,
    Const(u64),
    Reg(Seq<char>),
    RegSlice(u8, u8),
    ConstSlice(u8, u8),
    Ite,
    Slice(u8, u8),
    Mem,
    Concat,
    ZeroExtend,
    SignExtend,
    Trunc,
    BitCast,
    E,
    Nop,
    GEP,
    Load,
    Store,
    Alloc(u64),
    Alloca,
}

impl View for LinearExprOp {
    type V = OpView;

    open spec fn view(&self) -> OpView {
        match self {
            LinearExprOp::Assign => OpView::Assign,
            LinearExprOp::Add => OpView::Add,
            LinearExprOp::Sub => OpView::Sub,
            LinearExprOp::Or => OpView::Or,
            LinearExprOp::And => OpView::And,
            LinearExprOp::Xor => OpView::Xor,
            LinearExprOp::Nand => OpView::Nand,
            LinearExprOp::Nor => OpView::Nor,
            LinearExprOp::Not => OpView::Not,
            LinearExprOp::Neg => OpView::Neg,
            LinearExprOp::Ashr => OpView::Ashr,
            LinearExprOp::Lshr => OpView::Lshr,
            LinearExprOp::Shl => OpView::Shl,
            LinearExprOp::Mul => OpView::Mul,
            LinearExprOp::Udiv => OpView::Udiv,
            LinearExprOp::Sdiv => OpView::Sdiv,
            LinearExprOp::Urem => OpView::Urem,
            LinearExprOp::Srem => OpView::Srem,
            LinearExprOp::Ult => OpView::Ult,
            LinearExprOp::Slt => OpView::Slt,
            LinearExprOp::Ule => OpView::Ule,
            LinearExprOp::Sle => OpView::Sle,
            LinearExprOp::Equal => OpView::Equal,
            LinearExprOp::Const(a) => OpView::Const(*a),
            LinearExprOp::Reg(a) => OpView::Reg(a@),
            LinearExprOp::RegSlice(a, b) => OpView::RegSlice(*a, *b),
            LinearExprOp::ConstSlice(a, b) => OpView::ConstSlice(*a, *b),
            LinearExprOp::Ite => OpView::Ite,
            LinearExprOp::Slice(a, b) => OpView::Slice(*a, *b),
            LinearExprOp::Mem => OpView::Mem,
            LinearExprOp::Concat => OpView::Concat,
            LinearExprOp::ZeroExtend => OpView::ZeroExtend,
            LinearExprOp::SignExtend => OpView::SignExtend,
            LinearExprOp::Trunc => OpView::Trunc,
            LinearExprOp::BitCast => OpView::BitCast,
            LinearExprOp::E => OpView::E,
            LinearExprOp::Nop => OpView::Nop,
            LinearExprOp::GEP => OpView::GEP,
            LinearExprOp::Load => OpView::Load,
            LinearExprOp::Store => OpView::Store,
            LinearExprOp::Alloc(a) => OpView::Alloc(*a),
            LinearExprOp::Alloca => OpView::Alloca,
        }
    }
}

/// Number of operands an operator pops from the evaluation stack.
pub open spec fn op_arity(op: OpView) -> nat {
    match op {
        OpView::Const(..) | OpView::Reg(..) | OpView::RegSlice(..) | OpView::ConstSlice(..) | OpView::E | OpView::Nop | OpView::Alloc(..) => 0,
        OpView::Not | OpView::Neg | OpView::Slice(..) | OpView::Mem | OpView::ZeroExtend | OpView::SignExtend | OpView::Trunc | OpView::BitCast | OpView::Load | OpView::Alloca => 1,
        OpView::Assign | OpView::Add | OpView::Sub | OpView::Or | OpView::And | OpView::Xor | OpView::Nand | OpView::Nor | OpView::Ashr | OpView::Lshr | OpView::Shl | OpView::Mul | OpView::Udiv | OpView::Sdiv | OpView::Urem | OpView::Srem | OpView::Ult | OpView::Slt | OpView::Ule | OpView::Sle | OpView::Equal | OpView::Concat | OpView::GEP | OpView::Store => 2,
        OpView::Ite => 3,
    }
}

impl Clone for LinearExprOp {
    fn clone(&self) -> (r: Self)
        ensures
            r == *self,
    {
        match self {
            LinearExprOp::Assign => LinearExprOp::Assign,
            LinearExprOp::Add => LinearExprOp::Add,
            LinearExprOp::Sub => LinearExprOp::Sub,
            LinearExprOp::Or => LinearExprOp::Or,
            LinearExprOp::And => LinearExprOp::And,
            LinearExprOp::Xor => LinearExprOp::Xor,
            LinearExprOp::Nand => LinearExprOp::Nand,
            LinearExprOp::Nor => LinearExprOp::Nor,
            LinearExprOp::Not => LinearExprOp::Not,
            LinearExprOp::Neg => LinearExprOp::Neg,
            LinearExprOp::Ashr => LinearExprOp::Ashr,
            LinearExprOp::Lshr => LinearExprOp::Lshr,
            LinearExprOp::Shl => LinearExprOp::Shl,
            LinearExprOp::Mul => LinearExprOp::Mul,
            LinearExprOp::Udiv => LinearExprOp::Udiv,
            LinearExprOp::Sdiv => LinearExprOp::Sdiv,
            LinearExprOp::Urem => LinearExprOp::Urem,
            LinearExprOp::Srem => LinearExprOp::Srem,
            LinearExprOp::Ult => LinearExprOp::Ult,
            LinearExprOp::Slt => LinearExprOp::Slt,
            LinearExprOp::Ule => LinearExprOp::Ule,
            LinearExprOp::Sle => LinearExprOp::Sle,
            LinearExprOp::Equal => LinearExprOp::Equal,
            LinearExprOp::Const(a) => LinearExprOp::Const(*a),
            LinearExprOp::Reg(a) => LinearExprOp::Reg(a.clone()),
            LinearExprOp::RegSlice(a, b) => LinearExprOp::RegSlice(*a, *b),
            LinearExprOp::ConstSlice(a, b) => LinearExprOp::ConstSlice(*a, *b),
            LinearExprOp::Ite => LinearExprOp::Ite,
            LinearExprOp::Slice(a, b) => LinearExprOp::Slice(*a, *b),
            LinearExprOp::Mem => LinearExprOp::Mem,
            LinearExprOp::Concat => LinearExprOp::Concat,
            LinearExprOp::ZeroExtend => LinearExprOp::ZeroExtend,
            LinearExprOp::SignExtend => LinearExprOp::SignExtend,
            LinearExprOp::Trunc => LinearExprOp::Trunc,
            LinearExprOp::BitCast => LinearExprOp::BitCast,
            LinearExprOp::E => LinearExprOp::E,
            LinearExprOp::Nop => LinearExprOp::Nop,
            LinearExprOp::GEP => LinearExprOp::GEP,
            LinearExprOp::Load => LinearExprOp::Load,
            LinearExprOp::Store => LinearExprOp::Store,
            LinearExprOp::Alloc(a) => LinearExprOp::Alloc(*a),
            LinearExprOp::Alloca => LinearExprOp::Alloca,
        }
    }
}

impl LinearExprOp {
    /// Number of operands of this operator.
    pub fn arity(&self) -> (r: usize)
        ensures
            r as nat == op_arity(self@),
    {
        match self {
            LinearExprOp::Const(..) | LinearExprOp::Reg(..) | LinearExprOp::RegSlice(..) | LinearExprOp::ConstSlice(..) | LinearExprOp::E | LinearExprOp::Nop | LinearExprOp::Alloc(..) => 0,
            LinearExprOp::Not | LinearExprOp::Neg | LinearExprOp::Slice(..) | LinearExprOp::Mem | LinearExprOp::ZeroExtend | LinearExprOp::SignExtend | LinearExprOp::Trunc | LinearExprOp::BitCast | LinearExprOp::Load | LinearExprOp::Alloca => 1,
            LinearExprOp::Assign | LinearExprOp::Add | LinearExprOp::Sub | LinearExprOp::Or | LinearExprOp::And | LinearExprOp::Xor | LinearExprOp::Nand | LinearExprOp::Nor | LinearExprOp::Ashr | LinearExprOp::Lshr | LinearExprOp::Shl | LinearExprOp::Mul | LinearExprOp::Udiv | LinearExprOp::Sdiv | LinearExprOp::Urem | LinearExprOp::Srem | LinearExprOp::Ult | LinearExprOp::Slt | LinearExprOp::Ule | LinearExprOp::Sle | LinearExprOp::Equal | LinearExprOp::Concat | LinearExprOp::GEP | LinearExprOp::Store => 2,
            LinearExprOp::Ite => 3,
        }
    }

    /// Structural equality; register names compare by their characters.
    pub fn same_as(&self, other: &LinearExprOp) -> (r: bool)
        ensures
            r == (self@ == other@),
    {
        match self {
            LinearExprOp::Assign => matches!(other, LinearExprOp::Assign),
            LinearExprOp::Add => matches!(other, LinearExprOp::Add),
            LinearExprOp::Sub => matches!(other, LinearExprOp::Sub),
            LinearExprOp::Or => matches!(other, LinearExprOp::Or),
            LinearExprOp::And => matches!(other, LinearExprOp::And),
            LinearExprOp::Xor => matches!(other, LinearExprOp::Xor),
            LinearExprOp::Nand => matches!(other, LinearExprOp::Nand),
            LinearExprOp::Nor => matches!(other, LinearExprOp::Nor),
            LinearExprOp::Not => matches!(other, LinearExprOp::Not),
            LinearExprOp::Neg => matches!(other, LinearExprOp::Neg),
            LinearExprOp::Ashr => matches!(other, LinearExprOp::Ashr),
            LinearExprOp::Lshr => matches!(other, LinearExprOp::Lshr),
            LinearExprOp::Shl => matches!(other, LinearExprOp::Shl),
            LinearExprOp::Mul => matches!(other, LinearExprOp::Mul),
            LinearExprOp::Udiv => matches!(other, LinearExprOp::Udiv),
            LinearExprOp::Sdiv => matches!(other, LinearExprOp::Sdiv),
            LinearExprOp::Urem => matches!(other, LinearExprOp::Urem),
            LinearExprOp::Srem => matches!(other, LinearExprOp::Srem),
            LinearExprOp::Ult => matches!(other, LinearExprOp::Ult),
            LinearExprOp::Slt => matches!(other, LinearExprOp::Slt),
            LinearExprOp::Ule => matches!(other, LinearExprOp::Ule),
            LinearExprOp::Sle => matches!(other, LinearExprOp::Sle),
            LinearExprOp::Equal => matches!(other, LinearExprOp::Equal),
            LinearExprOp::Const(a) => match other {
                LinearExprOp::Const(b) => *a == *b,
                _ => false,
            },
            LinearExprOp::Reg(a) => match other {
                LinearExprOp::Reg(b) => a.eq(b),
                _ => false,
            },
            LinearExprOp::RegSlice(a, b) => match other {
                LinearExprOp::RegSlice(c, d) => *a == *c && *b == *d,
                _ => false,
            },
            LinearExprOp::ConstSlice(a, b) => match other {
                LinearExprOp::ConstSlice(c, d) => *a == *c && *b == *d,
                _ => false,
            },
            LinearExprOp::Ite => matches!(other, LinearExprOp::Ite),
            LinearExprOp::Slice(a, b) => match other {
                LinearExprOp::Slice(c, d) => *a == *c && *b == *d,
                _ => false,
            },
            LinearExprOp::Mem => matches!(other, LinearExprOp::Mem),
            LinearExprOp::Concat => matches!(other, LinearExprOp::Concat),
            LinearExprOp::ZeroExtend => matches!(other, LinearExprOp::ZeroExtend),
            LinearExprOp::SignExtend => matches!(other, LinearExprOp::SignExtend),
            LinearExprOp::Trunc => matches!(other, LinearExprOp::Trunc),
            LinearExprOp::BitCast => matches!(other, LinearExprOp::BitCast),
            LinearExprOp::E => matches!(other, LinearExprOp::E),
            LinearExprOp::Nop => matches!(other, LinearExprOp::Nop),
            LinearExprOp::GEP => matches!(other, LinearExprOp::GEP),
            LinearExprOp::Load => matches!(other, LinearExprOp::Load),
            LinearExprOp::Store => matches!(other, LinearExprOp::Store),
            LinearExprOp::Alloc(a) => match other {
                LinearExprOp::Alloc(b) => *a == *b,
                _ => false,
            },
            LinearExprOp::Alloca => matches!(other, LinearExprOp::Alloca),
        }
    }
}

/// One postfix element: an operator and its declared bit width.
#[derive(Debug, Hash, Eq, PartialEq, PartialOrd, Ord)]
pub struct LinearExpr {
    pub size: usize,
    pub op: LinearExprOp,
}

/// Mathematical counterpart of [`LinearExpr`].
pub struct NodeView {
    pub op: OpView,
    pub size: usize,
}

impl View for LinearExpr {
    type V = NodeView;

    open spec fn view(&self) -> NodeView {
        NodeView { op: self.op@, size: self.size }
    }
}

impl Clone for LinearExpr {
    fn clone(&self) -> (r: Self)
        ensures
            r == *self,
    {
        LinearExpr { size: self.size, op: self.op.clone() }
    }
}

/// The element `op` of width `size`, as a value of the model.
pub open spec fn node(op: OpView, size: usize) -> NodeView {
    NodeView { op, size }
}

/// Height of the evaluation stack after the first `n` elements of `s`.
pub open spec fn height(s: Seq<NodeView>, n: nat) -> int
    decreases n,
{
    if n == 0 {
        0
    } else {
        height(s, (n - 1) as nat) - op_arity(s[n - 1].op) + 1
    }
}

/// Every element finds at least as many operands on the stack as it pops.
pub open spec fn reduces(s: Seq<NodeView>) -> bool {
    forall|i: int| 0 <= i < s.len() ==> #[trigger] height(s, i as nat) >= op_arity(s[i].op)
}

/// A postfix sequence whose stack evaluation ends with exactly one value.
pub open spec fn well_formed(s: Seq<NodeView>) -> bool {
    &&& s.len() > 0
    &&& reduces(s)
    &&& height(s, s.len()) == 1
}

/// Declared width of a non-empty expression: the width of its last element.
pub open spec fn width(s: Seq<NodeView>) -> usize {
    s.last().size
}

pub proof fn lemma_height_prefix(a: Seq<NodeView>, b: Seq<NodeView>, i: nat)
    requires
        i <= a.len(),
    ensures
        height(a + b, i) == height(a, i),
    decreases i,
{
    if i > 0 {
        lemma_height_prefix(a, b, (i - 1) as nat);
        assert((a + b)[i - 1] == a[i - 1]);
    }
}

pub proof fn lemma_height_suffix(a: Seq<NodeView>, b: Seq<NodeView>, k: nat)
    requires
        k <= b.len(),
    ensures
        height(a + b, a.len() + k) == height(a, a.len()) + height(b, k),
    decreases k,
{
    if k == 0 {
        lemma_height_prefix(a, b, a.len());
    } else {
        lemma_height_suffix(a, b, (k - 1) as nat);
        assert((a + b)[a.len() + k - 1] == b[k - 1]);
        assert((a.len() + k - 1) as nat == a.len() + (k - 1) as nat);
    }
}

pub proof fn lemma_reduces_height_nonneg(s: Seq<NodeView>, k: nat)
    requires
        reduces(s),
        k <= s.len(),
    ensures
        height(s, k) >= 0,
    decreases k,
{
    if k > 0 {
        lemma_reduces_height_nonneg(s, (k - 1) as nat);
        assert(height(s, (k - 1) as nat) >= op_arity(s[k - 1].op));
    }
}

/// Appending a reducing sequence to one with a non-negative stack keeps it reducing,
/// and the stack heights add up.
pub proof fn lemma_reduces_append(a: Seq<NodeView>, b: Seq<NodeView>)
    requires
        reduces(a),
        reduces(b),
    ensures
        reduces(a + b),
        height(a + b, (a + b).len()) == height(a, a.len()) + height(b, b.len()),
{
    lemma_reduces_height_nonneg(a, a.len());
    assert forall|i: int| 0 <= i < (a + b).len() implies #[trigger] height(a + b, i as nat)
        >= op_arity((a + b)[i].op) by {
        if i < a.len() {
            lemma_height_prefix(a, b, i as nat);
        } else {
            let k = (i - a.len()) as nat;
            lemma_height_suffix(a, b, k);
            assert(i as nat == a.len() + k);
            assert((a + b)[i] == b[k as int]);
            assert(height(b, k) >= op_arity(b[k as int].op));
        }
    }
    lemma_height_suffix(a, b, b.len());
}

/// Closing a sequence with one operator element.
pub proof fn lemma_reduces_push(s: Seq<NodeView>, e: NodeView)
    requires
        reduces(s),
        height(s, s.len()) >= op_arity(e.op),
    ensures
        reduces(s.push(e)),
        height(s.push(e), s.len() + 1) == height(s, s.len()) - op_arity(e.op) + 1,
{
    let t = s.push(e);
    assert(s.push(e) == s + seq![e]);
    lemma_height_prefix(s, seq![e], s.len());
    assert forall|i: int| 0 <= i < t.len() implies #[trigger] height(t, i as nat) >= op_arity(
        t[i].op,
    ) by {
        lemma_height_prefix(s, seq![e], i as nat);
    }
    assert(t[s.len() as int] == e);
}

/// The postfix sequence of an operator applied to well-formed operands is well formed.
pub proof fn lemma_compose(args: Seq<NodeView>, e: NodeView, k: nat)
    requires
        reduces(args),
        height(args, args.len()) == k,
        op_arity(e.op) == k,
    ensures
        well_formed(args.push(e)),
{
    lemma_reduces_push(args, e);
}

/// Register name reserved for a rewrite-grammar placeholder.
pub open spec fn nt_name() -> Seq<char> {
    seq!['N', 'T']
}

/// An element that is the placeholder register.
pub open spec fn is_nt_node(e: NodeView) -> bool {
    e.op is Reg && e.op->Reg_0 == nt_name()
}

pub open spec fn is_commutative_op(op: OpView) -> bool {
    op is Add || op is Or || op is And || op is Xor || op is Nand || op is Nor || op is Mul
}

pub open spec fn is_associative_op(op: OpView) -> bool {
    op is Add || op is Or || op is And || op is Xor || op is Mul
}

/// Whether `s` names the placeholder register.
pub fn is_placeholder_name(s: &str) -> (r: bool)
    ensures
        r == (s@ == nt_name()),
{
    let n = s.unicode_len();
    if n != 2 {
        return false;
    }
    let a = s.get_char(0);
    let b = s.get_char(1);
    proof {
        if s@ == nt_name() {
            assert(s@[0] == 'N' && s@[1] == 'T');
        }
        if a == 'N' && b == 'T' {
            assert(s@ =~= nt_name());
        }
    }
    a == 'N' && b == 'T'
}

impl LinearExpr {
    pub fn new(op: LinearExprOp, size: usize) -> (r: LinearExpr)
        ensures
            r@ == node(op@, size),
    {
        LinearExpr { size, op }
    }

    pub fn arity(&self) -> (r: usize)
        ensures
            r as nat == op_arity(self@.op),
    {
        self.op.arity()
    }

    pub fn is_constant(&self) -> (r: bool)
        ensures
            r == self@.op is Const,
    {
        matches!(self.op, LinearExprOp::Const(_))
    }

    pub fn is_var(&self) -> (r: bool)
        ensures
            r == self@.op is Reg,
    {
        matches!(self.op, LinearExprOp::Reg(_))
    }

    pub fn is_commutative(&self) -> (r: bool)
        ensures
            r == is_commutative_op(self@.op),
    {
        match self.op {
            LinearExprOp::Add | LinearExprOp::Or | LinearExprOp::And | LinearExprOp::Xor
            | LinearExprOp::Nand | LinearExprOp::Nor | LinearExprOp::Mul => true,
            _ => false,
        }
    }

    pub fn is_associative(&self) -> (r: bool)
        ensures
            r == is_associative_op(self@.op),
    {
        match self.op {
            LinearExprOp::Add | LinearExprOp::Or | LinearExprOp::And | LinearExprOp::Xor
            | LinearExprOp::Mul => true,
            _ => false,
        }
    }

    pub fn get_constant_val(&self) -> (r: u64)
        requires
            self@.op is Const,
        ensures
            r == self@.op->Const_0,
    {
        match self.op {
            LinearExprOp::Const(x) => x,
            _ => 0,
        }
    }

    pub fn get_var_name(&self) -> (r: &str)
        requires
            self@.op is Reg,
        ensures
            r@ == self@.op->Reg_0,
    {
        match &self.op {
            LinearExprOp::Reg(x) => x.as_str(),
            _ => "",
        }
    }

    pub fn placeholder(size: usize) -> (r: LinearExpr)
        ensures
            r@ == node(OpView::E, size),
    {
        LinearExpr::new(LinearExprOp::E, size)
    }

    pub fn is_non_terminal(&self) -> (r: bool)
        ensures
            r == is_nt_node(self@),
    {
        match &self.op {
            LinearExprOp::Reg(x) => is_placeholder_name(x.as_str()),
            _ => false,
        }
    }

    /// Element equality; register names compare by their characters.
    pub fn same_as(&self, other: &LinearExpr) -> (r: bool)
        ensures
            r == (self@ == other@),
    {
        self.size == other.size && self.op.same_as(&other.op)
    }
}

/// A postfix sequence of elements; see [`well_formed`] for its invariant.
#[derive(Debug, Hash, Eq, PartialEq, PartialOrd, Ord)]
pub struct LinearizedExpr(pub Vec<LinearExpr>);

/// The model of a postfix sequence.
pub open spec fn seq_view(v: Seq<LinearExpr>) -> Seq<NodeView> {
    v.map_values(|e: LinearExpr| e@)
}

impl View for LinearizedExpr {
    type V = Seq<NodeView>;

    open spec fn view(&self) -> Seq<NodeView> {
        seq_view(self.0@)
    }
}

impl Clone for LinearizedExpr {
    fn clone(&self) -> (r: Self)
        ensures
            r@ == self@,
    {
        let mut v: Vec<LinearExpr> = Vec::with_capacity(self.0.len());
        let mut i: usize = 0;
        while i < self.0.len()
            invariant
                i <= self.0@.len(),
                v@ == self.0@.subrange(0, i as int),
            decreases self.0@.len() - i,
        {
            v.push(self.0[i].clone());
            i += 1;
            assert(v@ =~= self.0@.subrange(0, i as int));
        }
        assert(v@ =~= self.0@);
        let r = LinearizedExpr(v);
        assert(r@ =~= self@);
        r
    }
}

/// The operator `op` of width `size` applied to one operand.
pub open spec fn postfix1(x: Seq<NodeView>, op: OpView, size: usize) -> Seq<NodeView> {
    x.push(node(op, size))
}

/// The operator `op` of width `size` applied to two operands.
pub open spec fn postfix2(x: Seq<NodeView>, y: Seq<NodeView>, op: OpView, size: usize) -> Seq<
    NodeView,
> {
    (x + y).push(node(op, size))
}

/// The operator `op` of width `size` applied to three operands.
pub open spec fn postfix3(
    x: Seq<NodeView>,
    y: Seq<NodeView>,
    z: Seq<NodeView>,
    op: OpView,
    size: usize,
) -> Seq<NodeView> {
    (x + y + z).push(node(op, size))
}

pub proof fn lemma_postfix1_wf(x: Seq<NodeView>, op: OpView, size: usize)
    requires
        well_formed(x),
        op_arity(op) == 1,
    ensures
        well_formed(postfix1(x, op, size)),
{
    lemma_compose(x, node(op, size), 1);
}

pub proof fn lemma_postfix2_wf(x: Seq<NodeView>, y: Seq<NodeView>, op: OpView, size: usize)
    requires
        well_formed(x),
        well_formed(y),
        op_arity(op) == 2,
    ensures
        well_formed(postfix2(x, y, op, size)),
{
    lemma_reduces_append(x, y);
    lemma_compose(x + y, node(op, size), 2);
}

pub proof fn lemma_postfix3_wf(
    x: Seq<NodeView>,
    y: Seq<NodeView>,
    z: Seq<NodeView>,
    op: OpView,
    size: usize,
)
    requires
        well_formed(x),
        well_formed(y),
        well_formed(z),
        op_arity(op) == 3,
    ensures
        well_formed(postfix3(x, y, z, op, size)),
{
    lemma_reduces_append(x, y);
    lemma_reduces_append(x + y, z);
    lemma_compose(x + y + z, node(op, size), 3);
}

pub proof fn lemma_leaf_wf(op: OpView, size: usize)
    requires
        op_arity(op) == 0,
    ensures
        well_formed(seq![node(op, size)]),
{
    let s = seq![node(op, size)];
    assert(height(s, 0) == 0);
    assert(height(s, 1) == 1);
}

impl LinearizedExpr {
    pub fn new(v: Vec<LinearExpr>) -> (r: LinearizedExpr)
        ensures
            r.0 == v,
    {
        LinearizedExpr(v)
    }

    /// A fresh placeholder register of width `size`.
    pub fn gen_non_terminal(size: usize) -> (r: LinearExpr)
        ensures
            r@ == node(OpView::Reg(nt_name()), size),
    {
        let name = String::from_str("NT");
        proof {
            reveal_strlit("NT");
            assert(name@ =~= nt_name());
        }
        LinearExpr::new(LinearExprOp::Reg(name), size)
    }

    pub fn from_linear_expr(expr: LinearExpr) -> (r: LinearizedExpr)
        ensures
            r@ == seq![expr@],
    {
        let r = LinearizedExpr(vec![expr]);
        assert(r@ =~= seq![expr@]);
        r
    }

    pub fn len(&self) -> (r: usize)
        ensures
            r == self@.len(),
    {
        self.0.len()
    }

    /// Width of the expression: the width of its root element.
    pub fn size(&self) -> (r: usize)
        requires
            self@.len() > 0,
        ensures
            r == width(self@),
    {
        self.0[self.0.len() - 1].size
    }

    /// The root element.
    pub fn op(&self) -> (r: &LinearExpr)
        requires
            self@.len() > 0,
        ensures
            r@ == self@.last(),
    {
        &self.0[self.0.len() - 1]
    }

    pub fn set_size(&mut self, size: usize)
        requires
            old(self)@.len() > 0,
        ensures
            final(self)@ == old(self)@.update(
                old(self)@.len() - 1,
                node(old(self)@.last().op, size),
            ),
    {
        let n = self.0.len() - 1;
        let mut e = self.0.pop().unwrap();
        e.size = size;
        self.0.push(e);
        assert(self@ =~= old(self)@.update(n as int, node(old(self)@.last().op, size)));
    }

    pub fn to_vec(&self) -> (r: Vec<LinearExpr>)
        ensures
            seq_view(r@) == self@,
    {
        self.clone().0
    }

    pub fn push(&mut self, expr: LinearExpr)
        ensures
            final(self)@ == old(self)@.push(expr@),
    {
        self.0.push(expr);
        assert(self@ =~= old(self)@.push(expr@));
    }

    pub fn extend(&mut self, expr: LinearizedExpr)
        ensures
            final(self)@ == old(self)@ + expr@,
    {
        let mut v = expr.0;
        self.0.append(&mut v);
        assert(self@ =~= old(self)@ + expr@);
    }

    pub fn is_constant(&self) -> (r: bool)
        ensures
            r == (self@.len() == 1 && self@[0].op is Const),
    {
        self.0.len() == 1 && self.0[0].is_constant()
    }

    pub fn is_var(&self) -> (r: bool)
        ensures
            r == (self@.len() == 1 && self@[0].op is Reg),
    {
        self.0.len() == 1 && self.0[0].is_var()
    }

    pub fn is_nop(&self) -> (r: bool)
        requires
            self@.len() > 0,
        ensures
            r == self@.last().op is Nop,
    {
        matches!(self.0[self.0.len() - 1].op, LinearExprOp::Nop)
    }

    pub fn get_var_name(&self) -> (r: &str)
        requires
            self@.len() == 1,
            self@[0].op is Reg,
        ensures
            r@ == self@[0].op->Reg_0,
    {
        self.0[0].get_var_name()
    }

    pub fn get_constant_val(&self) -> (r: u64)
        requires
            self@.len() == 1,
            self@[0].op is Const,
        ensures
            r == self@[0].op->Const_0,
    {
        self.0[0].get_constant_val()
    }

    /// Whether the expression is exactly the constant `n`.
    pub fn check_constant_val(&self, n: u64) -> (r: bool)
        ensures
            r == (self@.len() == 1 && self@[0].op == OpView::Const(n)),
    {
        self.is_constant() && self.get_constant_val() == n
    }

    /// Whether any element is the placeholder register.
    pub fn is_non_terminal(&self) -> (r: bool)
        ensures
            r == exists|i: int| 0 <= i < self@.len() && is_nt_node(#[trigger] self@[i]),
    {
        let mut i: usize = 0;
        while i < self.0.len()
            invariant
                i <= self@.len(),
                forall|j: int| 0 <= j < i ==> !is_nt_node(#[trigger] self@[j]),
            decreases self@.len() - i,
        {
            if self.0[i].is_non_terminal() {
                assert(is_nt_node(self@[i as int]));
                return true;
            }
            i += 1;
        }
        false
    }

    /// The constant-free, argument-free no-op of width `size`.
    pub fn no_op(size: usize) -> (r: LinearizedExpr)
        ensures
            r@ == seq![node(OpView::Nop, size)],
    {
        LinearizedExpr::from_linear_expr(LinearExpr::new(LinearExprOp::Nop, size))
    }

    /// Element-wise equality of two expressions.
    pub fn same_as(&self, other: &LinearizedExpr) -> (r: bool)
        ensures
            r == (self@ == other@),
    {
        if self.0.len() != other.0.len() {
            assert(self@.len() != other@.len());
            return false;
        }
        let mut i: usize = 0;
        while i < self.0.len()
            invariant
                i <= self@.len(),
                self@.len() == other@.len(),
                forall|j: int| 0 <= j < i ==> self@[j] == other@[j],
            decreases self@.len() - i,
        {
            if !self.0[i].same_as(&other.0[i]) {
                assert(self@[i as int] != other@[i as int]);
                return false;
            }
            i += 1;
        }
        assert(self@ =~= other@);
        true
    }
}

/// The register elements of `s`, in order.
pub open spec fn var_nodes(s: Seq<NodeView>) -> Seq<NodeView>
    decreases s.len(),
{
    if s.len() == 0 {
        s
    } else if s.last().op is Reg {
        var_nodes(s.drop_last()).push(s.last())
    } else {
        var_nodes(s.drop_last())
    }
}

/// The constant elements of `s`, in order.
pub open spec fn const_nodes(s: Seq<NodeView>) -> Seq<NodeView>
    decreases s.len(),
{
    if s.len() == 0 {
        s
    } else if s.last().op is Const {
        const_nodes(s.drop_last()).push(s.last())
    } else {
        const_nodes(s.drop_last())
    }
}

/// `s` with every element after its first occurrence removed.
pub open spec fn dedup(s: Seq<NodeView>) -> Seq<NodeView>
    decreases s.len(),
{
    if s.len() == 0 {
        s
    } else if dedup(s.drop_last()).contains(s.last()) {
        dedup(s.drop_last())
    } else {
        dedup(s.drop_last()).push(s.last())
    }
}

/// Each element as a one-element expression.
pub open spec fn singletons(s: Seq<NodeView>) -> Seq<Seq<NodeView>> {
    s.map_values(|e: NodeView| seq![e])
}

/// The models of a vector of expressions.
pub open spec fn exprs_view(v: Seq<LinearizedExpr>) -> Seq<Seq<NodeView>> {
    v.map_values(|e: LinearizedExpr| e@)
}

/// `e` with a register named `name` renamed to `to`, of width `size`.
pub open spec fn rename_node(e: NodeView, name: Seq<char>, to: OpView, size: usize) -> NodeView {
    if e.op is Reg && e.op->Reg_0 == name {
        node(to, size)
    } else {
        e
    }
}

/// Whether a memory operator is the root of an expression.
pub open spec fn is_memory_root(e: NodeView) -> bool {
    e.op is Load || e.op is Store || e.op is Alloc || e.op is Mem
}

pub proof fn lemma_seq_view_push(v: Seq<LinearExpr>, e: LinearExpr)
    ensures
        seq_view(v.push(e)) == seq_view(v).push(e@),
{
    assert(seq_view(v.push(e)) =~= seq_view(v).push(e@));
}

/// Collects the elements of `s` that `keep` selects; `want_var` chooses registers or constants.
fn collect_leaves(s: &LinearizedExpr, want_var: bool) -> (r: Vec<LinearExpr>)
    ensures
        want_var ==> seq_view(r@) == var_nodes(s@),
        !want_var ==> seq_view(r@) == const_nodes(s@),
{
    let mut r: Vec<LinearExpr> = Vec::new();
    let mut i: usize = 0;
    while i < s.0.len()
        invariant
            i <= s@.len(),
            want_var ==> seq_view(r@) == var_nodes(s@.subrange(0, i as int)),
            !want_var ==> seq_view(r@) == const_nodes(s@.subrange(0, i as int)),
        decreases s@.len() - i,
    {
        let e = &s.0[i];
        let take = if want_var {
            e.is_var()
        } else {
            e.is_constant()
        };
        proof {
            let t = s@.subrange(0, i + 1);
            assert(t.drop_last() =~= s@.subrange(0, i as int));
            assert(t.last() == s@[i as int]);
        }
        if take {
            r.push(e.clone());
            assert(seq_view(r@) =~= seq_view(r@.drop_last()).push(e@));
        }
        i += 1;
    }
    assert(s@.subrange(0, s@.len() as int) =~= s@);
    r
}

/// Keeps the first occurrence of each element.
fn dedup_exprs(v: &Vec<LinearExpr>) -> (r: Vec<LinearExpr>)
    ensures
        seq_view(r@) == dedup(seq_view(v@)),
{
    let mut r: Vec<LinearExpr> = Vec::new();
    let mut i: usize = 0;
    while i < v.len()
        invariant
            i <= v@.len(),
            seq_view(r@) == dedup(seq_view(v@).subrange(0, i as int)),
        decreases v@.len() - i,
    {
        let mut found = false;
        let mut j: usize = 0;
        while j < r.len() && !found
            invariant
                j <= r@.len(),
                i < v@.len(),
                !found ==> forall|k: int| 0 <= k < j ==> seq_view(r@)[k] != v@[i as int]@,
                found ==> seq_view(r@).contains(v@[i as int]@),
            decreases r@.len() - j,
        {
            if r[j].same_as(&v[i]) {
                found = true;
                assert(seq_view(r@)[j as int] == v@[i as int]@);
            }
            j += 1;
        }
        proof {
            let t = seq_view(v@).subrange(0, i + 1);
            assert(t.drop_last() =~= seq_view(v@).subrange(0, i as int));
            assert(t.last() == v@[i as int]@);
        }
        if !found {
            r.push(v[i].clone());
            assert(seq_view(r@) =~= seq_view(r@.drop_last()).push(v@[i as int]@));
        }
        i += 1;
    }
    assert(seq_view(v@).subrange(0, v@.len() as int) =~= seq_view(v@));
    r
}

/// Wraps each element into a one-element expression.
fn wrap_leaves(v: Vec<LinearExpr>) -> (r: Vec<LinearizedExpr>)
    ensures
        exprs_view(r@) == singletons(seq_view(v@)),
{
    let mut r: Vec<LinearizedExpr> = Vec::new();
    let mut i: usize = 0;
    while i < v.len()
        invariant
            i <= v@.len(),
            exprs_view(r@) == singletons(seq_view(v@.subrange(0, i as int))),
        decreases v@.len() - i,
    {
        let ghost before = r@;
        r.push(LinearizedExpr::from_linear_expr(v[i].clone()));
        proof {
            assert(v@.subrange(0, i + 1) =~= v@.subrange(0, i as int).push(v@[i as int]));
            lemma_seq_view_push(v@.subrange(0, i as int), v@[i as int]);
            assert(exprs_view(r@) =~= exprs_view(before).push(seq![v@[i as int]@]));
        }
        i += 1;
        assert(exprs_view(r@) =~= singletons(seq_view(v@.subrange(0, i as int))));
    }
    assert(v@.subrange(0, v@.len() as int) =~= v@);
    r
}

impl LinearizedExpr {
    /// The elements `start..stop`.
    pub fn get_expression_slice(&self, start: usize, stop: usize) -> (r: LinearizedExpr)
        requires
            start <= stop <= self@.len(),
        ensures
            r@ == self@.subrange(start as int, stop as int),
    {
        let mut v: Vec<LinearExpr> = Vec::with_capacity(stop - start);
        let mut i: usize = start;
        while i < stop
            invariant
                start <= i <= stop,
                stop <= self@.len(),
                seq_view(v@) == self@.subrange(start as int, i as int),
            decreases stop - i,
        {
            let ghost before = v@;
            let e = self.0[i].clone();
            v.push(e);
            proof {
                lemma_seq_view_push(before, e);
            }
            i += 1;
            assert(seq_view(v@) =~= self@.subrange(start as int, i as int));
        }
        LinearizedExpr(v)
    }

    /// Replaces the element at `pos` by the whole of `new_expr`.
    pub fn replace_at_pos(&mut self, pos: usize, new_expr: &LinearizedExpr)
        requires
            pos < old(self)@.len(),
        ensures
            final(self)@ == old(self)@.subrange(0, pos as int) + new_expr@ + old(self)@.subrange(
                pos + 1,
                old(self)@.len() as int,
            ),
    {
        let n = self.0.len();
        let mut head = self.get_expression_slice(0, pos);
        let tail = self.get_expression_slice(pos + 1, n);
        head.extend(new_expr.clone());
        head.extend(tail);
        *self = head;
    }

    /// Whether a register named `var_name` occurs.
    pub fn contains_var_name(&self, var_name: &str) -> (r: bool)
        ensures
            r == exists|i: int|
                0 <= i < self@.len() && #[trigger] self@[i].op == OpView::Reg(var_name@),
    {
        let mut i: usize = 0;
        while i < self.0.len()
            invariant
                i <= self@.len(),
                forall|j: int| 0 <= j < i ==> self@[j].op != OpView::Reg(var_name@),
            decreases self@.len() - i,
        {
            let hit = match &self.0[i].op {
                LinearExprOp::Reg(x) => x.as_str().unicode_len() == var_name.unicode_len()
                    && str_eq(x.as_str(), var_name),
                _ => false,
            };
            if hit {
                assert(self@[i as int].op == OpView::Reg(var_name@));
                return true;
            }
            i += 1;
        }
        false
    }

    /// Whether the root is a memory operator.
    pub fn is_memory_op(&self) -> (r: bool)
        requires
            self@.len() > 0,
        ensures
            r == is_memory_root(self@.last()),
    {
        match self.0[self.0.len() - 1].op {
            LinearExprOp::Load | LinearExprOp::Store | LinearExprOp::Alloc(_)
            | LinearExprOp::Mem => true,
            _ => false,
        }
    }

    /// The register elements, in order: the symbols of a symbolic execution.
    pub fn gen_se_symbols(&self) -> (r: Vec<LinearExpr>)
        ensures
            seq_view(r@) == var_nodes(self@),
    {
        collect_leaves(self, true)
    }

    pub fn get_vars(&self) -> (r: Vec<LinearizedExpr>)
        ensures
            exprs_view(r@) == singletons(var_nodes(self@)),
    {
        wrap_leaves(collect_leaves(self, true))
    }

    pub fn get_constants(&self) -> (r: Vec<LinearizedExpr>)
        ensures
            exprs_view(r@) == singletons(const_nodes(self@)),
    {
        wrap_leaves(collect_leaves(self, false))
    }

    pub fn get_unique_vars(&self) -> (r: Vec<LinearizedExpr>)
        ensures
            exprs_view(r@) == singletons(dedup(var_nodes(self@))),
    {
        wrap_leaves(dedup_exprs(&collect_leaves(self, true)))
    }

    pub fn get_unique_constants(&self) -> (r: Vec<LinearizedExpr>)
        ensures
            exprs_view(r@) == singletons(dedup(const_nodes(self@))),
    {
        wrap_leaves(dedup_exprs(&collect_leaves(self, false)))
    }

    pub fn num_unique_vars(&self) -> (r: usize)
        ensures
            r == dedup(var_nodes(self@)).len(),
    {
        dedup_exprs(&collect_leaves(self, true)).len()
    }

    pub fn num_unique_constants(&self) -> (r: usize)
        ensures
            r == dedup(const_nodes(self@)).len(),
    {
        dedup_exprs(&collect_leaves(self, false)).len()
    }

    /// Renames every register named like `v_old` to the name and width of `v_new`.
    pub fn replace_var(&mut self, v_old: &LinearizedExpr, v_new: &LinearizedExpr)
        requires
            v_old@.len() == 1,
            v_old@[0].op is Reg,
            v_new@.len() == 1,
            v_new@[0].op is Reg,
            width(v_old@) == width(v_new@),
        ensures
            final(self)@ == old(self)@.map_values(
                |e: NodeView| rename_node(e, v_old@[0].op->Reg_0, v_new@[0].op, width(v_new@)),
            ),
    {
        let to = v_new.op().clone();
        self.rename_all(v_old.get_var_name(), to);
    }

    /// Replaces every register named like `v_old` by the constant `v_new`.
    pub fn replace_var_with_constant(&mut self, v_old: &LinearizedExpr, v_new: &LinearizedExpr)
        requires
            v_old@.len() == 1,
            v_old@[0].op is Reg,
            v_new@.len() == 1,
            v_new@[0].op is Const,
            width(v_old@) == width(v_new@),
        ensures
            final(self)@ == old(self)@.map_values(
                |e: NodeView| rename_node(e, v_old@[0].op->Reg_0, v_new@[0].op, width(v_new@)),
            ),
    {
        let to = v_new.op().clone();
        self.rename_all(v_old.get_var_name(), to);
    }

    fn rename_all(&mut self, name: &str, to: LinearExpr)
        ensures
            final(self)@ == old(self)@.map_values(
                |e: NodeView| rename_node(e, name@, to@.op, to@.size),
            ),
    {
        let n = self.0.len();
        let mut v: Vec<LinearExpr> = Vec::with_capacity(n);
        let mut i: usize = 0;
        while i < n
            invariant
                n == self@.len(),
                i <= n,
                seq_view(v@) == self@.subrange(0, i as int).map_values(
                    |e: NodeView| rename_node(e, name@, to@.op, to@.size),
                ),
            decreases n - i,
        {
            let e = &self.0[i];
            let hit = match &e.op {
                LinearExprOp::Reg(x) => str_eq(x.as_str(), name),
                _ => false,
            };
            let ghost before = v@;
            let x = if hit {
                to.clone()
            } else {
                e.clone()
            };
            v.push(x);
            proof {
                lemma_seq_view_push(before, x);
                assert(x@ == rename_node(self@[i as int], name@, to@.op, to@.size));
            }
            i += 1;
            assert(seq_view(v@) =~= self@.subrange(0, i as int).map_values(
                |e: NodeView| rename_node(e, name@, to@.op, to@.size),
            ));
        }
        assert(self@.subrange(0, n as int) =~= self@);
        self.0 = v;
    }
}

/// Character-wise equality of two strings.
pub fn str_eq(a: &str, b: &str) -> (r: bool)
    ensures
        r == (a@ == b@),
{
    let n = a.unicode_len();
    if n != b.unicode_len() {
        return false;
    }
    let mut i: usize = 0;
    while i < n
        invariant
            n == a@.len(),
            n == b@.len(),
            i <= n,
            forall|j: int| 0 <= j < i ==> a@[j] == b@[j],
        decreases n - i,
    {
        if a.get_char(i) != b.get_char(i) {
            return false;
        }
        i += 1;
    }
    assert(a@ =~= b@);
    true
}

/// Position of the operator's variant in the declaration order.
pub open spec fn op_index(op: OpView) -> nat {
    match op {
        OpView::Assign => 0,
        OpView::Add => 1,
        OpView::Sub => 2,
        OpView::Or => 3,
        OpView::And => 4,
        OpView::Xor => 5,
        OpView::Nand => 6,
        OpView::Nor => 7,
        OpView::Not => 8,
        OpView::Neg => 9,
        OpView::Ashr => 10,
        OpView::Lshr => 11,
        OpView::Shl => 12,
        OpView::Mul => 13,
        OpView::Udiv => 14,
        OpView::Sdiv => 15,
        OpView::Urem => 16,
        OpView::Srem => 17,
        OpView::Ult => 18,
        OpView::Slt => 19,
        OpView::Ule => 20,
        OpView::Sle => 21,
        OpView::Equal => 22,
        OpView::Const(..) => 23,
        OpView::Reg(..) => 24,
        OpView::RegSlice(..) => 25,
        OpView::ConstSlice(..) => 26,
        OpView::Ite => 27,
        OpView::Slice(..) => 28,
        OpView::Mem => 29,
        OpView::Concat => 30,
        OpView::ZeroExtend => 31,
        OpView::SignExtend => 32,
        OpView::Trunc => 33,
        OpView::BitCast => 34,
        OpView::E => 35,
        OpView::Nop => 36,
        OpView::GEP => 37,
        OpView::Load => 38,
        OpView::Store => 39,
        OpView::Alloc(..) => 40,
        OpView::Alloca => 41,
    }
}

impl LinearExprOp {
    /// Position of the variant in the declaration order.
    pub fn variant_index(&self) -> (r: u8)
        ensures
            r as nat == op_index(self@),
    {
        match self {
            LinearExprOp::Assign => 0,
            LinearExprOp::Add => 1,
            LinearExprOp::Sub => 2,
            LinearExprOp::Or => 3,
            LinearExprOp::And => 4,
            LinearExprOp::Xor => 5,
            LinearExprOp::Nand => 6,
            LinearExprOp::Nor => 7,
            LinearExprOp::Not => 8,
            LinearExprOp::Neg => 9,
            LinearExprOp::Ashr => 10,
            LinearExprOp::Lshr => 11,
            LinearExprOp::Shl => 12,
            LinearExprOp::Mul => 13,
            LinearExprOp::Udiv => 14,
            LinearExprOp::Sdiv => 15,
            LinearExprOp::Urem => 16,
            LinearExprOp::Srem => 17,
            LinearExprOp::Ult => 18,
            LinearExprOp::Slt => 19,
            LinearExprOp::Ule => 20,
            LinearExprOp::Sle => 21,
            LinearExprOp::Equal => 22,
            LinearExprOp::Const(..) => 23,
            LinearExprOp::Reg(..) => 24,
            LinearExprOp::RegSlice(..) => 25,
            LinearExprOp::ConstSlice(..) => 26,
            LinearExprOp::Ite => 27,
            LinearExprOp::Slice(..) => 28,
            LinearExprOp::Mem => 29,
            LinearExprOp::Concat => 30,
            LinearExprOp::ZeroExtend => 31,
            LinearExprOp::SignExtend => 32,
            LinearExprOp::Trunc => 33,
            LinearExprOp::BitCast => 34,
            LinearExprOp::E => 35,
            LinearExprOp::Nop => 36,
            LinearExprOp::GEP => 37,
            LinearExprOp::Load => 38,
            LinearExprOp::Store => 39,
            LinearExprOp::Alloc(..) => 40,
            LinearExprOp::Alloca => 41,
        }
    }
}

/// Three-way comparison of integers: -1, 0 or 1.
pub open spec fn compare(a: int, b: int) -> int {
    if a < b {
        -1
    } else if a > b {
        1
    } else {
        0
    }
}

/// Lexicographic comparison of character sequences from position `i` on.
pub open spec fn chars_cmp(a: Seq<char>, b: Seq<char>, i: int) -> int
    decreases a.len() - i,
{
    if i >= a.len() {
        if i >= b.len() {
            0
        } else {
            -1
        }
    } else if i >= b.len() {
        1
    } else if a[i] != b[i] {
        compare(a[i] as u32 as int, b[i] as u32 as int)
    } else {
        chars_cmp(a, b, i + 1)
    }
}

/// Ordering of operators: by variant, then by payload.
pub open spec fn op_cmp(a: OpView, b: OpView) -> int {
    if op_index(a) != op_index(b) {
        compare(op_index(a) as int, op_index(b) as int)
    } else {
        match (a, b) {
            (OpView::Const(x), OpView::Const(y)) => compare(x as int, y as int),
            (OpView::Alloc(x), OpView::Alloc(y)) => compare(x as int, y as int),
            (OpView::Reg(x), OpView::Reg(y)) => chars_cmp(x, y, 0),
            (OpView::RegSlice(x0, x1), OpView::RegSlice(y0, y1)) => if x0 != y0 {
                compare(x0 as int, y0 as int)
            } else {
                compare(x1 as int, y1 as int)
            },
            (OpView::ConstSlice(x0, x1), OpView::ConstSlice(y0, y1)) => if x0 != y0 {
                compare(x0 as int, y0 as int)
            } else {
                compare(x1 as int, y1 as int)
            },
            (OpView::Slice(x0, x1), OpView::Slice(y0, y1)) => if x0 != y0 {
                compare(x0 as int, y0 as int)
            } else {
                compare(x1 as int, y1 as int)
            },
            _ => 0,
        }
    }
}

/// Ordering of elements: by width, then by operator.
pub open spec fn node_cmp(a: NodeView, b: NodeView) -> int {
    if a.size != b.size {
        compare(a.size as int, b.size as int)
    } else {
        op_cmp(a.op, b.op)
    }
}

/// Lexicographic ordering of expressions from position `i` on.
pub open spec fn expr_cmp(a: Seq<NodeView>, b: Seq<NodeView>, i: int) -> int
    decreases a.len() - i,
{
    if i >= a.len() {
        if i >= b.len() {
            0
        } else {
            -1
        }
    } else if i >= b.len() {
        1
    } else if node_cmp(a[i], b[i]) != 0 {
        node_cmp(a[i], b[i])
    } else {
        expr_cmp(a, b, i + 1)
    }
}

fn compare_u64(a: u64, b: u64) -> (r: i8)
    ensures
        r as int == compare(a as int, b as int),
{
    if a < b {
        -1
    } else if a > b {
        1
    } else {
        0
    }
}

/// Lexicographic comparison of two strings by their characters.
pub fn str_cmp(a: &str, b: &str) -> (r: i8)
    ensures
        r as int == chars_cmp(a@, b@, 0),
{
    let n = a.unicode_len();
    let m = b.unicode_len();
    let mut i: usize = 0;
    while i < n && i < m
        invariant
            n == a@.len(),
            m == b@.len(),
            i <= n,
            i <= m,
            chars_cmp(a@, b@, 0) == chars_cmp(a@, b@, i as int),
        decreases n - i,
    {
        let c = a.get_char(i);
        let d = b.get_char(i);
        if c != d {
            return compare_u64(c as u32 as u64, d as u32 as u64);
        }
        i += 1;
    }
    if i >= n {
        if i >= m {
            0
        } else {
            -1
        }
    } else {
        1
    }
}

impl LinearExprOp {
    /// Three-way comparison in the order of [`op_cmp`].
    pub fn compare_to(&self, other: &LinearExprOp) -> (r: i8)
        ensures
            r as int == op_cmp(self@, other@),
    {
        let i = self.variant_index();
        let j = other.variant_index();
        if i != j {
            return compare_u64(i as u64, j as u64);
        }
        match (self, other) {
            (LinearExprOp::Const(x), LinearExprOp::Const(y)) => compare_u64(*x, *y),
            (LinearExprOp::Alloc(x), LinearExprOp::Alloc(y)) => compare_u64(*x, *y),
            (LinearExprOp::Reg(x), LinearExprOp::Reg(y)) => str_cmp(x.as_str(), y.as_str()),
            (LinearExprOp::RegSlice(x0, x1), LinearExprOp::RegSlice(y0, y1))
            | (LinearExprOp::ConstSlice(x0, x1), LinearExprOp::ConstSlice(y0, y1))
            | (LinearExprOp::Slice(x0, x1), LinearExprOp::Slice(y0, y1)) => if *x0 != *y0 {
                compare_u64(*x0 as u64, *y0 as u64)
            } else {
                compare_u64(*x1 as u64, *y1 as u64)
            },
            _ => 0,
        }
    }
}

impl LinearExpr {
    /// Three-way comparison in the order of [`node_cmp`].
    pub fn compare_to(&self, other: &LinearExpr) -> (r: i8)
        ensures
            r as int == node_cmp(self@, other@),
    {
        if self.size != other.size {
            compare_u64(self.size as u64, other.size as u64)
        } else {
            self.op.compare_to(&other.op)
        }
    }
}

impl LinearizedExpr {
    /// Three-way comparison in the order of [`expr_cmp`].
    pub fn compare_to(&self, other: &LinearizedExpr) -> (r: i8)
        ensures
            r as int == expr_cmp(self@, other@, 0),
    {
        let n = self.0.len();
        let m = other.0.len();
        let mut i: usize = 0;
        while i < n && i < m
            invariant
                n == self@.len(),
                m == other@.len(),
                i <= n,
                i <= m,
                expr_cmp(self@, other@, 0) == expr_cmp(self@, other@, i as int),
            decreases n - i,
        {
            let c = self.0[i].compare_to(&other.0[i]);
            if c != 0 {
                return c;
            }
            i += 1;
        }
        if i >= n {
            if i >= m {
                0
            } else {
                -1
            }
        } else {
            1
        }
    }
}

/// Replacing a leaf by a well-formed expression keeps an expression well formed: a
/// subtree substitution is a contiguous splice.
pub proof fn lemma_splice_wf(s: Seq<NodeView>, pos: int, t: Seq<NodeView>)
    requires
        well_formed(s),
        well_formed(t),
        0 <= pos < s.len(),
        op_arity(s[pos].op) == 0,
    ensures
        well_formed(s.subrange(0, pos) + t + s.subrange(pos + 1, s.len() as int)),
{
    let a = s.subrange(0, pos);
    let c = s.subrange(pos + 1, s.len() as int);
    let leaf = seq![s[pos]];
    let u = a + t + c;
    assert(s =~= a + leaf + c);
    let al = a + leaf;
    let at = a + t;
    assert(height(leaf, 1) == 1) by {
        assert(height(leaf, 0) == 0);
    }
    lemma_height_suffix(a, leaf, 1);
    lemma_height_suffix(a, t, t.len());
    lemma_reduces_height_nonneg(s, a.len());
    assert(s == al + c);
    assert(u == at + c);
    lemma_height_prefix(al, c, a.len());
    lemma_height_prefix(a, leaf, a.len());
    assert(height(s, a.len()) == height(a, a.len()));
    assert(height(at, at.len()) == height(a, a.len()) + 1);
    assert(height(al, al.len()) == height(a, a.len()) + 1);
    assert forall|i: int| 0 <= i < u.len() implies #[trigger] height(u, i as nat) >= op_arity(u[i].op) by {
        if i < a.len() {
            assert(u[i] == s[i]);
            assert(height(s, i as nat) >= op_arity(s[i].op));
            lemma_height_prefix(at, c, i as nat);
            lemma_height_prefix(a, t, i as nat);
            lemma_height_prefix(al, c, i as nat);
            lemma_height_prefix(a, leaf, i as nat);
        } else if i < at.len() {
            let k = (i - a.len()) as nat;
            lemma_height_prefix(at, c, i as nat);
            lemma_height_suffix(a, t, k);
            assert(u[i] == t[k as int]);
            assert(height(t, k) >= op_arity(t[k as int].op));
            assert(i as nat == a.len() + k);
            assert(height(u, i as nat) == height(at, i as nat));
            assert(height(at, i as nat) == height(a, a.len()) + height(t, k));
        } else {
            let m = (i - at.len()) as nat;
            assert(u[i] == c[m as int]);
            assert(s[(al.len() + m) as int] == c[m as int]);
            assert(height(s, (al.len() + m) as nat) >= op_arity(s[(al.len() + m) as int].op));
            assert(i as nat == at.len() + m);
            lemma_height_suffix(at, c, m);
            lemma_height_suffix(al, c, m);
            assert(height(u, i as nat) == height(at, at.len()) + height(c, m));
            assert(height(s, (al.len() + m) as nat) == height(al, al.len()) + height(c, m));
        }
    }
    assert(height(u, u.len()) == height(s, s.len())) by {
        lemma_height_suffix(at, c, c.len());
        lemma_height_suffix(al, c, c.len());
        lemma_height_prefix(at, c, at.len());
        lemma_height_prefix(al, c, al.len());
    }
}

impl LinearizedExpr {
    /// Replaces the leaf at `pos` by `new_expr`; a well-formed replacement keeps the
    /// expression well formed.
    pub fn splice_leaf(&mut self, pos: usize, new_expr: &LinearizedExpr)
        requires
            pos < old(self)@.len(),
            op_arity(old(self)@[pos as int].op) == 0,
        ensures
            final(self)@ == old(self)@.subrange(0, pos as int) + new_expr@ + old(self)@.subrange(
                pos + 1,
                old(self)@.len() as int,
            ),
            well_formed(old(self)@) && well_formed(new_expr@) ==> well_formed(final(self)@),
    {
        proof {
            if well_formed(self@) && well_formed(new_expr@) {
                lemma_splice_wf(self@, pos as int, new_expr@);
            }
        }
        self.replace_at_pos(pos, new_expr);
    }
}

} // verus!
