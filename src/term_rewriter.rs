//! Mixed boolean-arithmetic rewriting: sub-expressions are replaced by equivalent larger
//! ones from a rule table, the operands filling the rule's parameters `p0`, `p1`, `p2`.
use crate::evaluator::{args_of, replaced, split_into_args};
use crate::expr::{well_formed, width, LinearExpr, LinearizedExpr, NodeView};
use crate::expression_utils::{downcast_width, reg, semantic_downcast};
use crate::simplify::{good, is_good, simplified};
use vstd::prelude::*;

verus! {

/// Rewriting with a table from operator shapes to equivalent expressions over the
/// parameters `p0`, `p1`, `p2`.
pub struct TermRewriter {
    pub rules_map: Vec<(LinearExpr, Vec<LinearizedExpr>)>,
}

/// The first table entry for the operator `key`.
pub open spec fn first_entry(rules: Seq<(LinearExpr, Vec<LinearizedExpr>)>, key: crate::expr::NodeView, n: int) -> int
    decreases n,
{
    if n <= 0 {
        -1
    } else if first_entry(rules, key, n - 1) >= 0 {
        first_entry(rules, key, n - 1)
    } else if rules[n - 1].0@ == key {
        n - 1
    } else {
        -1
    }
}

impl TermRewriter {
    pub fn new(rules_map: Vec<(LinearExpr, Vec<LinearizedExpr>)>) -> (r: TermRewriter)
        ensures
            r.rules_map == rules_map,
    {
        TermRewriter { rules_map }
    }

    /// The rule the draw picks among the equivalents of `expr`'s shape.
    pub fn get_rule(&self, expr: &LinearExpr, draw: u64) -> (r: Option<LinearizedExpr>)
        ensures
            r matches Some(e) ==> {
                let i = first_entry(self.rules_map@, expr@, self.rules_map@.len() as int);
                &&& 0 <= i < self.rules_map@.len()
                &&& self.rules_map@[i].1@.len() > 0
                &&& e@ == self.rules_map@[i].1@[(draw % (self.rules_map@[i].1@.len() as u64)) as int]@
            },
            r is None ==> ({
                let i = first_entry(self.rules_map@, expr@, self.rules_map@.len() as int);
                i < 0 || self.rules_map@[i].1@.len() == 0
            }),
    {
        let mut i: usize = 0;
        while i < self.rules_map.len()
            invariant
                i <= self.rules_map@.len(),
                first_entry(self.rules_map@, expr@, i as int) == -1,
            decreases self.rules_map@.len() - i,
        {
            if self.rules_map[i].0.same_as(expr) {
                assert(first_entry(self.rules_map@, expr@, i + 1) == i);
                proof {
                    lemma_first_entry_stable(self.rules_map@, expr@, i as int + 1, self.rules_map@.len() as int);
                }
                let options = &self.rules_map[i].1;
                if options.len() == 0 {
                    return None;
                }
                let k = (draw % (options.len() as u64)) as usize;
                return Some(options[k].clone());
            }
            i += 1;
        }
        None
    }

    /// One of `x`, `y`, `c`, `k` (picked by the draw), narrowed to `size` bits.
    fn rand_var(size: usize, draw: u64) -> (r: LinearizedExpr)
        requires
            downcast_width(size),
        ensures
            good(r@, false),
            r@ == operand_var(size, draw),
    {
        proof {
            reveal_strlit("x");
            reveal_strlit("y");
            reveal_strlit("c");
            reveal_strlit("k");
            assert("x"@ =~= seq!['x']);
            assert("y"@ =~= seq!['y']);
            assert("c"@ =~= seq!['c']);
            assert("k"@ =~= seq!['k']);
        }
        let name = match draw % 4 {
            0 => "x",
            1 => "y",
            2 => "c",
            _ => "k",
        };
        let v = reg(name, 64);
        proof {
            crate::simplify::lemma_good_leaf(0, 64, false);
            assert(crate::simplify::good_node(v@[0], false));
            assert(good(v@, false));
        }
        let r = semantic_downcast(v, size);
        proof {
            if size != 64 {
                crate::simplify::lemma_good_leaf(crate::bit_vecs::mask(
                    (vstd::arithmetic::power2::pow2(size as nat) - 1) as u64,
                    64,
                ), 64, false);
                crate::simplify::lemma_good_postfix2(
                    v@,
                    crate::expression_utils::const_leaf((vstd::arithmetic::power2::pow2(size as nat) - 1) as u64, 64),
                    crate::expr::OpView::And,
                    64,
                    false,
                );
            }
        }
        r
    }
}

proof fn lemma_first_entry_stable(rules: Seq<(LinearExpr, Vec<LinearizedExpr>)>, key: crate::expr::NodeView, i: int, n: int)
    requires
        0 <= i <= n,
        first_entry(rules, key, i) >= 0,
    ensures
        first_entry(rules, key, n) == first_entry(rules, key, i),
    decreases n - i,
{
    if i < n {
        lemma_first_entry_stable(rules, key, i, n - 1);
    }
}

/// The register `x`, `y`, `c` or `k` that the draw picks, narrowed to `size` bits.
pub open spec fn operand_var(size: usize, draw: u64) -> Seq<NodeView> {
    let t = draw % 4;
    let name = if t == 0 {
        seq!['x']
    } else if t == 1 {
        seq!['y']
    } else if t == 2 {
        seq!['c']
    } else {
        seq!['k']
    };
    crate::expression_utils::downcast_spec(seq![crate::expr::node(crate::expr::OpView::Reg(name), 64)], size)
}

/// The parameter register `p0`, `p1` or `p2` (any index from 2 on).
pub open spec fn param_reg(index: usize, size: usize) -> Seq<NodeView> {
    let d = if index == 0 {
        '0'
    } else if index == 1 {
        '1'
    } else {
        '2'
    };
    seq![crate::expr::node(crate::expr::OpView::Reg(seq!['p', d]), size)]
}

/// Fills parameter `i` of `rule` with `args[i]` when both are usable.
pub open spec fn fill_one(rule: Seq<NodeView>, args: Seq<Seq<NodeView>>, i: int) -> Seq<NodeView> {
    if 0 <= i < args.len() && args[i].len() > 0 && width(args[i]) > 0 && well_formed(rule) {
        replaced(rule, param_reg(i as usize, width(args[i])), args[i])
    } else {
        rule
    }
}

/// Fills parameters `idx - 1` down to `0`.
pub open spec fn fill_params(rule: Seq<NodeView>, args: Seq<Seq<NodeView>>, idx: nat) -> Seq<NodeView>
    decreases idx,
{
    if idx == 0 {
        rule
    } else {
        fill_params(fill_one(rule, args, idx - 1), args, (idx - 1) as nat)
    }
}

/// `p1` and `p2` left in a rule replaced by operands the first two draws pick.
pub open spec fn pad_spec(rule: Seq<NodeView>, draws: Seq<u64>) -> Seq<NodeView> {
    if !well_formed(rule) {
        rule
    } else {
        let size = width(rule);
        if !downcast_width(size) {
            rule
        } else {
            let r1 = replaced(rule, param_reg(1, size), operand_var(size, crate::semantics::spec_draw(draws, 0, 0)));
            if well_formed(r1) {
                replaced(r1, param_reg(2, size), operand_var(size, crate::semantics::spec_draw(draws, 0, 1)))
            } else {
                r1
            }
        }
    }
}

/// The instance of `rule` for `expr`: its operands (or the leaf itself) fill the
/// parameters, the rest are padded.
pub open spec fn instantiate(expr: Seq<NodeView>, rule: Seq<NodeView>, draws: Seq<u64>) -> Seq<NodeView> {
    if !well_formed(rule) {
        rule
    } else {
        let k = crate::expr::op_arity(expr.last().op);
        let filled = if k == 0 {
            if width(expr) > 0 {
                replaced(rule, param_reg(0, width(expr)), seq![expr.last()])
            } else {
                rule
            }
        } else {
            fill_params(rule, args_of(expr), k)
        };
        pad_spec(filled, draws)
    }
}

/// The root of `expr` rewritten with the rule the first draw picks among the equivalents
/// of its shape (the other draws pad the rule), then simplified; without a rule, or when
/// the instance is not accepted by the simplifier, `expr` simplified.
pub open spec fn top_level_rewrite(
    rules: Seq<(LinearExpr, Vec<LinearizedExpr>)>,
    expr: Seq<NodeView>,
    draws: Seq<u64>,
) -> Seq<NodeView> {
    if !good(expr, false) {
        expr
    } else {
        let i = first_entry(rules, expr.last(), rules.len() as int);
        if 0 <= i < rules.len() && rules[i].1@.len() > 0 {
            let rule = rules[i].1@[(crate::semantics::spec_draw(draws, 0, 0) % (rules[i].1@.len() as u64)) as int]@;
            let cand = instantiate(
                expr,
                rule,
                draws.subrange(
                    if draws.len() > 0 {
                        1
                    } else {
                        0
                    },
                    draws.len() as int,
                ),
            );
            if good(cand, false) {
                simplified(cand)
            } else {
                simplified(expr)
            }
        } else {
            simplified(expr)
        }
    }
}

/// The draw `k` places after `c`, or zero past the end of the draws.
fn draw_at(draws: &Vec<u64>, c: usize, k: usize) -> (r: u64)
    ensures
        r == crate::semantics::spec_draw(draws@, c as int, k as int),
{
    if c < draws.len() && k < draws.len() - c {
        draws[c + k]
    } else {
        0
    }
}

/// Position of the `k`-th largest entry (ties in order of position).
fn kth_largest(sizes: &Vec<usize>, k: usize) -> (r: usize)
    requires
        sizes@.len() > 0,
    ensures
        r < sizes@.len(),
{
    let n = sizes.len();
    let mut taken: Vec<bool> = Vec::new();
    let mut i: usize = 0;
    while i < n
        invariant
            i <= n,
            taken@.len() == i,
        decreases n - i,
    {
        taken.push(false);
        i += 1;
    }
    let mut best: usize = 0;
    let mut round: usize = 0;
    while round <= k && round < n
        invariant
            taken@.len() == n,
            n == sizes@.len(),
            best < n,
        decreases n - round,
    {
        let mut found = false;
        let mut j: usize = 0;
        while j < n
            invariant
                taken@.len() == n,
                n == sizes@.len(),
                best < n,
                j <= n,
            decreases n - j,
        {
            if !taken[j] && (!found || sizes[j] > sizes[best]) {
                best = j;
                found = true;
            }
            j += 1;
        }
        if !found {
            return best;
        }
        taken.set(best, true);
        round += 1;
    }
    best
}

/// The parameter register `p0`, `p1` or `p2`.
fn parameter(index: usize, size: usize) -> (r: LinearizedExpr)
    requires
        size > 0,
    ensures
        r@.len() == 1,
        r@ == param_reg(index, size),
{
    proof {
        reveal_strlit("p0");
        reveal_strlit("p1");
        reveal_strlit("p2");
        assert("p0"@ =~= seq!['p', '0']);
        assert("p1"@ =~= seq!['p', '1']);
        assert("p2"@ =~= seq!['p', '2']);
    }
    match index {
        0 => reg("p0", size),
        1 => reg("p1", size),
        _ => reg("p2", size),
    }
}

impl TermRewriter {
    /// The rule with its parameters replaced by the operands of `expr` (a leaf fills
    /// `p0`) and the parameters left over by random operands.
    pub fn replace_expr_with_rule(expr: &LinearizedExpr, rule: &LinearizedExpr, draws: &Vec<u64>) -> (r:
        LinearizedExpr)
        requires
            well_formed(expr@),
        ensures
            r@ == instantiate(expr@, rule@, draws@),
    {
        let mut rule = rule.clone();
        if !well_formed_exec(&rule) {
            return rule;
        }
        let ghost rule0 = rule@;
        let k = expr.op().arity();
        if k == 0 {
            if expr.size() > 0 {
                let leaf = LinearizedExpr::from_linear_expr(expr.op().clone());
                rule.replace_subexpr(&parameter(0, expr.size()), &leaf);
            }
        } else {
            let args = split_into_args(expr);
            let ghost av = crate::expr::exprs_view(args@);
            let mut index: usize = k;
            while index > 0
                invariant
                    index <= k,
                    av == crate::expr::exprs_view(args@),
                    fill_params(rule@, av, index as nat) == fill_params(rule0, av, k as nat),
                decreases index,
            {
                index -= 1;
                proof {
                    assert(av.len() == args@.len());
                    if index < args@.len() {
                        assert(av[index as int] == args@[index as int]@);
                    }
                }
                if index < args.len() && args[index].len() > 0 && args[index].size() > 0
                    && well_formed_exec(&rule) {
                    let p = parameter(index, args[index].size());
                    rule.replace_subexpr(&p, &args[index]);
                }
            }
        }
        TermRewriter::pad_with_var(&mut rule, draws);
        rule
    }

    /// Fills the parameters `p1` and `p2` left in a rule with random operands.
    fn pad_with_var(rule: &mut LinearizedExpr, draws: &Vec<u64>)
        ensures
            final(rule)@ == pad_spec(old(rule)@, draws@),
    {
        if !well_formed_exec(rule) {
            return;
        }
        let size = rule.size();
        if !(size == 1 || size == 8 || size == 16 || size == 32 || size == 64) {
            return;
        }
        let v1 = TermRewriter::rand_var(size, draw_at(draws, 0, 0));
        rule.replace_subexpr(&parameter(1, size), &v1);
        if well_formed_exec(rule) {
            let v2 = TermRewriter::rand_var(size, draw_at(draws, 0, 1));
            rule.replace_subexpr(&parameter(2, size), &v2);
        }
    }

    /// Rewrites the root of `expr` with a rule of its shape, then simplifies; an
    /// expression the simplifier does not accept is left as it is.
    pub fn rewrite_top_level_expr(&self, expr: LinearizedExpr, draws: &Vec<u64>) -> (r: LinearizedExpr)
        ensures
            good(expr@, false) ==> good(r@, false),
            !good(expr@, false) ==> r@ == expr@,
            r@ == top_level_rewrite(self.rules_map@, expr@, draws@),
    {
        if !is_good(&expr) {
            return expr;
        }
        if let Some(rule) = self.get_rule(expr.op(), draw_at(draws, 0, 0)) {
            let pads = vstd::slice::slice_to_vec(vstd::slice::slice_subrange(
                draws.as_slice(),
                if draws.len() > 0 { 1 } else { 0 },
                draws.len(),
            ));
            let candidate = TermRewriter::replace_expr_with_rule(&expr, &rule, &pads);
            if is_good(&candidate) {
                return candidate.simplify();
            }
        }
        expr.simplify()
    }

    /// Twenty to thirty rounds, each replacing a random sub-expression (in the first two
    /// rounds mostly one of the ten largest) by an instance of one of its rules; a round
    /// whose result the simplifier would not accept is undone. The result is simplified.
    pub fn rewrite_expr(&self, expr: LinearizedExpr, draws: &Vec<u64>) -> (r: LinearizedExpr)
        ensures
            good(expr@, false) ==> good(r@, false),
            !good(expr@, false) ==> r@ == expr@,
    {
        if !is_good(&expr) {
            return expr;
        }
        let mut expr = expr;
        let mut c: usize = 0;
        let rounds = 20 + (draw_at(draws, c, 0) % 11) as usize;
        c = advance(c, 1, draws.len());
        let mut round: usize = 0;
        while round < rounds
            invariant
                good(expr@, false),
                c <= draws@.len(),
            decreases rounds - round,
        {
            let sizes = expr.get_sizes();
            let n = sizes.len();
            let top = draw_at(draws, c, 0) % 100 < if round < 2 {
                70
            } else {
                5
            };
            let mut index = if top {
                let k = (draw_at(draws, c, 1) % (if n < 10 { n } else { 10 }) as u64) as usize;
                kth_largest(&sizes, k)
            } else {
                (draw_at(draws, c, 1) % (n as u64)) as usize
            };
            c = advance(c, 2, draws.len());
            while sizes[index] == 1 && n > 1 && c < draws.len()
                invariant
                    index < n,
                    n == sizes@.len(),
                    c <= draws@.len(),
                decreases draws@.len() - c,
            {
                index = (draws[c] % (n as u64)) as usize;
                c += 1;
            }
            let size = sizes[index];
            if size >= 1 && size <= index + 1 {
                let start = index + 1 - size;
                let sub = expr.get_expression_slice(start, index + 1);
                if is_good(&sub) && sub.size() > 0 {
                    let key = if sub.is_var() || sub.is_constant() {
                        parameter(0, sub.size()).op().clone()
                    } else {
                        sub.op().clone()
                    };
                    if let Some(rule) = self.get_rule(&key, draw_at(draws, c, 0)) {
                        let pads = vstd::slice::slice_to_vec(vstd::slice::slice_subrange(
                            draws.as_slice(),
                            advance(c, 1, draws.len()),
                            draws.len(),
                        ));
                        c = advance(c, 3, draws.len());
                        let instance = TermRewriter::replace_expr_with_rule(&sub, &rule, &pads);
                        let mut candidate = expr.get_expression_slice(0, start);
                        candidate.extend(instance);
                        candidate.extend(expr.get_expression_slice(index + 1, expr.len()));
                        if is_good(&candidate) {
                            expr = candidate;
                        }
                    }
                }
            }
            round += 1;
        }
        expr.simplify()
    }
}

/// Whether `s` is well formed.
pub(crate) fn well_formed_exec(s: &LinearizedExpr) -> (r: bool)
    ensures
        r == well_formed(s@),
{
    let n = s.0.len();
    let mut h: usize = 0;
    let mut i: usize = 0;
    while i < n
        invariant
            n == s@.len(),
            i <= n,
            h as int == crate::expr::height(s@, i as nat),
            h <= i,
            forall|j: int| 0 <= j < i ==> #[trigger] crate::expr::height(s@, j as nat) >= crate::expr::op_arity(s@[j].op),
        decreases n - i,
    {
        let e = &s.0[i];
        assert(e@ == s@[i as int]);
        let k = e.arity();
        if h < k {
            proof {
                let ii = i as int;
                assert(!(crate::expr::height(s@, ii as nat) >= crate::expr::op_arity(s@[ii].op)));
                assert(!crate::expr::reduces(s@));
            }
            return false;
        }
        h = h - k + 1;
        i += 1;
    }
    n > 0 && h == 1
}

/// `c` moved on by `k` draws, at most to the end.
fn advance(c: usize, k: usize, len: usize) -> (r: usize)
    requires
        c <= len,
    ensures
        c <= r <= len,
{
    if k < len - c {
        c + k
    } else {
        len
    }
}

/// MBA rewriting of a whole expression, when enabled; memory operations are kept.
pub fn rewrite_to_equivalent_mba(
    expr_orig: LinearizedExpr,
    term_rewriter: &TermRewriter,
    enabled: bool,
    draws: &Vec<u64>,
) -> (r: LinearizedExpr)
    ensures
        !enabled ==> r@ == expr_orig@,
        expr_orig@.len() > 0 && crate::expr::is_memory_root(expr_orig@.last()) ==> r@ == expr_orig@,
        good(expr_orig@, false) ==> good(r@, false),
{
    if !enabled || (expr_orig.len() > 0 && expr_orig.is_memory_op()) {
        return expr_orig;
    }
    term_rewriter.rewrite_expr(expr_orig, draws)
}

/// MBA rewriting of the root of an expression, when enabled; memory operations are kept.
pub fn rewrite_to_equivalent_mba_top_level(
    expr_orig: LinearizedExpr,
    term_rewriter: &TermRewriter,
    enabled: bool,
    draws: &Vec<u64>,
) -> (r: LinearizedExpr)
    ensures
        !enabled ==> r@ == expr_orig@,
        expr_orig@.len() > 0 && crate::expr::is_memory_root(expr_orig@.last()) ==> r@ == expr_orig@,
        good(expr_orig@, false) ==> good(r@, false),
        enabled && !(expr_orig@.len() > 0 && crate::expr::is_memory_root(expr_orig@.last())) ==> r@
            == top_level_rewrite(term_rewriter.rules_map@, expr_orig@, draws@),
{
    if !enabled || (expr_orig.len() > 0 && expr_orig.is_memory_op()) {
        return expr_orig;
    }
    term_rewriter.rewrite_top_level_expr(expr_orig, draws)
}

} // verus!
