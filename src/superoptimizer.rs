//! Diversification: registers are randomly replaced by their definitions while the
//! result stays within the handler limits, then unused definitions are dropped.
use crate::assignment::Assignment;
use crate::expr::{
    const_nodes, dedup, exprs_view, is_memory_root, singletons, var_nodes, LinearizedExpr,
    NodeView, };
use vstd::prelude::*;

verus! {

/// `s` with `rhs` in place of every occurrence of the register element `var`.
pub open spec fn inline_var(s: Seq<NodeView>, var: NodeView, rhs: Seq<NodeView>) -> Seq<NodeView>
    decreases s.len(),
{
    if s.len() == 0 {
        s
    } else {
        inline_var(s.drop_last(), var, rhs) + if s.last().op is Reg && s.last() == var {
            rhs
        } else {
            seq![s.last()]
        }
    }
}

/// Inlines the definition `cur_rhs` of the register `cur_var` into `expr`; a memory
/// operation is never inlined.
pub fn replace_expr_var(expr: &LinearizedExpr, cur_var: &LinearizedExpr, cur_rhs: &LinearizedExpr) -> (r:
    LinearizedExpr)
    requires
        cur_var@.len() > 0,
        cur_rhs@.len() > 0,
    ensures
        r@ == if is_memory_root(cur_rhs@.last()) {
            expr@
        } else {
            inline_var(expr@, cur_var@.last(), cur_rhs@)
        },
{
    if cur_rhs.is_memory_op() {
        return expr.clone();
    }
    let var = cur_var.op();
    let mut v = LinearizedExpr::new(Vec::new());
    let mut i: usize = 0;
    assert(v@ =~= inline_var(expr@.subrange(0, 0), var@, cur_rhs@));
    while i < expr.len()
        invariant
            i <= expr@.len(),
            var@ == cur_var@.last(),
            v@ == inline_var(expr@.subrange(0, i as int), var@, cur_rhs@),
        decreases expr@.len() - i,
    {
        let e = &expr.0[i];
        assert(e@ == expr@[i as int]);
        proof {
            let t = expr@.subrange(0, i + 1);
            assert(t.drop_last() =~= expr@.subrange(0, i as int));
            assert(t.last() == expr@[i as int]);
        }
        if e.is_var() && e.same_as(var) {
            v.extend(cur_rhs.clone());
        } else {
            v.push(e.clone());
            assert(seq![e@] + Seq::<NodeView>::empty() =~= seq![e@]);
        }
        i += 1;
        proof {
            let t = expr@.subrange(0, i as int);
            let prev = inline_var(expr@.subrange(0, i - 1), var@, cur_rhs@);
            assert(v@ =~= inline_var(t, var@, cur_rhs@)) by {
                assert(t.drop_last() =~= expr@.subrange(0, i - 1));
            }
        }
    }
    assert(expr@.subrange(0, expr@.len() as int) =~= expr@);
    v
}

/// `s` with every expression after its first occurrence removed.
pub open spec fn dedup_seqs(s: Seq<Seq<NodeView>>) -> Seq<Seq<NodeView>>
    decreases s.len(),
{
    if s.len() == 0 {
        s
    } else if dedup_seqs(s.drop_last()).contains(s.last()) {
        dedup_seqs(s.drop_last())
    } else {
        dedup_seqs(s.drop_last()).push(s.last())
    }
}

/// The limits a derived handler expression respects: at most two distinct registers, at
/// most one distinct constant, and a length between `min_depth` and `max_depth`.
pub open spec fn within_limits(s: Seq<NodeView>, min_depth: usize, max_depth: usize) -> bool {
    &&& dedup(var_nodes(s)).len() <= 2
    &&& dedup(const_nodes(s)).len() <= 1
    &&& min_depth <= s.len() <= max_depth
}

pub fn check_expr_constraints(expr: &LinearizedExpr, min_depth: usize, max_depth: usize) -> (r: bool)
    ensures
        r == within_limits(expr@, min_depth, max_depth),
{
    expr.num_unique_vars() <= 2 && expr.num_unique_constants() <= 1 && expr.len() >= min_depth
        && expr.len() <= max_depth
}

/// Definitions as (destination, source) pairs, in program order.
pub open spec fn defs_view(v: Seq<(LinearizedExpr, LinearizedExpr)>) -> Seq<(Seq<NodeView>, Seq<NodeView>)> {
    v.map_values(|p: (LinearizedExpr, LinearizedExpr)| (p.0@, p.1@))
}

/// The definitions of a list of assignments.
pub fn gen_ssa_map(assignments: &Vec<Assignment>) -> (r: Vec<(LinearizedExpr, LinearizedExpr)>)
    ensures
        defs_view(r@) == assignments@.map_values(|a: Assignment| (a.lhs@, a.rhs@)),
{
    let mut r: Vec<(LinearizedExpr, LinearizedExpr)> = Vec::new();
    let mut i: usize = 0;
    while i < assignments.len()
        invariant
            i <= assignments@.len(),
            defs_view(r@) == assignments@.subrange(0, i as int).map_values(|a: Assignment| (a.lhs@, a.rhs@)),
        decreases assignments@.len() - i,
    {
        let ghost before = r@;
        r.push((assignments[i].lhs.clone(), assignments[i].rhs.clone()));
        proof {
            assert(defs_view(r@) =~= defs_view(before).push((assignments@[i as int].lhs@, assignments@[i as int].rhs@)));
            assert(assignments@.subrange(0, i + 1) =~= assignments@.subrange(0, i as int).push(assignments@[i as int]));
        }
        i += 1;
    }
    assert(assignments@.subrange(0, assignments@.len() as int) =~= assignments@);
    r
}

/// The source of the last definition of `k`.
pub open spec fn definition(m: Seq<(Seq<NodeView>, Seq<NodeView>)>, k: Seq<NodeView>) -> Option<Seq<NodeView>> {
    crate::symbolic::lookup(m, k)
}

fn find_definition(map: &Vec<(LinearizedExpr, LinearizedExpr)>, k: &LinearizedExpr) -> (r: Option<LinearizedExpr>)
    ensures
        r matches Some(v) ==> definition(defs_view(map@), k@) == Some(v@),
        r is None ==> definition(defs_view(map@), k@) is None,
{
    let ghost b = defs_view(map@);
    let mut i: usize = map.len();
    assert(b.subrange(0, i as int) =~= b);
    while i > 0
        invariant
            i <= map@.len(),
            b == defs_view(map@),
            crate::symbolic::lookup(b, k@) == crate::symbolic::lookup(b.subrange(0, i as int), k@),
        decreases i,
    {
        let ghost pre = b.subrange(0, i as int);
        assert(pre.drop_last() =~= b.subrange(0, i - 1));
        assert(pre.last() == (map@[i - 1].0@, map@[i - 1].1@));
        if map[i - 1].0.same_as(k) {
            return Some(map[i - 1].1.clone());
        }
        i -= 1;
    }
    None
}

/// Replaces the register picked by `draw` among the registers of `expr` by its
/// definition, if it has one.
pub open spec fn derive_spec(e: Seq<NodeView>, m: Seq<(Seq<NodeView>, Seq<NodeView>)>, draw: u64) -> Seq<NodeView> {
    let vars = var_nodes(e);
    if vars.len() == 0 {
        e
    } else {
        let v = vars[(draw % (vars.len() as u64)) as int];
        match definition(m, seq![v]) {
            Some(rhs) => if rhs.len() > 0 && !is_memory_root(rhs.last()) {
                inline_var(e, v, rhs)
            } else {
                e
            },
            None => e,
        }
    }
}

pub fn derive_random_variable(expr: LinearizedExpr, map: &Vec<(LinearizedExpr, LinearizedExpr)>, draw: u64) -> (r:
    LinearizedExpr)
    ensures
        r@ == derive_spec(expr@, defs_view(map@), draw),
{
    let vars = expr.get_vars();
    assert(exprs_view(vars@).len() == vars@.len());
    if vars.len() == 0 {
        return expr;
    }
    let pick = (draw % (vars.len() as u64)) as usize;
    assert(exprs_view(vars@)[pick as int] == vars@[pick as int]@);
    let v = &vars[pick];
    match find_definition(map, v) {
        Some(rhs) => {
            if rhs.len() > 0 && !rhs.is_memory_op() {
                replace_expr_var(&expr, v, &rhs)
            } else {
                expr
            }
        },
        None => expr,
    }
}

/// `s` respects the limits for some maximal length between the bounds.
pub open spec fn within_some_limit(s: Seq<NodeView>, min_depth: usize, max_depth: usize) -> bool {
    exists|d: usize| min_depth <= d <= max_depth && #[trigger] within_limits(s, min_depth, d)
}

/// `k` inlinings of definitions, one per draw from `c` on (fewer when the draws run out);
/// with the position of the next draw.
pub open spec fn inline_steps(
    e: Seq<NodeView>,
    m: Seq<(Seq<NodeView>, Seq<NodeView>)>,
    draws: Seq<u64>,
    c: int,
    k: nat,
) -> (Seq<NodeView>, int)
    decreases k,
{
    if k == 0 || c < 0 || c >= draws.len() {
        (e, c)
    } else {
        inline_steps(derive_spec(e, m, draws[c]), m, draws, c + 1, (k - 1) as nat)
    }
}

/// `rounds` rounds from draw `c` on: a draw gives the number of inlinings (below 5), and
/// the result is kept only within the limits.
pub open spec fn diversify_rounds(
    e: Seq<NodeView>,
    m: Seq<(Seq<NodeView>, Seq<NodeView>)>,
    draws: Seq<u64>,
    c: int,
    rounds: nat,
    min_depth: usize,
    limit: usize,
) -> Seq<NodeView>
    decreases rounds,
{
    if rounds == 0 || c < 0 || c >= draws.len() {
        e
    } else {
        let x = inline_steps(e, m, draws, c + 1, (draws[c] % 5) as nat);
        let next = if within_limits(x.0, min_depth, limit) {
            x.0
        } else {
            e
        };
        diversify_rounds(next, m, draws, x.1, (rounds - 1) as nat, min_depth, limit)
    }
}

/// The result of [`superoptimize_expression`]: unchanged for an empty expression, a
/// memory operation or no draws; otherwise a hundred rounds under the length limit that
/// the first draw picks.
pub open spec fn superoptimized(
    e: Seq<NodeView>,
    m: Seq<(Seq<NodeView>, Seq<NodeView>)>,
    draws: Seq<u64>,
    min_depth: usize,
    max_depth: usize,
) -> Seq<NodeView> {
    if e.len() == 0 || is_memory_root(e.last()) || draws.len() == 0 {
        e
    } else {
        let limit = (min_depth + (draws[0] % ((max_depth - min_depth + 1) as u64)) as usize) as usize;
        diversify_rounds(e, m, draws, 1, 100, min_depth, limit)
    }
}

/// Rounds of random inlining, each kept only when the result stays within the limits;
/// the draws give the limit, the number of inlinings per round and the registers.
pub fn superoptimize_expression(
    expr: LinearizedExpr,
    map: &Vec<(LinearizedExpr, LinearizedExpr)>,
    draws: &Vec<u64>,
    min_depth: usize,
    max_depth: usize,
) -> (r: LinearizedExpr)
    requires
        min_depth <= max_depth < usize::MAX,
    ensures
        r@ == expr@ || (expr@.len() > 0 && !is_memory_root(expr@.last()) && within_some_limit(r@, min_depth, max_depth)),
        r@ == superoptimized(expr@, defs_view(map@), draws@, min_depth, max_depth),
{
    if expr.len() == 0 || expr.is_memory_op() || draws.len() == 0 {
        return expr;
    }
    let span = (max_depth - min_depth + 1) as u64;
    let limit = min_depth + (draws[0] % span) as usize;
    let ghost original = expr@;
    let mut current = expr;
    let mut c: usize = 1;
    let mut round: usize = 0;
    while round < 100 && c < draws.len()
        invariant
            1 <= c <= draws@.len(),
            min_depth <= limit <= max_depth,
            original.len() > 0 && !is_memory_root(original.last()),
            current@ == original || within_limits(current@, min_depth, limit),
            round <= 100,
            limit == min_depth + (draws@[0] % ((max_depth - min_depth + 1) as u64)) as usize,
            diversify_rounds(current@, defs_view(map@), draws@, c as int, (100 - round) as nat, min_depth, limit)
                == diversify_rounds(original, defs_view(map@), draws@, 1, 100, min_depth, limit),
        decreases 100 - round,
    {
        let count = draws[c] % 5;
        c += 1;
        let ghost c_start = c as int;
        let mut candidate = current.clone();
        let mut j: u64 = 0;
        while j < count && c < draws.len()
            invariant
                1 <= c <= draws@.len(),
                j <= count,
                inline_steps(candidate@, defs_view(map@), draws@, c as int, (count - j) as nat)
                    == inline_steps(current@, defs_view(map@), draws@, c_start, count as nat),
            decreases count - j,
        {
            candidate = derive_random_variable(candidate, map, draws[c]);
            c += 1;
            j += 1;
        }
        assert(inline_steps(candidate@, defs_view(map@), draws@, c as int, (count - j) as nat) == (candidate@, c as int));
        if check_expr_constraints(&candidate, min_depth, limit) {
            current = candidate;
        }
        round += 1;
    }
    assert(diversify_rounds(current@, defs_view(map@), draws@, c as int, (100 - round) as nat, min_depth, limit) == current@);
    current
}

/// Index of the last assignment of `v` whose destination is `k`, searching `v[..n]`.
pub open spec fn last_def(v: Seq<Assignment>, k: Seq<NodeView>, n: int) -> int
    decreases n,
{
    if n <= 0 {
        -1
    } else if v[n - 1].lhs@ == k {
        n - 1
    } else {
        last_def(v, k, n - 1)
    }
}

/// Assignments whose destination is always needed: the last one and those whose source
/// is a memory operation.
pub open spec fn is_root(v: Seq<Assignment>, i: int) -> bool {
    i == v.len() - 1 || (v[i].rhs@.len() > 0 && is_memory_root(v[i].rhs@.last()))
}

/// The marks are closed: roots' definitions are marked, and so is the definition of every
/// register read by a marked assignment.
pub open spec fn closed_marks(v: Seq<Assignment>, marks: Seq<bool>) -> bool {
    &&& marks.len() == v.len()
    &&& forall|i: int| 0 <= i < v.len() && #[trigger] is_root(v, i) ==> marks[last_def(v, v[i].lhs@, v.len() as int)]
    &&& forall|j: int, t: int|
        0 <= j < v.len() && marks[j] && 0 <= t < var_nodes(v[j].rhs@).len() && last_def(
            v,
            seq![var_nodes(v[j].rhs@)[t]],
            v.len() as int,
        ) >= 0 ==> #[trigger] marks[last_def(v, seq![#[trigger] var_nodes(v[j].rhs@)[t]], v.len() as int)]
}

/// Number of set marks.
pub open spec fn count_true(s: Seq<bool>) -> nat
    decreases s.len(),
{
    if s.len() == 0 {
        0
    } else {
        count_true(s.drop_last()) + if s.last() {
            1nat
        } else {
            0nat
        }
    }
}

proof fn lemma_count_update(s: Seq<bool>, j: int)
    requires
        0 <= j < s.len(),
        !s[j],
    ensures
        count_true(s.update(j, true)) == count_true(s) + 1,
        count_true(s) < s.len(),
    decreases s.len(),
{
    let t = s.update(j, true);
    if j == s.len() - 1 {
        assert(t.drop_last() =~= s.drop_last());
        lemma_count_bound(s.drop_last());
    } else {
        lemma_count_update(s.drop_last(), j);
        assert(t.drop_last() =~= s.drop_last().update(j, true));
    }
}

proof fn lemma_count_bound(s: Seq<bool>)
    ensures
        count_true(s) <= s.len(),
    decreases s.len(),
{
    if s.len() > 0 {
        lemma_count_bound(s.drop_last());
    }
}

fn find_last_def(v: &Vec<Assignment>, k: &LinearizedExpr) -> (r: Option<usize>)
    ensures
        r matches Some(j) ==> j < v@.len() && j as int == last_def(v@, k@, v@.len() as int),
        r is None ==> last_def(v@, k@, v@.len() as int) == -1,
{
    let mut i: usize = v.len();
    while i > 0
        invariant
            i <= v@.len(),
            last_def(v@, k@, v@.len() as int) == last_def(v@, k@, i as int),
        decreases i,
    {
        if v[i - 1].lhs.same_as(k) {
            return Some(i - 1);
        }
        i -= 1;
    }
    None
}

proof fn lemma_last_def_range(v: Seq<Assignment>, k: Seq<NodeView>, n: int)
    requires
        0 <= n <= v.len(),
    ensures
        -1 <= last_def(v, k, n) < n,
        last_def(v, k, n) >= 0 ==> v[last_def(v, k, n)].lhs@ == k,
    decreases n,
{
    if n > 0 && v[n - 1].lhs@ != k {
        lemma_last_def_range(v, k, n - 1);
    }
}

proof fn lemma_last_def_range_all(v: Seq<Assignment>)
    ensures
        forall|k: Seq<NodeView>|
            -1 <= #[trigger] last_def(v, k, v.len() as int) < v.len() as int,
        forall|t: int| 0 <= t < v.len() ==> #[trigger] last_def(v, v[t].lhs@, v.len() as int) >= t,
{
    assert forall|t: int| 0 <= t < v.len() implies #[trigger] last_def(v, v[t].lhs@, v.len() as int) >= t by {
        lemma_last_def_at_least(v, v[t].lhs@, v.len() as int, t);
    }
    assert forall|k: Seq<NodeView>| -1 <= #[trigger] last_def(v, k, v.len() as int) < v.len() as int by {
        lemma_last_def_range(v, k, v.len() as int);
    }
}

/// Marks every assignment whose destination the roots need, directly or through the
/// registers the marked sources read.
pub fn find_used(assignments: &Vec<Assignment>) -> (r: Vec<bool>)
    ensures
        closed_marks(assignments@, r@),
{
    let n = assignments.len();
    proof {
        lemma_last_def_range_all(assignments@);
    }
    let mut marks: Vec<bool> = Vec::new();
    let mut i: usize = 0;
    while i < n
        invariant
            n == assignments@.len(),
            i <= n,
            marks@.len() == i,
            forall|t: int| 0 <= t < i ==> !marks@[t],
        decreases n - i,
    {
        marks.push(false);
        i += 1;
    }
    proof {
        lemma_count_bound(marks@);
        assert(count_true(marks@) == 0) by {
            lemma_all_false(marks@);
        }
    }
    let mut count: usize = 0;
    // roots
    let mut i: usize = 0;
    while i < n
        invariant
            n == assignments@.len(),
            i <= n,
            marks@.len() == n,
            count as nat == count_true(marks@),
            forall|k: Seq<NodeView>|
                -1 <= #[trigger] last_def(assignments@, k, n as int) < n as int,
            forall|q: int| 0 <= q < n ==> #[trigger] last_def(assignments@, assignments@[q].lhs@, n as int) >= q,
            forall|t: int| 0 <= t < i && #[trigger] is_root(assignments@, t) ==> marks@[last_def(
                assignments@,
                assignments@[t].lhs@,
                n as int,
            )],
        decreases n - i,
    {
        let a = &assignments[i];
        let root = i + 1 == n || (a.rhs.len() > 0 && a.rhs.is_memory_op());
        if root {
            proof {
                lemma_last_def_range(assignments@, a.lhs@, n as int);
                lemma_last_def_at_least(assignments@, a.lhs@, n as int, i as int);
            }
            let j = find_last_def(assignments, &a.lhs).unwrap();
            if !marks[j] {
                proof {
                    lemma_count_update(marks@, j as int);
                }
                marks.set(j, true);
                count += 1;
            }
        }
        i += 1;
    }
    proof {
        lemma_count_bound(marks@);
    }
    // closure
    let mut changed = true;
    while changed
        invariant
            n == assignments@.len(),
            marks@.len() == n,
            count as nat == count_true(marks@),
            count <= n,
            forall|k: Seq<NodeView>|
                -1 <= #[trigger] last_def(assignments@, k, n as int) < n as int,
            forall|q: int| 0 <= q < n ==> #[trigger] last_def(assignments@, assignments@[q].lhs@, n as int) >= q,
            forall|t: int| 0 <= t < n && #[trigger] is_root(assignments@, t) ==> marks@[last_def(
                assignments@,
                assignments@[t].lhs@,
                n as int,
            )],
            !changed ==> closed_marks(assignments@, marks@),
        decreases n - count + if changed { 1int } else { 0int },
    {
        changed = false;
        let ghost start_count = count;
        let mut j: usize = 0;
        while j < n
            invariant
                n == assignments@.len(),
                j <= n,
                marks@.len() == n,
                count as nat == count_true(marks@),
                count <= n,
                start_count <= count,
                changed ==> start_count < count,
                forall|k: Seq<NodeView>|
                    -1 <= #[trigger] last_def(assignments@, k, n as int) < n as int,
                forall|q: int| 0 <= q < n ==> #[trigger] last_def(assignments@, assignments@[q].lhs@, n as int) >= q,
                forall|t: int| 0 <= t < n && #[trigger] is_root(assignments@, t) ==> marks@[last_def(
                    assignments@,
                    assignments@[t].lhs@,
                    n as int,
                )],
                !changed ==> forall|q: int, t: int|
                    0 <= q < j && marks@[q] && 0 <= t < var_nodes(assignments@[q].rhs@).len()
                        && last_def(assignments@, seq![var_nodes(assignments@[q].rhs@)[t]], n as int) >= 0
                        ==> #[trigger] marks@[last_def(
                        assignments@,
                        seq![#[trigger] var_nodes(assignments@[q].rhs@)[t]],
                        n as int,
                    )],
            decreases n - j,
        {
            if marks[j] {
                let vars = assignments[j].rhs.get_vars();
                assert(exprs_view(vars@).len() == vars@.len());
                let mut t: usize = 0;
                while t < vars.len()
                    invariant
                        n == assignments@.len(),
                        j < n,
                        t <= vars@.len(),
                        exprs_view(vars@) == singletons(var_nodes(assignments@[j as int].rhs@)),
                        vars@.len() == var_nodes(assignments@[j as int].rhs@).len(),
                        marks@.len() == n,
                        count as nat == count_true(marks@),
                        count <= n,
                        start_count <= count,
                        changed ==> start_count < count,
                        marks@[j as int],
                        forall|k: Seq<NodeView>|
                            -1 <= #[trigger] last_def(assignments@, k, n as int) < n as int,
                        forall|q: int| 0 <= q < n ==> #[trigger] last_def(assignments@, assignments@[q].lhs@, n as int) >= q,
                        forall|r: int| 0 <= r < n && #[trigger] is_root(assignments@, r) ==> marks@[last_def(
                            assignments@,
                            assignments@[r].lhs@,
                            n as int,
                        )],
                        !changed ==> forall|q: int, u: int|
                            0 <= q < j && marks@[q] && 0 <= u < var_nodes(assignments@[q].rhs@).len()
                                && last_def(assignments@, seq![var_nodes(assignments@[q].rhs@)[u]], n as int) >= 0
                                ==> #[trigger] marks@[last_def(
                                assignments@,
                                seq![#[trigger] var_nodes(assignments@[q].rhs@)[u]],
                                n as int,
                            )],
                        !changed ==> forall|u: int|
                            0 <= u < t && last_def(assignments@, seq![var_nodes(assignments@[j as int].rhs@)[u]], n as int) >= 0
                                ==> #[trigger] marks@[last_def(
                                assignments@,
                                seq![var_nodes(assignments@[j as int].rhs@)[u]],
                                n as int,
                            )],
                    decreases vars@.len() - t,
                {
                    assert(exprs_view(vars@)[t as int] == vars@[t as int]@);
                    assert(singletons(var_nodes(assignments@[j as int].rhs@))[t as int] == seq![
                        var_nodes(assignments@[j as int].rhs@)[t as int],
                    ]);
                    match find_last_def(assignments, &vars[t]) {
                        Some(d) => {
                            if !marks[d] {
                                proof {
                                    lemma_count_update(marks@, d as int);
                                }
                                marks.set(d, true);
                                count += 1;
                                changed = true;
                            }
                        },
                        None => {},
                    }
                    t += 1;
                }
            }
            j += 1;
        }
    }
    marks
}

proof fn lemma_all_false(s: Seq<bool>)
    requires
        forall|t: int| 0 <= t < s.len() ==> !s[t],
    ensures
        count_true(s) == 0,
    decreases s.len(),
{
    if s.len() > 0 {
        lemma_all_false(s.drop_last());
    }
}

proof fn lemma_last_def_at_least(v: Seq<Assignment>, k: Seq<NodeView>, n: int, i: int)
    requires
        0 <= i < n <= v.len(),
        v[i].lhs@ == k,
    ensures
        last_def(v, k, n) >= i,
    decreases n,
{
    if n - 1 > i && v[n - 1].lhs@ != k {
        lemma_last_def_at_least(v, k, n - 1, i);
    }
}

/// The models of assignments: destination, source and width.
pub open spec fn assignments_view(v: Seq<Assignment>) -> Seq<(Seq<NodeView>, Seq<NodeView>, usize)> {
    v.map_values(|a: Assignment| (a.lhs@, a.rhs@, a.size))
}

/// Assignment `i` defines a register that a marked assignment defines.
pub open spec fn needed(v: Seq<Assignment>, marks: Seq<bool>, i: int) -> bool {
    exists|j: int| 0 <= j < v.len() && marks[j] && #[trigger] v[j].lhs@ == v[i].lhs@
}

/// The needed assignments among the first `n`, in order.
pub open spec fn needed_prefix(v: Seq<Assignment>, marks: Seq<bool>, n: int) -> Seq<(Seq<NodeView>, Seq<NodeView>, usize)>
    decreases n,
{
    if n <= 0 {
        Seq::empty()
    } else if needed(v, marks, n - 1) {
        needed_prefix(v, marks, n - 1).push((v[n - 1].lhs@, v[n - 1].rhs@, v[n - 1].size))
    } else {
        needed_prefix(v, marks, n - 1)
    }
}

/// Drops the assignments whose destination nothing needs.
pub fn eliminate_dead_code(assignments: &Vec<Assignment>) -> (r: Vec<Assignment>)
    ensures
        exists|marks: Seq<bool>|
            closed_marks(assignments@, marks) && assignments_view(r@) == needed_prefix(
                assignments@,
                marks,
                assignments@.len() as int,
            ),
{
    let marks = find_used(assignments);
    let n = assignments.len();
    let mut r: Vec<Assignment> = Vec::new();
    let mut i: usize = 0;
    while i < n
        invariant
            n == assignments@.len(),
            i <= n,
            marks@.len() == n,
            assignments_view(r@) == needed_prefix(assignments@, marks@, i as int),
        decreases n - i,
    {
        let mut keep = false;
        let mut j: usize = 0;
        while j < n && !keep
            invariant
                n == assignments@.len(),
                i < n,
                j <= n,
                marks@.len() == n,
                keep ==> needed(assignments@, marks@, i as int),
                !keep ==> forall|q: int| 0 <= q < j ==> !(marks@[q] && #[trigger] assignments@[q].lhs@ == assignments@[i as int].lhs@),
            decreases n - j,
        {
            if marks[j] && assignments[j].lhs.same_as(&assignments[i].lhs) {
                keep = true;
            }
            j += 1;
        }
        let ghost before = r@;
        if keep {
            let a = &assignments[i];
            r.push(Assignment { lhs: a.lhs.clone(), rhs: a.rhs.clone(), size: a.size });
            assert(assignments_view(r@) =~= assignments_view(before).push((a.lhs@, a.rhs@, a.size)));
        }
        i += 1;
    }
    r
}

/// Diversifies every source with its own draws, then drops unneeded assignments.
pub fn superoptimize_assignments(
    assignments: &Vec<Assignment>,
    draws: &Vec<Vec<u64>>,
    min_depth: usize,
    max_depth: usize,
) -> (r: Vec<Assignment>)
    requires
        min_depth <= max_depth < usize::MAX,
    ensures
        r@.len() <= assignments@.len(),
        exists|rw: Seq<Assignment>, marks: Seq<bool>|
            #![trigger needed_prefix(rw, marks, rw.len() as int)]
            diversified(assignments@, rw, min_depth, max_depth) && closed_marks(rw, marks)
                && assignments_view(r@) == needed_prefix(rw, marks, rw.len() as int),
{
    let map = gen_ssa_map(assignments);
    let mut rewritten: Vec<Assignment> = Vec::new();
    let mut i: usize = 0;
    while i < assignments.len()
        invariant
            i <= assignments@.len(),
            rewritten@.len() == i,
            min_depth <= max_depth < usize::MAX,
            forall|t: int| 0 <= t < i ==> diversified_at(assignments@, rewritten@, t, min_depth, max_depth),
        decreases assignments@.len() - i,
    {
        let a = &assignments[i];
        let rhs = if i < draws.len() {
            superoptimize_expression(a.rhs.clone(), &map, &draws[i], min_depth, max_depth)
        } else {
            a.rhs.clone()
        };
        assert(rhs@ == a.rhs@ || (a.rhs@.len() > 0 && !is_memory_root(a.rhs@.last())
            && within_some_limit(rhs@, min_depth, max_depth)));
        let ghost rv = rhs@;
        let ghost before = rewritten@;
        rewritten.push(Assignment { lhs: a.lhs.clone(), rhs, size: a.size });
        assert(rewritten@[i as int].rhs@ == rv);
        assert(assignments@[i as int] == *a);
        proof {
            assert forall|t: int| 0 <= t < i + 1 implies diversified_at(assignments@, rewritten@, t, min_depth, max_depth) by {
                if t < i {
                    assert(rewritten@[t] == before[t]);
                    assert(diversified_at(assignments@, before, t, min_depth, max_depth));
                } else {
                    assert(rewritten@[t].lhs@ == assignments@[t].lhs@);
                    assert(rewritten@[t].size == assignments@[t].size);
                }
            }
        }
        i += 1;
    }
    let r = eliminate_dead_code(&rewritten);
    proof {
        let marks = choose|marks: Seq<bool>|
            closed_marks(rewritten@, marks) && assignments_view(r@) == needed_prefix(
                rewritten@,
                marks,
                rewritten@.len() as int,
            );
        lemma_needed_prefix_len(rewritten@, marks, rewritten@.len() as int);
        assert(diversified(assignments@, rewritten@, min_depth, max_depth));
    }
    r
}

/// Assignment `t` kept its destination and width, and its source is unchanged or a
/// non-memory source diversified within the limits.
pub open spec fn diversified_at(a: Seq<Assignment>, rw: Seq<Assignment>, t: int, min_depth: usize, max_depth: usize) -> bool {
    &&& rw[t].lhs@ == a[t].lhs@
    &&& rw[t].size == a[t].size
    &&& (rw[t].rhs@ == a[t].rhs@ || (a[t].rhs@.len() > 0 && !is_memory_root(a[t].rhs@.last())
        && within_some_limit(rw[t].rhs@, min_depth, max_depth)))
}

/// Every assignment of `rw` is a diversified form of the one of `a` at its place.
pub open spec fn diversified(a: Seq<Assignment>, rw: Seq<Assignment>, min_depth: usize, max_depth: usize) -> bool {
    rw.len() == a.len() && forall|t: int| 0 <= t < a.len() ==> #[trigger] diversified_at(a, rw, t, min_depth, max_depth)
}

proof fn lemma_needed_prefix_len(v: Seq<Assignment>, marks: Seq<bool>, n: int)
    requires
        0 <= n <= v.len(),
    ensures
        needed_prefix(v, marks, n).len() <= n,
    decreases n,
{
    if n > 0 {
        lemma_needed_prefix_len(v, marks, n - 1);
    }
}

} // verus!
