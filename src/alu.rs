//! Handlers: the real semantics scheduled onto a handler, completed by decoys, gated by
//! keys and lowered for code emission.
use crate::assignment::Assignment;
use crate::expr::{well_formed, LinearizedExpr};
use crate::expression_utils::reg;
use crate::keys::ALUKeys;
use crate::scheduler::{
    block_exprs, deterministic_slot, schedulable, schedule_keys_deterministic, ALUSemanticsMap,
    ALUSemanticsMapEntry, Config, SchedulerMap, SemanticsBlock,
};
use crate::keys::MetaALUKeys;
use crate::semantics::{ALUPostProcessor, SemanticsBuilder};
use vstd::prelude::*;

verus! {

/// One handler: its number, its keys and its semantics as one assignment.
pub struct ALU {
    pub index: usize,
    pub keys: ALUKeys,
    pub assignment: Assignment,
    pub assignment_original: Assignment,
    /// The semantics of each slot, as gated into the handler.
    pub slots: Vec<LinearizedExpr>,
}

/// The handler-level configuration values the number of slots depends on.
pub open spec fn slot_config(c: Config) -> bool {
    1 <= c.min_semantics_per_alu < c.max_semantics_per_alu < usize::MAX
}

/// Slot `t` holds the semantics of the last scheduled entry for it.
pub open spec fn last_for_slot(alive: Seq<(usize, Seq<crate::expr::NodeView>)>, j: int) -> bool {
    forall|q: int| j < q < alive.len() ==> #[trigger] alive[q].0 != alive[j].0
}

/// Scheduled entries as (slot, semantics) pairs.
pub open spec fn entry_views(v: Seq<ALUSemanticsMapEntry>) -> Seq<(usize, Seq<crate::expr::NodeView>)> {
    v.map_values(|e: ALUSemanticsMapEntry| (e.key_index, e.expr@))
}

/// `alu` is handler `index` for the scheduled entries `alive`: its slots (more than the
/// minimum, at most the maximum) hold the lowered scheduled semantics where scheduled, its
/// keys gate the slots, and its source is the gated sum of the lowered slots.
pub open spec fn gated_handler(alu: ALU, index: usize, alive: Seq<(usize, Seq<crate::expr::NodeView>)>, c: Config) -> bool {
    &&& alu.index == index
    &&& alu.assignment.lhs@ == seq![crate::expr::node(crate::expr::OpView::Reg(seq!['r']), 64)]
    &&& exists|checks: Seq<Seq<crate::expr::NodeView>>|
        #![trigger crate::thwart::weighted_sum(checks, crate::thwart::views(alu.slots@), 0)]
        {
            let lowered = crate::thwart::views(alu.slots@);
            &&& c.min_semantics_per_alu < lowered.len() <= c.max_semantics_per_alu
            &&& checks.len() == lowered.len()
            &&& alu.keys.keys@.len() == lowered.len()
            &&& forall|i: int| 0 <= i < checks.len() ==> crate::thwart::key_check(alu.keys, i, #[trigger] checks[i])
            &&& forall|j: int|
                0 <= j < alive.len() && last_for_slot(alive, j) ==> lowered[(#[trigger] alive[j]).0 as int]
                    == crate::evaluator::evaluate(alive[j].1, crate::semantics::lower_builder())
            &&& alu.assignment.rhs@ == crate::thwart::weighted_sum(checks, lowered, 0)
        }
}

/// The largest slot among the first `i` entries, at least `m`.
pub open spec fn top_slot(alive: Seq<(usize, Seq<crate::expr::NodeView>)>, i: nat, m: usize) -> usize
    decreases i,
{
    if i == 0 {
        m
    } else {
        let t = top_slot(alive, (i - 1) as nat, m);
        if alive[i - 1].0 > t {
            alive[i - 1].0
        } else {
            t
        }
    }
}

/// The number of slots of a handler: above the largest scheduled slot and the minimum, up
/// to the maximum, as the draw picks.
pub open spec fn slot_count(alive: Seq<(usize, Seq<crate::expr::NodeView>)>, c: Config, draw: u64) -> usize {
    let m = top_slot(alive, alive.len(), c.min_semantics_per_alu);
    (m + 1 + (draw % ((c.max_semantics_per_alu - m) as u64)) as usize) as usize
}

impl ALU {
    /// The memory handler: keys 0, 1 and 2 select load, store and allocation.
    pub fn memory_dummy(keys: &mut ALUKeys) -> (r: Assignment)
        requires
            old(keys).wf(),
        ensures
            final(keys).keys@ == old(keys).keys@.push(0).push(1).push(2),
            r.lhs@ == seq![crate::expr::node(crate::expr::OpView::Reg(seq!['r']), 64)],
            r.rhs@ == seq![crate::expr::node(crate::expr::OpView::Nop, 64)],
            r.size == 64,
    {
        keys.push(0);
        keys.push(1);
        keys.push(2);
        proof {
            reveal_strlit("r");
        }
        let lhs = reg("r", 64);
        assert("r"@ =~= seq!['r']);
        assert(lhs@ =~= seq![crate::expr::node(crate::expr::OpView::Reg(seq!['r']), 64)]);
        Assignment::new(lhs, LinearizedExpr::no_op(64))
    }

    /// Number of slots: above the largest slot in use and the configured minimum, at most
    /// the configured maximum, as the draw picks.
    pub fn num_instructions(alive: &Vec<ALUSemanticsMapEntry>, config: &Config, draw: u64) -> (r: usize)
        requires
            slot_config(*config),
            forall|i: int| 0 <= i < alive@.len() ==> #[trigger] alive@[i].key_index < config.max_semantics_per_alu,
        ensures
            config.min_semantics_per_alu < r <= config.max_semantics_per_alu,
            forall|i: int| 0 <= i < alive@.len() ==> #[trigger] alive@[i].key_index < r,
            r == slot_count(entry_views(alive@), *config, draw),
    {
        let mut m = config.min_semantics_per_alu;
        let mut i: usize = 0;
        while i < alive.len()
            invariant
                i <= alive@.len(),
                config.min_semantics_per_alu <= m < config.max_semantics_per_alu,
                forall|j: int| 0 <= j < i ==> #[trigger] alive@[j].key_index <= m,
                slot_config(*config),
                forall|j: int| 0 <= j < alive@.len() ==> #[trigger] alive@[j].key_index < config.max_semantics_per_alu,
                m == top_slot(entry_views(alive@), i as nat, config.min_semantics_per_alu),
            decreases alive@.len() - i,
        {
            assert(entry_views(alive@)[i as int].0 == alive@[i as int].key_index);
            if alive[i].key_index > m {
                m = alive[i].key_index;
            }
            i += 1;
        }
        let span = (config.max_semantics_per_alu - m) as u64;
        m + 1 + (draw % span) as usize
    }

    /// The handler of `index` over the scheduled semantics `alive`: decoys in the other
    /// slots, every slot lowered, keys drawn, slots gated and summed, the sum lowered.
    pub fn thwart_smt(
        index: usize,
        alive: &Vec<ALUSemanticsMapEntry>,
        config: &Config,
        draws: &Vec<u64>,
        candidate_count: usize,
    ) -> (r: Option<ALU>)
        requires
            slot_config(*config),
            forall|i: int| 0 <= i < alive@.len() ==> #[trigger] alive@[i].key_index < config.max_semantics_per_alu,
            forall|i: int| 0 <= i < alive@.len() ==> well_formed(#[trigger] alive@[i].expr@),
        ensures
            r matches Some(a) ==> gated_handler(a, index, entry_views(alive@), *config),
            r is None <==> crate::thwart::gen_all_keys(
                draws@,
                slot_count(entry_views(alive@), *config, crate::semantics::spec_draw(draws@, 0, 0)) as nat,
            ) is None,
    {
        let n = ALU::num_instructions(alive, config, if draws.len() > 0 { draws[0] } else { 0 });
        assert((if draws@.len() > 0 { draws@[0] } else { 0 }) == crate::semantics::spec_draw(draws@, 0, 0));
        let mut instructions = SemanticsBuilder::gen_semantics(n, draws);
        let mut i: usize = 0;
        while i < alive.len()
            invariant
                i <= alive@.len(),
                instructions@.len() == n,
                forall|j: int| 0 <= j < alive@.len() ==> #[trigger] alive@[j].key_index < n,
                forall|j: int| 0 <= j < alive@.len() ==> well_formed(#[trigger] alive@[j].expr@),
                forall|j: int| 0 <= j < n ==> well_formed(#[trigger] instructions@[j]@),
                forall|j: int|
                    0 <= j < i && (forall|q: int| j < q < i ==> #[trigger] alive@[q].key_index != alive@[j].key_index)
                        ==> instructions@[(#[trigger] alive@[j]).key_index as int]@ == alive@[j].expr@,
            decreases alive@.len() - i,
        {
            let k = alive[i].key_index;
            assert(well_formed(alive@[i as int].expr@));
            let ghost before = instructions@;
            instructions.set(k, alive[i].expr.clone());
            proof {
                assert forall|j: int|
                    0 <= j < i + 1 && (forall|q: int| j < q < i + 1 ==> #[trigger] alive@[q].key_index != alive@[j].key_index)
                        implies instructions@[(#[trigger] alive@[j]).key_index as int]@ == alive@[j].expr@ by {
                    if j < i {
                        assert(alive@[i as int].key_index != alive@[j].key_index);
                        assert(forall|q: int| j < q < i ==> #[trigger] alive@[q].key_index != alive@[j].key_index);
                    }
                }
            }
            i += 1;
        }
        let mut lowered: Vec<LinearizedExpr> = Vec::new();
        let mut j: usize = 0;
        while j < n
            invariant
                j <= n,
                instructions@.len() == n,
                lowered@.len() == j,
                forall|t: int| 0 <= t < n ==> well_formed(#[trigger] instructions@[t]@),
                forall|t: int| 0 <= t < j ==> #[trigger] lowered@[t]@ == crate::evaluator::evaluate(
                    instructions@[t]@,
                    crate::semantics::lower_builder(),
                ),
            decreases n - j,
        {
            lowered.push(ALUPostProcessor::rewrite_expression(&instructions[j]));
            j += 1;
        }
        let mut keys = ALUKeys::new();
        let handler = match crate::thwart::thwart(&lowered, &mut keys, draws, candidate_count) {
            Some(h) => h,
            None => {
                return None;
            },
        };
        proof {
            reveal_strlit("r");
        }
        let lhs = reg("r", 64);
        assert("r"@ =~= seq!['r']);
        proof {
            let checks = choose|checks: Seq<Seq<crate::expr::NodeView>>|
                #![trigger crate::thwart::weighted_sum(checks, crate::thwart::views(lowered@), 0)]
                checks.len() == lowered@.len() && (forall|i: int|
                    0 <= i < checks.len() ==> crate::thwart::key_check(keys, i, #[trigger] checks[i]))
                    && handler@ == crate::thwart::weighted_sum(checks, crate::thwart::views(lowered@), 0);
            crate::thwart::lemma_weighted_sum_root(checks, crate::thwart::views(lowered@), 0);
        }
        if handler.len() == 0 || handler.size() != 64 {
            return None;
        }
        let assignment = Assignment::new(lhs, handler);
        let assignment_original = Assignment::new(assignment.lhs.clone(), assignment.rhs.clone());
        let a = ALU { index, keys, assignment, assignment_original, slots: lowered };
        proof {
            let lv = crate::thwart::views(a.slots@);
            let checks = choose|checks: Seq<Seq<crate::expr::NodeView>>|
                #![trigger crate::thwart::weighted_sum(checks, lv, 0)]
                checks.len() == lowered@.len() && (forall|i: int|
                    0 <= i < checks.len() ==> crate::thwart::key_check(a.keys, i, #[trigger] checks[i]))
                    && a.assignment.rhs@ == crate::thwart::weighted_sum(checks, lv, 0);
            let ev = entry_views(alive@);
            assert forall|jj: int|
                0 <= jj < ev.len() && last_for_slot(ev, jj) implies lv[(#[trigger] ev[jj]).0 as int]
                    == crate::evaluator::evaluate(ev[jj].1, crate::semantics::lower_builder()) by {
                assert(ev[jj] == (alive@[jj].key_index, alive@[jj].expr@));
                assert forall|q: int| jj < q < alive@.len() implies #[trigger] alive@[q].key_index != alive@[jj].key_index by {
                    assert(ev[q] == (alive@[q].key_index, alive@[q].expr@));
                    assert(ev[q].0 != ev[jj].0);
                }
                let t = alive@[jj].key_index as int;
                assert(lv[t] == a.slots@[t]@);
            }
            assert(gated_handler(a, index, ev, *config));
        }
        Some(a)
    }

    /// A handler is kept when its single-assignment form has more than ten
    /// instructions: one temporary per distinct sub-expression of its source, and the
    /// final copy to the destination.
    pub fn verify(&self) -> (r: bool)
        requires
            well_formed(self.assignment.rhs@),
        ensures
            r == (distinct_subtrees(self.assignment.rhs@).len() + 1 > 10),
    {
        let n = count_distinct_subtrees(&self.assignment.rhs);
        n >= 10
    }
}

/// The sub-expression rooted at each position of `s`, up to position `n`.
pub open spec fn subtrees(s: Seq<crate::expr::NodeView>, n: nat) -> Seq<Seq<crate::expr::NodeView>>
    decreases n,
{
    if n == 0 {
        Seq::empty()
    } else {
        subtrees(s, (n - 1) as nat).push(
            crate::evaluator::run_stack(s, n, crate::evaluator::tree_builder()).last(),
        )
    }
}

/// The distinct sub-expressions of `s`, in order of first appearance.
pub open spec fn distinct_subtrees(s: Seq<crate::expr::NodeView>) -> Seq<Seq<crate::expr::NodeView>> {
    crate::superoptimizer::dedup_seqs(subtrees(s, s.len()))
}

/// Number of distinct sub-expressions of `expr`.
fn count_distinct_subtrees(expr: &LinearizedExpr) -> (r: usize)
    requires
        well_formed(expr@),
    ensures
        r == distinct_subtrees(expr@).len(),
{
    let ghost step = crate::evaluator::tree_builder();
    let mut stack: Vec<LinearizedExpr> = Vec::new();
    let mut seen: Vec<LinearizedExpr> = Vec::new();
    let n = expr.0.len();
    let mut i: usize = 0;
    assert(crate::expr::exprs_view(stack@) =~= crate::evaluator::run_stack(expr@, 0, step));
    assert(crate::expr::exprs_view(seen@) =~= crate::superoptimizer::dedup_seqs(subtrees(expr@, 0)));
    while i < n
        invariant
            n == expr@.len(),
            i <= n,
            well_formed(expr@),
            step == crate::evaluator::tree_builder(),
            crate::expr::exprs_view(stack@) == crate::evaluator::run_stack(expr@, i as nat, step),
            crate::expr::exprs_view(seen@) == crate::superoptimizer::dedup_seqs(subtrees(expr@, i as nat)),
            seen@.len() <= i,
        decreases n - i,
    {
        proof {
            crate::evaluator::lemma_run_stack_len(expr@, i as nat, step);
            let ii = i as int;
            assert(crate::expr::height(expr@, ii as nat) >= crate::expr::op_arity(expr@[ii].op));
        }
        let e = &expr.0[i];
        assert(e@ == expr@[i as int]);
        let k = e.arity();
        let ghost st = crate::expr::exprs_view(stack@);
        let args = crate::evaluator::pop_args(&mut stack, k);
        let ghost base = crate::expr::exprs_view(stack@);
        let res = crate::evaluator::build_from_args(args, e.clone());
        let mut found = false;
        let mut j: usize = 0;
        while j < seen.len() && !found
            invariant
                j <= seen@.len(),
                !found ==> forall|q: int| 0 <= q < j ==> seen@[q]@ != res@,
                found ==> crate::expr::exprs_view(seen@).contains(res@),
            decreases seen@.len() - j,
        {
            if seen[j].same_as(&res) {
                found = true;
                assert(crate::expr::exprs_view(seen@)[j as int] == res@);
            }
            j += 1;
        }
        let ghost seen_before = seen@;
        let ghost r = res@;
        stack.push(res.clone());
        proof {
            assert(crate::expr::exprs_view(stack@) =~= base.push(r));
            let a = st.subrange(st.len() - crate::expr::op_arity(expr@[i as int].op), st.len() as int);
            assert(step(a, expr@[i as int]) == r);
            assert(crate::evaluator::run_stack(expr@, (i + 1) as nat, step).last() == r);
            assert(subtrees(expr@, (i + 1) as nat) == subtrees(expr@, i as nat).push(r));
            assert(subtrees(expr@, (i + 1) as nat).drop_last() =~= subtrees(expr@, i as nat));
            if !found {
                assert(!crate::expr::exprs_view(seen@).contains(r));
            }
        }
        if !found {
            seen.push(res);
            assert(crate::expr::exprs_view(seen@) =~= crate::expr::exprs_view(seen_before).push(r));
        }
        i += 1;
    }
    seen.len()
}

/// The entries scheduled on handler `h`, in scheduling order.
pub open spec fn alive_for(m: Seq<(usize, ALUSemanticsMapEntry)>, h: usize) -> Seq<(usize, Seq<crate::expr::NodeView>)>
    decreases m.len(),
{
    if m.len() == 0 {
        Seq::empty()
    } else if m.last().0 == h {
        alive_for(m.drop_last(), h).push((m.last().1.key_index, m.last().1.expr@))
    } else {
        alive_for(m.drop_last(), h)
    }
}

/// A handler that is gated as scheduled and passes the acceptance check: each slot's key,
/// substituted and simplified, selects exactly that slot's semantics, and the
/// single-assignment form is long enough.
pub open spec fn accepted(a: ALU, h: usize, alive: Seq<(usize, Seq<crate::expr::NodeView>)>, c: Config) -> bool {
    &&& gated_handler(a, h, alive, c)
    &&& well_formed(a.assignment.rhs@)
    &&& crate::thwart::selects_slots(a.assignment.rhs@, a.keys.keys@, crate::thwart::views(a.slots@))
    &&& distinct_subtrees(a.assignment.rhs@).len() + 1 > 10
}

/// Whether every expression is accepted by the simplifier.
fn all_good(v: &Vec<LinearizedExpr>) -> (r: bool)
    ensures
        r == forall|i: int| 0 <= i < v@.len() ==> crate::simplify::good(#[trigger] v@[i]@, false),
{
    let mut i: usize = 0;
    while i < v.len()
        invariant
            i <= v@.len(),
            forall|j: int| 0 <= j < i ==> crate::simplify::good(#[trigger] v@[j]@, false),
        decreases v@.len() - i,
    {
        if !crate::simplify::is_good(&v[i]) {
            return false;
        }
        i += 1;
    }
    true
}

/// Handler `g` was built and accepted: its keys and its source are those of an accepted
/// handler for `alive`.
pub open spec fn handler_built(
    keys: Map<usize, ALUKeys>,
    src: Seq<crate::expr::NodeView>,
    g: usize,
    alive: Seq<(usize, Seq<crate::expr::NodeView>)>,
    c: Config,
) -> bool {
    exists|a: ALU| #[trigger] accepted(a, g, alive, c) && keys[g] == a.keys && src == a.assignment.rhs@
}

/// Collects the entries scheduled on handler `h`.
fn entries_for(m: &ALUSemanticsMap, h: usize, config: &Config) -> (r: Vec<ALUSemanticsMapEntry>)
    requires
        forall|i: int|
            0 <= i < m.map@.len() && (#[trigger] m.map@[i]).0 == h ==> m.map@[i].1.key_index
                < config.max_semantics_per_alu && well_formed(m.map@[i].1.expr@),
    ensures
        entry_views(r@) == alive_for(m.map@, h),
        forall|i: int| 0 <= i < r@.len() ==> #[trigger] r@[i].key_index < config.max_semantics_per_alu,
        forall|i: int| 0 <= i < r@.len() ==> well_formed(#[trigger] r@[i].expr@),
{
    let mut r: Vec<ALUSemanticsMapEntry> = Vec::new();
    let mut i: usize = 0;
    while i < m.map.len()
        invariant
            i <= m.map@.len(),
            entry_views(r@) == alive_for(m.map@.subrange(0, i as int), h),
            forall|t: int| 0 <= t < r@.len() ==> #[trigger] r@[t].key_index < config.max_semantics_per_alu,
            forall|t: int| 0 <= t < r@.len() ==> well_formed(#[trigger] r@[t].expr@),
            forall|t: int|
                0 <= t < m.map@.len() && (#[trigger] m.map@[t]).0 == h ==> m.map@[t].1.key_index
                    < config.max_semantics_per_alu && well_formed(m.map@[t].1.expr@),
        decreases m.map@.len() - i,
    {
        proof {
            let t = m.map@.subrange(0, i + 1);
            assert(t.drop_last() =~= m.map@.subrange(0, i as int));
            assert(t.last() == m.map@[i as int]);
        }
        if m.map[i].0 == h {
            let ghost before = r@;
            let e = &m.map[i].1;
            r.push(ALUSemanticsMapEntry::new(e.key_index, e.expr.clone()));
            assert(entry_views(r@) =~= entry_views(before).push((e.key_index, e.expr@)));
        }
        i += 1;
    }
    assert(m.map@.subrange(0, m.map@.len() as int) =~= m.map@);
    r
}

/// The result of [`build_handlers`]: the deterministic schedule, the memory handler
/// as handler 1, and every other handler built and accepted for its scheduled entries.
pub open spec fn handlers_built(
    map: SchedulerMap,
    keys: MetaALUKeys,
    sems: Seq<(usize, LinearizedExpr)>,
    blocks: Seq<SemanticsBlock>,
    c: Config,
) -> bool {
    &&& map.map@.len() == blocks.len()
    &&& forall|i: int|
        0 <= i < blocks.len() ==> #[trigger] map.map@[i] == deterministic_slot(
            block_exprs(blocks),
            i,
            c,
        )
    &&& sems.len() == c.num_alus
    &&& keys.0@.contains_key(1)
    &&& keys.0@[1].keys@ == seq![0u64, 1, 2]
    &&& sems[0].0 == 1
    &&& sems[0].1@ == seq![crate::expr::node(crate::expr::OpView::Nop, 64)]
    &&& forall|h: int|
        2 <= h <= c.num_alus ==> #[trigger] sems[h - 1].0 == h && keys.0@.contains_key(h as usize)
            && handler_built(keys.0@, sems[h - 1].1@, h as usize, alive_sched(block_exprs(blocks), c, h as usize, blocks.len()), c)
}

/// The draws `draws` give a full set of keys to a handler over `alive`.
pub open spec fn attempt_keys(draws: Seq<u64>, alive: Seq<(usize, Seq<crate::expr::NodeView>)>, c: Config) -> bool {
    crate::thwart::gen_all_keys(draws, slot_count(alive, c, crate::semantics::spec_draw(draws, 0, 0)) as nat) is Some
}

/// Some attempt of `tries` gives a full set of keys to a handler over `alive`.
pub open spec fn some_attempt_keys(tries: Seq<Vec<u64>>, alive: Seq<(usize, Seq<crate::expr::NodeView>)>, c: Config) -> bool {
    exists|t: int| 0 <= t < tries.len() && #[trigger] attempt_keys(tries[t]@, alive, c)
}

/// Schedules the blocks, then builds every handler: handler 1 is the memory handler,
/// every other one comes from the first of its attempts (draw streams) that builds and
/// passes the acceptance check: every slot's key selects exactly that slot's semantics,
/// and the single-assignment form has more than ten instructions. `None` when some handler has no such attempt.
pub fn build_handlers(
    blocks: &Vec<SemanticsBlock>,
    config: &Config,
    attempts: &Vec<Vec<Vec<u64>>>,
    candidate_count: usize,
) -> (r: Option<(SchedulerMap, MetaALUKeys, Vec<(usize, LinearizedExpr)>)>)
    requires
        schedulable(block_exprs(blocks@), *config),
        slot_config(*config),
        config.num_alus >= 1,
        forall|i: int| 0 <= i < blocks@.len() ==> well_formed(#[trigger] blocks@[i].expr@),
    ensures
        r matches Some((map, keys, sems)) ==> handlers_built(map, keys, sems@, blocks@, *config),
        config.num_alus >= 2 && attempts@.len() <= config.num_alus ==> r is None,
        r is Some ==> forall|h: usize|
            2 <= h <= config.num_alus ==> #[trigger] some_attempt_keys(
                attempts@[h as int]@,
                alive_sched(block_exprs(blocks@), *config, h, blocks@.len()),
                *config,
            ),
{
    let (map, alus) = schedule_keys_deterministic(blocks, config);
    proof {
        let bs = block_exprs(blocks@);
        assert forall|i: int| 0 <= i < alus.map@.len() implies (#[trigger] alus.map@[i]).0
            == deterministic_slot(bs, i, *config).alu_index && alus.map@[i].1.key_index == deterministic_slot(
            bs,
            i,
            *config,
        ).key_index && alus.map@[i].1.expr@ == bs[i] by {
            assert(map.map@[i] == deterministic_slot(bs, i, *config));
        }
        assert forall|g: usize| #[trigger] alive_for(alus.map@, g) == alive_sched(bs, *config, g, blocks@.len()) by {
            lemma_alive_sched(alus.map@, bs, *config, g, blocks@.len());
            assert(alus.map@.subrange(0, alus.map@.len() as int) =~= alus.map@);
        }
        assert forall|i: int|
            0 <= i < alus.map@.len() && (#[trigger] alus.map@[i]).0 >= 2 implies alus.map@[i].1.key_index
                < config.max_semantics_per_alu && well_formed(alus.map@[i].1.expr@) by {
            assert(map.map@[i] == deterministic_slot(bs, i, *config));
            assert(bs[i] == blocks@[i].expr@);
            assert(well_formed(blocks@[i].expr@));
        }
    }
    let mut keys = MetaALUKeys::new();
    let mut sems: Vec<(usize, LinearizedExpr)> = Vec::new();
    let mut mk = ALUKeys::new();
    let dummy = ALU::memory_dummy(&mut mk);
    keys.insert(1, mk);
    sems.push((1, dummy.rhs));
    proof {
        assert(seq![0u64, 1, 2] =~= Seq::<u64>::empty().push(0).push(1).push(2));
    }
    let mut h: usize = 2;
    proof {
        let c = *config;
        assert(c.num_alus + 1 <= usize::MAX) by (nonlinear_arith)
            requires
                (c.num_alus + 1) * c.max_semantics_per_alu <= usize::MAX,
                c.max_semantics_per_alu > 0,
        ;
    }
    while h <= config.num_alus
        invariant
            2 <= h <= config.num_alus + 1,
            config.num_alus + 1 <= usize::MAX,
            sems@.len() == h - 1,
            h > 2 ==> h - 1 < attempts@.len(),
            forall|g: usize|
                2 <= g < h ==> #[trigger] some_attempt_keys(
                    attempts@[g as int]@,
                    alive_sched(block_exprs(blocks@), *config, g, blocks@.len()),
                    *config,
                ),
            keys.0@.contains_key(1),
            keys.0@[1].keys@ == seq![0u64, 1, 2],
            sems@[0].0 == 1,
            sems@[0].1@ == seq![crate::expr::node(crate::expr::OpView::Nop, 64)],
            slot_config(*config),
            alus.map@.len() == blocks@.len(),
            map.map@.len() == blocks@.len(),
            forall|i: int|
                0 <= i < blocks@.len() ==> #[trigger] map.map@[i] == deterministic_slot(
                    block_exprs(blocks@),
                    i,
                    *config,
                ),
            forall|g: usize| #[trigger] alive_for(alus.map@, g) == alive_sched(block_exprs(blocks@), *config, g, blocks@.len()),
            forall|i: int|
                0 <= i < alus.map@.len() && (#[trigger] alus.map@[i]).0 >= 2 ==> alus.map@[i].1.key_index
                    < config.max_semantics_per_alu && well_formed(alus.map@[i].1.expr@),
            forall|g: int|
                2 <= g < h ==> #[trigger] sems@[g - 1].0 == g && keys.0@.contains_key(g as usize)
                    && handler_built(keys.0@, sems@[g - 1].1@, g as usize, alive_for(alus.map@, g as usize), *config),
        decreases config.num_alus + 1 - h,
    {
        let alive = entries_for(&alus, h, config);
        if h >= attempts.len() {
            return None;
        }
        let mut chosen: Option<ALU> = None;
        let mut t: usize = 0;
        while t < attempts[h].len() && chosen.is_none()
            invariant
                slot_config(*config),
                h < attempts@.len(),
                forall|i: int| 0 <= i < alive@.len() ==> #[trigger] alive@[i].key_index < config.max_semantics_per_alu,
                forall|i: int| 0 <= i < alive@.len() ==> well_formed(#[trigger] alive@[i].expr@),
                chosen matches Some(a) ==> accepted(a, h, entry_views(alive@), *config),
                chosen is Some ==> some_attempt_keys(attempts@[h as int]@, entry_views(alive@), *config),
            decreases attempts@[h as int]@.len() - t,
        {
            if let Some(a) = ALU::thwart_smt(h, &alive, config, &attempts[h][t], candidate_count) {
                if crate::simplify::is_good(&a.assignment.rhs) && all_good(&a.slots) && a.slots.len()
                    <= a.keys.len() && a.verify() && crate::thwart::verify_handler(
                    &a.assignment.rhs,
                    &a.keys,
                    &a.slots,
                ) {
                    assert(crate::thwart::views(a.slots@) =~= a.slots@.map_values(|e: LinearizedExpr| e@));
                    assert(attempt_keys(attempts@[h as int]@[t as int]@, entry_views(alive@), *config));
                    chosen = Some(a);
                }
            }
            t += 1;
        }
        let a = match chosen {
            Some(a) => a,
            None => {
                return None;
            },
        };
        let ghost ga = a;
        let ghost before_sems = sems@;
        let ghost before_keys = keys.0@;
        let rhs = a.assignment.rhs;
        keys.insert(h, a.keys);
        sems.push((h, rhs));
        proof {
            assert forall|g: int|
                2 <= g < h + 1 implies #[trigger] sems@[g - 1].0 == g && keys.0@.contains_key(g as usize)
                    && handler_built(keys.0@, sems@[g - 1].1@, g as usize, alive_for(alus.map@, g as usize), *config) by {
                if g < h {
                    assert(sems@[g - 1] == before_sems[g - 1]);
                    assert(before_sems[g - 1].0 == g);
                    assert(before_keys.contains_key(g as usize));
                    assert(keys.0@[g as usize] == before_keys[g as usize]);
                    assert(handler_built(before_keys, before_sems[g - 1].1@, g as usize, alive_for(alus.map@, g as usize), *config));
                    let w = choose|a: ALU|
                        #[trigger] accepted(a, g as usize, alive_for(alus.map@, g as usize), *config)
                            && before_keys[g as usize] == a.keys && before_sems[g - 1].1@ == a.assignment.rhs@;
                    assert(accepted(w, g as usize, alive_for(alus.map@, g as usize), *config)
                        && keys.0@[g as usize] == w.keys && sems@[g - 1].1@ == w.assignment.rhs@);
                } else {
                    assert(accepted(ga, h, alive_for(alus.map@, h), *config));
                    assert(keys.0@[h] == ga.keys);
                    assert(sems@[h - 1].1@ == ga.assignment.rhs@);
                }
            }
        }
        h += 1;
    }
    proof {
        assert forall|g: int|
            2 <= g <= config.num_alus implies #[trigger] sems@[g - 1].0 == g && keys.0@.contains_key(g as usize)
                && handler_built(keys.0@, sems@[g - 1].1@, g as usize, alive_sched(block_exprs(blocks@), *config, g as usize, blocks@.len()), *config) by {
            assert(sems@[g - 1].0 == g);
            assert(alive_for(alus.map@, g as usize) == alive_sched(block_exprs(blocks@), *config, g as usize, blocks@.len()));
        }
        assert(sems@.len() == config.num_alus);
        assert(keys.0@.contains_key(1));
        assert(keys.0@[1].keys@ == seq![0u64, 1, 2]);
        assert(sems@[0].0 == 1);
        assert(map.map@.len() == blocks@.len());
        assert(sems@[0].1@ == seq![crate::expr::node(crate::expr::OpView::Nop, 64)]);
        assert(forall|i: int|
            0 <= i < blocks@.len() ==> #[trigger] map.map@[i] == deterministic_slot(block_exprs(blocks@), i, *config));
        assert(handlers_built(map, keys, sems@, blocks@, *config));
    }
    Some((map, keys, sems))
}

/// The entries deterministic scheduling puts on handler `h`, from the first `n` blocks.
pub open spec fn alive_sched(bs: Seq<Seq<crate::expr::NodeView>>, c: Config, h: usize, n: nat) -> Seq<
    (usize, Seq<crate::expr::NodeView>),
>
    decreases n,
{
    if n == 0 {
        Seq::empty()
    } else {
        let s = deterministic_slot(bs, n - 1, c);
        if s.alu_index == h {
            alive_sched(bs, c, h, (n - 1) as nat).push((s.key_index, bs[n - 1]))
        } else {
            alive_sched(bs, c, h, (n - 1) as nat)
        }
    }
}

proof fn lemma_alive_sched(m: Seq<(usize, ALUSemanticsMapEntry)>, bs: Seq<Seq<crate::expr::NodeView>>, c: Config, h: usize, n: nat)
    requires
        n <= m.len(),
        m.len() == bs.len(),
        forall|i: int|
            0 <= i < m.len() ==> (#[trigger] m[i]).0 == deterministic_slot(bs, i, c).alu_index
                && m[i].1.key_index == deterministic_slot(bs, i, c).key_index && m[i].1.expr@ == bs[i],
    ensures
        alive_for(m.subrange(0, n as int), h) == alive_sched(bs, c, h, n),
    decreases n,
{
    if n > 0 {
        lemma_alive_sched(m, bs, c, h, (n - 1) as nat);
        let t = m.subrange(0, n as int);
        assert(t.drop_last() =~= m.subrange(0, n - 1));
        assert(t.last() == m[n - 1]);
    }
}

} // verus!
