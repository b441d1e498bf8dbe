//! Assignment of semantics blocks to (handler, slot) pairs.
use crate::expr::{is_memory_root, LinearExprOp, LinearizedExpr, NodeView, OpView};
use itertools::Itertools;
use vstd::prelude::*;

verus! {

/// Parameters of one obfuscation run.
#[derive(Clone, Copy, Debug)]
pub struct Config {
    pub rewrite_mba: bool,
    pub superoptimization: bool,
    pub schedule_non_deterministic: bool,
    pub handler_duplication: bool,
    /// A repeated block reuses an earlier slot with probability
    /// `reuse_numerator / reuse_denominator` (when handler duplication is on).
    pub reuse_numerator: u64,
    pub reuse_denominator: u64,
    pub num_alus: usize,
    pub min_semantics_per_alu: usize,
    pub max_semantics_per_alu: usize,
    pub min_superhandler_depth: usize,
    pub max_superhandler_depth: usize,
    pub num_reserved_alu_handler: usize,
    pub verification_iterations: usize,
    pub num_instances: usize,
}

/// One slot: a handler and a position within it.
#[derive(Clone, Copy, Debug, Hash, PartialEq, Eq, Structural)]
pub struct SchedulerIndex {
    pub alu_index: usize,
    pub key_index: usize,
}

impl SchedulerIndex {
    pub fn new(alu_index: usize, key_index: usize) -> (r: SchedulerIndex)
        ensures
            r == (SchedulerIndex { alu_index, key_index }),
    {
        SchedulerIndex { alu_index, key_index }
    }
}

/// The slot of each block, by block number.
pub struct SchedulerMap {
    pub map: Vec<SchedulerIndex>,
}

/// A semantics placed in a slot of a handler.
pub struct ALUSemanticsMapEntry {
    pub key_index: usize,
    pub expr: LinearizedExpr,
}

impl ALUSemanticsMapEntry {
    pub fn new(key_index: usize, expr: LinearizedExpr) -> (r: ALUSemanticsMapEntry)
        ensures
            r.key_index == key_index,
            r.expr == expr,
    {
        ALUSemanticsMapEntry { key_index, expr }
    }
}

/// The semantics given to each handler, as (handler, entry) pairs in scheduling order.
pub struct ALUSemanticsMap {
    pub map: Vec<(usize, ALUSemanticsMapEntry)>,
}

/// One assignment's right-hand side after renaming, with the variables it reads and writes.
pub struct SemanticsBlock {
    pub output_variable: LinearizedExpr,
    pub input_variables: Vec<LinearizedExpr>,
    pub immediate: Option<u64>,
    pub expr: LinearizedExpr,
}

/// The handler reserved for memory operations.
pub const MEMORY_HANDLER: usize = 1;

/// Memory blocks go to fixed slots of the memory handler: load 0, store 1, allocation 2.
pub open spec fn memory_slot(op: OpView) -> SchedulerIndex {
    SchedulerIndex {
        alu_index: 1,
        key_index: if op is Load {
            0
        } else if op is Store {
            1
        } else {
            2
        },
    }
}

/// The `k`-th slot of the generic pool: handlers from the first non-reserved one on,
/// each with all its slots in order.
pub open spec fn pool_slot(k: nat, c: Config) -> SchedulerIndex {
    SchedulerIndex {
        alu_index: (c.num_reserved_alu_handler + k / (c.max_semantics_per_alu as nat)) as usize,
        key_index: (k % (c.max_semantics_per_alu as nat)) as usize,
    }
}

/// Number of slots in the generic pool.
pub open spec fn pool_capacity(c: Config) -> nat {
    ((c.num_alus - c.num_reserved_alu_handler + 1) * c.max_semantics_per_alu) as nat
}

/// A block that goes to the memory handler.
pub open spec fn is_memory_block(b: Seq<NodeView>) -> bool {
    is_memory_root(b.last())
}

/// Number of blocks among the first `i` that take a slot of the pool.
pub open spec fn pool_blocks_before(blocks: Seq<Seq<NodeView>>, i: int) -> nat
    decreases i,
{
    if i <= 0 {
        0
    } else if is_memory_block(blocks[i - 1]) {
        pool_blocks_before(blocks, i - 1)
    } else {
        pool_blocks_before(blocks, i - 1) + 1
    }
}

/// The slot that deterministic scheduling gives to block `i`.
pub open spec fn deterministic_slot(blocks: Seq<Seq<NodeView>>, i: int, c: Config) -> SchedulerIndex {
    if is_memory_block(blocks[i]) {
        memory_slot(blocks[i].last().op)
    } else {
        pool_slot(pool_blocks_before(blocks, i), c)
    }
}

/// A configuration whose pool can be enumerated.
pub open spec fn valid_config(c: Config) -> bool {
    &&& c.max_semantics_per_alu > 0
    &&& c.num_reserved_alu_handler <= c.num_alus
    &&& (c.num_alus + 1) * c.max_semantics_per_alu <= usize::MAX
}

/// Blocks that deterministic scheduling accepts: non-empty, no bare memory dereference
/// at the root, and no more pool blocks than pool slots.
pub open spec fn schedulable(blocks: Seq<Seq<NodeView>>, c: Config) -> bool {
    &&& valid_config(c)
    &&& forall|i: int| 0 <= i < blocks.len() ==> #[trigger] blocks[i].len() > 0
    &&& forall|i: int| 0 <= i < blocks.len() ==> !(#[trigger] blocks[i].last().op is Mem)
    &&& pool_blocks_before(blocks, blocks.len() as int) <= pool_capacity(c)
}

pub proof fn lemma_pool_blocks_monotone(blocks: Seq<Seq<NodeView>>, i: int, j: int)
    requires
        0 <= i <= j,
    ensures
        pool_blocks_before(blocks, i) <= pool_blocks_before(blocks, j),
        i < j && !is_memory_block(blocks[i]) ==> pool_blocks_before(blocks, i) < pool_blocks_before(
            blocks,
            j,
        ),
    decreases j - i,
{
    if i < j {
        lemma_pool_blocks_monotone(blocks, i, j - 1);
        if i == j - 1 {
        }
    }
}

/// Relies on itertools' `cartesian_product`: every pair of `lo..=hi` and `0..m`, with
/// the first component outermost.
#[verifier::external_body]
fn handler_slot_pairs(lo: usize, hi: usize, m: usize) -> (r: Vec<(usize, usize)>)
    requires
        lo <= hi,
        (hi - lo + 1) * m <= usize::MAX,
    ensures
        r@.len() == (hi - lo + 1) * m,
        forall|k: int|
            0 <= k < r@.len() ==> #[trigger] r@[k] == ((lo + k / (m as int)) as usize, (k % (m as int)) as usize),
{
    (lo..=hi).cartesian_product(0..m).collect()
}

/// The slot of a memory block.
pub fn get_memory_keys(expr: &LinearizedExpr) -> (r: SchedulerIndex)
    requires
        expr@.len() > 0,
        is_memory_root(expr@.last()),
        !(expr@.last().op is Mem),
    ensures
        r == memory_slot(expr@.last().op),
{
    match expr.op().op {
        LinearExprOp::Load => SchedulerIndex::new(1, 0),
        LinearExprOp::Store => SchedulerIndex::new(1, 1),
        _ => SchedulerIndex::new(1, 2),
    }
}

/// The views of the blocks' expressions.
pub open spec fn block_exprs(blocks: Seq<SemanticsBlock>) -> Seq<Seq<NodeView>> {
    blocks.map_values(|b: SemanticsBlock| b.expr@)
}

/// Gives the blocks the slots of the pool in order, memory blocks their fixed slots.
pub fn schedule_keys_deterministic(blocks: &Vec<SemanticsBlock>, config: &Config) -> (r: (
    SchedulerMap,
    ALUSemanticsMap,
))
    requires
        schedulable(block_exprs(blocks@), *config),
    ensures
        r.0.map@.len() == blocks@.len(),
        forall|i: int|
            0 <= i < blocks@.len() ==> #[trigger] r.0.map@[i] == deterministic_slot(
                block_exprs(blocks@),
                i,
                *config,
            ),
        r.1.map@.len() == blocks@.len(),
        forall|i: int|
            0 <= i < blocks@.len() ==> (#[trigger] r.1.map@[i]).0 == r.0.map@[i].alu_index
                && r.1.map@[i].1.key_index == r.0.map@[i].key_index && r.1.map@[i].1.expr@
                == blocks@[i].expr@,
{
    let ghost bs = block_exprs(blocks@);
    let mut scheduler_map = SchedulerMap { map: Vec::new() };
    let mut alu_map = ALUSemanticsMap { map: Vec::new() };
    let m = config.max_semantics_per_alu;
    proof {
        let c = *config;
        assert((c.num_alus - c.num_reserved_alu_handler + 1) * m <= (c.num_alus + 1) * m)
            by (nonlinear_arith)
            requires
                c.num_reserved_alu_handler <= c.num_alus,
        ;
    }
    let pairs = handler_slot_pairs(config.num_reserved_alu_handler, config.num_alus, m);
    let mut next: usize = 0;
    let mut i: usize = 0;
    while i < blocks.len()
        invariant
            bs == block_exprs(blocks@),
            schedulable(bs, *config),
            m == config.max_semantics_per_alu,
            i <= blocks@.len(),
            next as nat == pool_blocks_before(bs, i as int),
            pairs@.len() == pool_capacity(*config),
            forall|k: int|
                0 <= k < pairs@.len() ==> #[trigger] pairs@[k] == ((config.num_reserved_alu_handler + k
                    / (m as int)) as usize, (k % (m as int)) as usize),
            scheduler_map.map@.len() == i,
            alu_map.map@.len() == i,
            forall|j: int|
                0 <= j < i ==> #[trigger] scheduler_map.map@[j] == deterministic_slot(bs, j, *config),
            forall|j: int|
                0 <= j < i ==> (#[trigger] alu_map.map@[j]).0 == scheduler_map.map@[j].alu_index
                    && alu_map.map@[j].1.key_index == scheduler_map.map@[j].key_index
                    && alu_map.map@[j].1.expr@ == blocks@[j].expr@,
        decreases blocks@.len() - i,
    {
        let block = &blocks[i];
        assert(bs[i as int] == block.expr@);
        assert(bs[i as int].len() > 0);
        let index = if block.expr.is_memory_op() {
            assert(!(bs[i as int].last().op is Mem));
            get_memory_keys(&block.expr)
        } else {
            proof {
                lemma_pool_blocks_monotone(bs, i as int + 1, bs.len() as int);
                let c = *config;
                assert(next < pool_capacity(c));
                assert((c.num_alus - c.num_reserved_alu_handler + 1) * m <= (c.num_alus + 1) * m)
                    by (nonlinear_arith)
                    requires
                        c.num_reserved_alu_handler <= c.num_alus,
                ;
                assert(next / m <= c.num_alus - c.num_reserved_alu_handler) by (nonlinear_arith)
                    requires
                        next < (c.num_alus - c.num_reserved_alu_handler + 1) * m,
                        m > 0,
                ;
            }
            let (alu, key) = pairs[next];
            let s = SchedulerIndex::new(alu, key);
            next += 1;
            s
        };
        scheduler_map.map.push(index);
        alu_map.map.push((index.alu_index, ALUSemanticsMapEntry::new(index.key_index, block.expr.clone())));
        i += 1;
    }
    (scheduler_map, alu_map)
}

/// Deterministic scheduling never gives two pool blocks the same slot; in particular
/// identical blocks get pairwise distinct slots.
pub proof fn lemma_deterministic_slots_distinct(blocks: Seq<Seq<NodeView>>, c: Config, i: int, j: int)
    requires
        schedulable(blocks, c),
        0 <= i < j < blocks.len(),
        !is_memory_block(blocks[i]),
        !is_memory_block(blocks[j]),
    ensures
        deterministic_slot(blocks, i, c) != deterministic_slot(blocks, j, c),
{
    let a = pool_blocks_before(blocks, i);
    let b = pool_blocks_before(blocks, j);
    lemma_pool_blocks_monotone(blocks, i, j);
    lemma_pool_blocks_monotone(blocks, j + 1, blocks.len() as int);
    assert(b < pool_capacity(c));
    let m = c.max_semantics_per_alu as nat;
    let r = c.num_reserved_alu_handler as nat;
    assert(b / m <= (c.num_alus - c.num_reserved_alu_handler) as nat) by (nonlinear_arith)
        requires
            b < (c.num_alus - c.num_reserved_alu_handler + 1) * m,
            m > 0,
    ;
    assert(a / m <= b / m) by (nonlinear_arith)
        requires
            a < b,
            m > 0,
    ;
    if pool_slot(a, c) == pool_slot(b, c) {
        assert(a / m == b / m);
        assert(a % m == b % m);
        assert(a == b) by (nonlinear_arith)
            requires
                a / m == b / m,
                a % m == b % m,
                m > 0,
        ;
    }
}

/// A configuration for randomized scheduling.
pub open spec fn valid_random_config(c: Config) -> bool {
    &&& c.max_semantics_per_alu > 0
    &&& c.num_reserved_alu_handler < c.num_alus
    &&& c.reuse_denominator > 0
}

/// A slot of the generic pool that randomized scheduling may draw.
pub open spec fn in_random_pool(s: SchedulerIndex, c: Config) -> bool {
    &&& c.num_reserved_alu_handler <= s.alu_index < c.num_alus
    &&& s.key_index < c.max_semantics_per_alu
}

/// Whether a repeated block takes one of its earlier slots: always without handler
/// duplication, otherwise when the draw falls in the first `reuse_numerator` of
/// `reuse_denominator` residues.
pub fn reuse_scheduler_index(config: &Config, draw: u64) -> (r: bool)
    requires
        config.reuse_denominator > 0,
    ensures
        r == (!config.handler_duplication || draw % config.reuse_denominator < config.reuse_numerator),
{
    !config.handler_duplication || draw % config.reuse_denominator < config.reuse_numerator
}

/// The pool slot picked by two draws.
pub fn fresh_candidate(draw_alu: u64, draw_key: u64, config: &Config) -> (r: SchedulerIndex)
    requires
        valid_random_config(*config),
    ensures
        in_random_pool(r, *config),
        r.alu_index == config.num_reserved_alu_handler + (draw_alu % ((config.num_alus
            - config.num_reserved_alu_handler) as u64)) as usize,
        r.key_index == (draw_key % (config.max_semantics_per_alu as u64)) as usize,
{
    let span = (config.num_alus - config.num_reserved_alu_handler) as u64;
    let a = (draw_alu % span) as usize;
    let k = (draw_key % (config.max_semantics_per_alu as u64)) as usize;
    SchedulerIndex::new(config.num_reserved_alu_handler + a, k)
}

fn contains_index(v: &Vec<SchedulerIndex>, s: SchedulerIndex) -> (r: bool)
    ensures
        r == v@.contains(s),
{
    let mut i: usize = 0;
    while i < v.len()
        invariant
            i <= v@.len(),
            forall|j: int| 0 <= j < i ==> v@[j] != s,
        decreases v@.len() - i,
    {
        if v[i] == s {
            assert(v@[i as int] == s);
            return true;
        }
        i += 1;
    }
    false
}

/// The slot a randomized schedule may give block `i`: a slot of an earlier identical
/// block, the fixed slot of a memory block, or a pool slot that no earlier block has.
pub open spec fn random_slot_ok(
    blocks: Seq<Seq<NodeView>>,
    slots: Seq<SchedulerIndex>,
    i: int,
    c: Config,
) -> bool {
    ||| exists|j: int| 0 <= j < i && blocks[j] == blocks[i] && #[trigger] slots[j] == slots[i]
    ||| is_memory_block(blocks[i]) && slots[i] == memory_slot(blocks[i].last().op)
    ||| in_random_pool(slots[i], c) && forall|j: int| 0 <= j < i ==> #[trigger] slots[j] != slots[i]
}

/// `s` is the slot of an earlier block identical to block `i`.
pub open spec fn reusable(blocks: Seq<Seq<NodeView>>, slots: Seq<SchedulerIndex>, i: int, s: SchedulerIndex) -> bool {
    exists|u: int| 0 <= u < i && blocks[u] == blocks[i] && #[trigger] slots[u] == s
}

/// The pool slot a pair of draws names.
pub open spec fn candidate_slot(d1: u64, d2: u64, c: Config) -> SchedulerIndex {
    SchedulerIndex {
        alu_index: (c.num_reserved_alu_handler + (d1 % ((c.num_alus - c.num_reserved_alu_handler) as u64)) as usize) as usize,
        key_index: (d2 % (c.max_semantics_per_alu as u64)) as usize,
    }
}

/// Position of the first pair of draws from `p` on (in steps of two) naming a slot not
/// yet in `slots`; a position with fewer than two draws left when there is none.
pub open spec fn fresh_pos(slots: Seq<SchedulerIndex>, draws: Seq<u64>, p: int, c: Config) -> int
    decreases draws.len() - p,
{
    if p < 0 || p >= draws.len() || draws.len() - p < 2 {
        p
    } else if !slots.contains(candidate_slot(draws[p], draws[p + 1], c)) {
        p
    } else {
        fresh_pos(slots, draws, p + 2, c)
    }
}

/// The slots of the first `j` blocks whose semantics equal block `i`'s, in order.
pub open spec fn same_slots(bs: Seq<Seq<NodeView>>, slots: Seq<SchedulerIndex>, i: int, j: nat) -> Seq<SchedulerIndex>
    decreases j,
{
    if j == 0 {
        Seq::empty()
    } else if bs[j - 1] == bs[i] {
        same_slots(bs, slots, i, (j - 1) as nat).push(slots[j - 1])
    } else {
        same_slots(bs, slots, i, (j - 1) as nat)
    }
}

/// The slot of block `i` given the earlier slots, taking draws from `c` on: `Ok` with the
/// slot and the next draw, or `Err` with the position where the draws ran out.
pub open spec fn schedule_round(
    bs: Seq<Seq<NodeView>>,
    slots: Seq<SchedulerIndex>,
    i: int,
    draws: Seq<u64>,
    c: int,
    cfg: Config,
) -> Result<(SchedulerIndex, int), int> {
    let e = same_slots(bs, slots, i, i as nat);
    if e.len() > 0 && (c >= draws.len() || draws.len() - c < 2) {
        Err(c)
    } else if e.len() > 0 && (!cfg.handler_duplication || draws[c] % cfg.reuse_denominator
        < cfg.reuse_numerator) {
        Ok((e[(draws[c + 1] % (e.len() as u64)) as int], c + 2))
    } else {
        let c2 = if e.len() > 0 {
            c + 2
        } else {
            c
        };
        if is_memory_block(bs[i]) {
            Ok((memory_slot(bs[i].last().op), c2))
        } else {
            let p = fresh_pos(slots, draws, c2, cfg);
            if p >= draws.len() || draws.len() - p < 2 {
                Err(p)
            } else {
                Ok((candidate_slot(draws[p], draws[p + 1], cfg), p + 2))
            }
        }
    }
}

/// Randomized scheduling of the first `n` blocks as a function of the draws.
pub open spec fn nd_schedule(bs: Seq<Seq<NodeView>>, draws: Seq<u64>, cfg: Config, n: nat) -> Result<
    (Seq<SchedulerIndex>, int),
    int,
>
    decreases n,
{
    if n == 0 {
        Ok((Seq::empty(), 0))
    } else {
        match nd_schedule(bs, draws, cfg, (n - 1) as nat) {
            Err(e) => Err(e),
            Ok(prev) => match schedule_round(bs, prev.0, n - 1, draws, prev.1, cfg) {
                Err(e) => Err(e),
                Ok(x) => Ok((prev.0.push(x.0), x.1)),
            },
        }
    }
}

proof fn lemma_nd_err(bs: Seq<Seq<NodeView>>, draws: Seq<u64>, cfg: Config, i: nat, n: nat)
    requires
        i <= n,
        nd_schedule(bs, draws, cfg, i) is Err,
    ensures
        nd_schedule(bs, draws, cfg, n) == nd_schedule(bs, draws, cfg, i),
    decreases n - i,
{
    if i < n {
        lemma_nd_err(bs, draws, cfg, i, (n - 1) as nat);
    }
}

/// Randomized scheduling: a block identical to an earlier one may reuse one of its slots
/// (`reuse_scheduler_index`), any other block gets its memory slot or a fresh pool slot,
/// drawn again on collision. `draws` supplies the random numbers; when they run out
/// the result is `Err` with the position of the first draw that was missing.
pub fn schedule_keys_non_deterministic(
    blocks: &Vec<SemanticsBlock>,
    config: &Config,
    draws: &Vec<u64>,
) -> (r: Result<(SchedulerMap, ALUSemanticsMap), usize>)
    requires
        valid_random_config(*config),
        forall|i: int| 0 <= i < blocks@.len() ==> #[trigger] blocks@[i].expr@.len() > 0,
        forall|i: int| 0 <= i < blocks@.len() ==> !(#[trigger] blocks@[i].expr@.last().op is Mem),
    ensures
        r matches Err(c) ==> c <= draws@.len() && draws@.len() - c < 2,
        r is Err <==> nd_schedule(block_exprs(blocks@), draws@, *config, blocks@.len()) is Err,
        r matches Err(c) ==> nd_schedule(block_exprs(blocks@), draws@, *config, blocks@.len()) == Err::<
            (Seq<SchedulerIndex>, int),
            int,
        >(c as int),
        r matches Ok(p) ==> nd_schedule(block_exprs(blocks@), draws@, *config, blocks@.len()) == Ok::<
            (Seq<SchedulerIndex>, int),
            int,
        >((p.0.map@, nd_schedule(block_exprs(blocks@), draws@, *config, blocks@.len())->Ok_0.1)),
        r matches Ok(p) ==> {
            &&& p.0.map@.len() == blocks@.len()
            &&& p.1.map@.len() == blocks@.len()
            &&& forall|i: int|
                0 <= i < blocks@.len() ==> #[trigger] random_slot_ok(
                    block_exprs(blocks@),
                    p.0.map@,
                    i,
                    *config,
                )
            &&& forall|i: int|
                0 <= i < blocks@.len() ==> (#[trigger] p.1.map@[i]).0 == p.0.map@[i].alu_index
                    && p.1.map@[i].1.key_index == p.0.map@[i].key_index
                    && p.1.map@[i].1.expr@ == blocks@[i].expr@
        },
{
    let ghost bs = block_exprs(blocks@);
    let mut scheduler_map = SchedulerMap { map: Vec::new() };
    let mut alu_map = ALUSemanticsMap { map: Vec::new() };
    let mut cursor: usize = 0;
    let mut i: usize = 0;
    while i < blocks.len()
        invariant
            bs == block_exprs(blocks@),
            valid_random_config(*config),
            forall|t: int| 0 <= t < blocks@.len() ==> #[trigger] blocks@[t].expr@.len() > 0,
            forall|t: int| 0 <= t < blocks@.len() ==> !(#[trigger] blocks@[t].expr@.last().op is Mem),
            i <= blocks@.len(),
            cursor <= draws@.len(),
            scheduler_map.map@.len() == i,
            alu_map.map@.len() == i,
            forall|j: int| 0 <= j < i ==> #[trigger] random_slot_ok(bs, scheduler_map.map@, j, *config),
            nd_schedule(bs, draws@, *config, i as nat) == Ok::<(Seq<SchedulerIndex>, int), int>((scheduler_map.map@, cursor as int)),
            forall|j: int|
                0 <= j < i ==> (#[trigger] alu_map.map@[j]).0 == scheduler_map.map@[j].alu_index
                    && alu_map.map@[j].1.key_index == scheduler_map.map@[j].key_index
                    && alu_map.map@[j].1.expr@ == blocks@[j].expr@,
        decreases blocks@.len() - i,
    {
        let block = &blocks[i];
        assert(bs[i as int] == block.expr@);
        let ghost slots = scheduler_map.map@;
        // earlier slots of the same semantics
        let mut earlier: Vec<SchedulerIndex> = Vec::new();
        let mut j: usize = 0;
        while j < i
            invariant
                j <= i,
                i < blocks@.len(),
                slots == scheduler_map.map@,
                slots.len() == i,
                bs == block_exprs(blocks@),
                bs[i as int] == block.expr@,
                forall|t: int|
                    0 <= t < earlier@.len() ==> reusable(bs, slots, i as int, #[trigger] earlier@[t]),
                earlier@ == same_slots(bs, slots, i as int, j as nat),
            decreases i - j,
        {
            assert(bs[j as int] == blocks@[j as int].expr@);
            if blocks[j].expr.same_as(&block.expr) {
                let s = scheduler_map.map[j];
                earlier.push(s);
                proof {
                    let t = earlier@.len() - 1;
                    assert(slots[j as int] == earlier@[t]);
                    assert(bs[i as int] == blocks@[i as int].expr@);
                    assert(bs[j as int] == bs[i as int]);
                    assert(reusable(bs, slots, i as int, earlier@[t]));
                }
            }
            j += 1;
        }
        let mut chosen: Option<SchedulerIndex> = None;
        let ghost c_in = cursor as int;
        if earlier.len() > 0 {
            if cursor >= draws.len() || draws.len() - cursor < 2 {
                proof {
                    lemma_nd_err(bs, draws@, *config, (i + 1) as nat, blocks@.len());
                }
                return Err(cursor);
            }
            if reuse_scheduler_index(config, draws[cursor]) {
                let pick = (draws[cursor + 1] % (earlier.len() as u64)) as usize;
                chosen = Some(earlier[pick]);
                assert(reusable(bs, slots, i as int, earlier@[pick as int]));
            }
            cursor = cursor + 2;
        }
        let index = match chosen {
            Some(s) => s,
            None => {
                if block.expr.is_memory_op() {
                    get_memory_keys(&block.expr)
                } else {
                    let mut found: Option<SchedulerIndex> = None;
                    let ghost c2 = cursor as int;
                    while found.is_none()
                        invariant
                            valid_random_config(*config),
                            slots == scheduler_map.map@,
                            cursor <= draws@.len(),
                            c2 <= cursor,
                            i < blocks@.len(),
                            bs == block_exprs(blocks@),
                            nd_schedule(bs, draws@, *config, i as nat) == Ok::<(Seq<SchedulerIndex>, int), int>((slots, c_in)),
                            earlier@ == same_slots(bs, slots, i as int, i as nat),
                            c2 == (if earlier@.len() > 0 { c_in + 2 } else { c_in }),
                            earlier@.len() > 0 ==> c_in + 2 <= draws@.len() && !(!config.handler_duplication
                                || draws@[c_in] % config.reuse_denominator < config.reuse_numerator),
                            !is_memory_block(bs[i as int]),
                            found is None ==> fresh_pos(slots, draws@, cursor as int, *config) == fresh_pos(slots, draws@, c2, *config),
                            found matches Some(f) ==> in_random_pool(f, *config) && !slots.contains(f)
                                && fresh_pos(slots, draws@, c2, *config) == cursor - 2 && cursor >= 2
                                && f == candidate_slot(draws@[cursor - 2], draws@[cursor - 1], *config),
                        decreases draws@.len() - cursor,
                    {
                        if cursor >= draws.len() || draws.len() - cursor < 2 {
                            proof {
                                lemma_nd_err(bs, draws@, *config, (i + 1) as nat, blocks@.len());
                            }
                            return Err(cursor);
                        }
                        let cand = fresh_candidate(draws[cursor], draws[cursor + 1], config);
                        cursor = cursor + 2;
                        if !contains_index(&scheduler_map.map, cand) {
                            found = Some(cand);
                        }
                    }
                    let f = found.unwrap();
                    proof {
                        assert forall|u: int| 0 <= u < i implies #[trigger] slots[u] != f by {
                            if slots[u] == f {
                                assert(slots.contains(f));
                            }
                        }
                    }
                    f
                }
            },
        };
        scheduler_map.map.push(index);
        alu_map.map.push((index.alu_index, ALUSemanticsMapEntry::new(index.key_index, block.expr.clone())));
        proof {
            assert(schedule_round(bs, slots, i as int, draws@, c_in, *config) == Ok::<(SchedulerIndex, int), int>((index, cursor as int)));
            let ns = scheduler_map.map@;
            assert(ns == slots.push(index));
            assert forall|j: int| 0 <= j < i + 1 implies #[trigger] random_slot_ok(bs, ns, j, *config) by {
                if j < i {
                    assert(random_slot_ok(bs, slots, j, *config));
                    if exists|u: int| 0 <= u < j && bs[u] == bs[j] && #[trigger] slots[u] == slots[j] {
                        let u = choose|u: int| 0 <= u < j && bs[u] == bs[j] && #[trigger] slots[u] == slots[j];
                        assert(ns[u] == ns[j]);
                    } else if is_memory_block(bs[j]) && slots[j] == memory_slot(bs[j].last().op) {
                    } else {
                        assert forall|u: int| 0 <= u < j implies #[trigger] ns[u] != ns[j] by {
                            assert(ns[u] == slots[u]);
                        }
                    }
                } else {
                    if chosen is Some {
                        assert(reusable(bs, slots, i as int, index));
                        let u = choose|u: int|
                            0 <= u < i && bs[u] == bs[i as int] && #[trigger] slots[u] == index;
                        assert(ns[u] == ns[j]);
                    } else if block.expr@.len() > 0 && is_memory_root(block.expr@.last()) {
                    } else {
                        assert forall|u: int| 0 <= u < j implies #[trigger] ns[u] != ns[j] by {
                            assert(ns[u] == slots[u]);
                        }
                    }
                }
            }
        }
        i += 1;
    }
    Ok((scheduler_map, alu_map))
}

/// Scheduling in the mode the configuration selects.
pub fn schedule_keys(blocks: &Vec<SemanticsBlock>, config: &Config, draws: &Vec<u64>) -> (r: Option<(
    SchedulerMap,
    ALUSemanticsMap,
)>)
    requires
        config.schedule_non_deterministic ==> valid_random_config(*config),
        !config.schedule_non_deterministic ==> schedulable(block_exprs(blocks@), *config),
        forall|i: int| 0 <= i < blocks@.len() ==> #[trigger] blocks@[i].expr@.len() > 0,
        forall|i: int| 0 <= i < blocks@.len() ==> !(#[trigger] blocks@[i].expr@.last().op is Mem),
    ensures
        !config.schedule_non_deterministic ==> (r matches Some(p) && p.0.map@.len() == blocks@.len()
            && forall|i: int|
            0 <= i < blocks@.len() ==> #[trigger] p.0.map@[i] == deterministic_slot(
                block_exprs(blocks@),
                i,
                *config,
            )),
        config.schedule_non_deterministic ==> (r is None <==> nd_schedule(
            block_exprs(blocks@),
            draws@,
            *config,
            blocks@.len(),
        ) is Err),
        config.schedule_non_deterministic ==> (r matches Some(p) ==> p.0.map@.len() == blocks@.len()
            && forall|i: int|
            0 <= i < blocks@.len() ==> #[trigger] random_slot_ok(block_exprs(blocks@), p.0.map@, i, *config)),
{
    if config.schedule_non_deterministic {
        match schedule_keys_non_deterministic(blocks, config, draws) {
            Ok(p) => Some(p),
            Err(_) => None,
        }
    } else {
        Some(schedule_keys_deterministic(blocks, config))
    }
}

} // verus!
