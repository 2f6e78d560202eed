use vstd::prelude::*;

use crate::eir::{BasicBlock, BlockId, Function, Instruction, InstructionId, RegisterId};
use crate::types::TypeId;
use crate::loops::{detect_loops, loops_of, LoopInfo};
use crate::optimizer::{block_ids, has_effect, has_side_effects, reg_ids, same_but_instructions};

verus! {

// ---------------------------------------------------------------------------
// Loop-invariant instructions.
//
// The instructions of a loop's body are numbered in the order of the body's
// blocks, then in block order; a set of such numbers says which are invariant.

/// The register an entry defines, by number.
pub open spec fn def_of(e: (InstructionId, Instruction)) -> Option<u32> {
    match crate::eir::defined_reg(e.1) {
        Some(r) => Some(r.0),
        None => None,
    }
}

/// The instructions of the blocks that `body` lists, block after block.
pub open spec fn body_entries(blocks: Map<u32, BasicBlock>, body: Seq<u32>) -> Seq<(InstructionId, Instruction)>
    decreases body.len(),
{
    if body.len() == 0 {
        seq![]
    } else if blocks.contains_key(body.last()) {
        body_entries(blocks, body.drop_last()) + blocks[body.last()].instructions@
    } else {
        body_entries(blocks, body.drop_last())
    }
}

/// The parameters of a block, by number.
pub open spec fn param_ids(ps: Seq<(RegisterId, TypeId)>) -> Seq<u32> {
    ps.map_values(|p: (RegisterId, TypeId)| p.0.0)
}

/// The parameters of the blocks that `body` lists, block after block.
pub open spec fn body_params(blocks: Map<u32, BasicBlock>, body: Seq<u32>) -> Seq<u32>
    decreases body.len(),
{
    if body.len() == 0 {
        seq![]
    } else if blocks.contains_key(body.last()) {
        body_params(blocks, body.drop_last()) + param_ids(blocks[body.last()].parameters@)
    } else {
        body_params(blocks, body.drop_last())
    }
}

/// Whether register `r` keeps its value through the loop: no block of the
/// body takes it as a parameter, and every instruction of the body that
/// defines it is among the invariant ones, `m`.
pub open spec fn invariant_reg(es: Seq<(InstructionId, Instruction)>, ps: Seq<u32>, m: Set<int>, r: u32) -> bool {
    &&& !ps.contains(r)
    &&& forall|k: int| 0 <= k < es.len() && #[trigger] def_of(es[k]) == Some(r) ==> m.contains(k)
}

/// Whether the `k`-th instruction is invariant once those of `m` are: it has
/// no effect, and every register it reads keeps its value through the loop.
pub open spec fn invariant_rule(es: Seq<(InstructionId, Instruction)>, ps: Seq<u32>, m: Set<int>, k: int) -> bool {
    &&& !has_effect(es[k].1)
    &&& forall|x: u32| #[trigger] reg_ids(crate::eir::used_regs(es[k].1)).contains(x) ==> invariant_reg(es, ps, m, x)
}

/// Whether `m` holds every instruction that the rule makes invariant.
pub open spec fn invariants_closed(es: Seq<(InstructionId, Instruction)>, ps: Seq<u32>, m: Set<int>) -> bool {
    forall|k: int| 0 <= k < es.len() && #[trigger] invariant_rule(es, ps, m, k) ==> m.contains(k)
}

/// The invariant instructions: the least set closed under the rule.
pub open spec fn least_invariants(es: Seq<(InstructionId, Instruction)>, ps: Seq<u32>, m: Set<int>) -> bool {
    &&& invariants_closed(es, ps, m)
    &&& forall|m2: Set<int>| #[trigger] invariants_closed(es, ps, m2) ==> m.subset_of(m2)
}

/// Whether `found` lists the invariant instructions, each once, each after
/// every instruction of the body that defines a register it reads.
pub open spec fn invariant_order(es: Seq<(InstructionId, Instruction)>, ps: Seq<u32>, found: Seq<int>) -> bool {
    &&& found.no_duplicates()
    &&& least_invariants(es, ps, found.to_set())
    &&& forall|j: int| 0 <= j < found.len() ==> #[trigger] invariant_rule(es, ps, found.take(j).to_set(), found[j])
}

/// What the invariance rule needs of an instruction.
pub struct EntryFact {
    pub def: Option<u32>,
    pub effect: bool,
    pub uses: Vec<u32>,
}

/// Whether `f` holds what the rule needs of `e`.
pub open spec fn fact_of(f: EntryFact, e: (InstructionId, Instruction)) -> bool {
    &&& f.def == def_of(e)
    &&& f.effect == has_effect(e.1)
    &&& f.uses@ == reg_ids(crate::eir::used_regs(e.1))
}


/// The numbers of a list of registers.
fn register_numbers(rs: &Vec<RegisterId>) -> (r: Vec<u32>)
    ensures
        r@ == reg_ids(rs@),
{
    let mut r: Vec<u32> = Vec::new();
    let mut i: usize = 0;
    while i < rs.len()
        invariant
            i <= rs@.len(),
            r@ == reg_ids(rs@.take(i as int)),
        decreases rs@.len() - i,
    {
        proof {
            assert(reg_ids(rs@.take(i + 1)) =~= reg_ids(rs@.take(i as int)).push(rs@[i as int].0));
        }
        r.push(rs[i].0);
        i = i + 1;
    }
    proof {
        assert(rs@.take(rs@.len() as int) =~= rs@);
    }
    r
}

/// What the invariance rule needs of each instruction of the blocks `body`
/// lists, and the parameters of those blocks.
fn body_facts(func: &Function, body: &Vec<BlockId>) -> (r: (Vec<EntryFact>, Vec<u32>))
    ensures
        r.0@.len() == body_entries(func.blocks@, block_ids(body@)).len(),
        forall|k: int| 0 <= k < r.0@.len() ==> fact_of(#[trigger] r.0@[k], body_entries(func.blocks@, block_ids(body@))[k]),
        r.1@ == body_params(func.blocks@, block_ids(body@)),
{
    let ghost bl = func.blocks@;
    let ghost b = block_ids(body@);
    let mut facts: Vec<EntryFact> = Vec::new();
    let mut params: Vec<u32> = Vec::new();
    let mut i: usize = 0;
    while i < body.len()
        invariant
            bl == func.blocks@,
            b == block_ids(body@),
            i <= body@.len(),
            facts@.len() == body_entries(bl, b.take(i as int)).len(),
            forall|k: int| 0 <= k < facts@.len() ==> fact_of(#[trigger] facts@[k], body_entries(bl, b.take(i as int))[k]),
            params@ == body_params(bl, b.take(i as int)),
        decreases body@.len() - i,
    {
        let x = body[i];
        proof {
            assert(b[i as int] == x.0);
            assert(b.take(i + 1).drop_last() =~= b.take(i as int));
            assert(b.take(i + 1).last() == x.0);
        }
        let ghost e0 = body_entries(bl, b.take(i as int));
        match func.blocks.get(&x) {
            Some(blk) => {
                let ghost ins = blk.instructions@;
                let mut q: usize = 0;
                while q < blk.instructions.len()
                    invariant
                        ins == blk.instructions@,
                        q <= ins.len(),
                        facts@.len() == e0.len() + q,
                        forall|k: int| 0 <= k < facts@.len() ==> fact_of(#[trigger] facts@[k], (e0 + ins)[k]),
                    decreases ins.len() - q,
                {
                    let ins_q = &blk.instructions[q].1;
                    let d = match ins_q.defined_register() {
                        Some(r) => Some(r.0),
                        None => None,
                    };
                    let effect = has_side_effects(ins_q);
                    let used = ins_q.used_registers();
                    let uses = register_numbers(&used);
                    let ghost before = facts@;
                    facts.push(EntryFact { def: d, effect, uses });
                    proof {
                        assert forall|k: int| 0 <= k < facts@.len() implies fact_of(#[trigger] facts@[k], (e0 + ins)[k]) by {
                            if k < before.len() {
                                assert(facts@[k] == before[k]);
                            } else {
                                assert((e0 + ins)[k] == ins[q as int]);
                            }
                        }
                    }
                    q = q + 1;
                }
                let ghost pseq = blk.parameters@;
                let mut q2: usize = 0;
                let ghost p0 = params@;
                while q2 < blk.parameters.len()
                    invariant
                        pseq == blk.parameters@,
                        q2 <= pseq.len(),
                        params@ == p0 + param_ids(pseq.take(q2 as int)),
                    decreases pseq.len() - q2,
                {
                    proof {
                        assert(param_ids(pseq.take(q2 + 1)) =~= param_ids(pseq.take(q2 as int)).push(pseq[q2 as int].0.0));
                    }
                    params.push(blk.parameters[q2].0.0);
                    q2 = q2 + 1;
                }
                proof {
                    assert(pseq.take(pseq.len() as int) =~= pseq);
                    assert(body_entries(bl, b.take(i + 1)) == e0 + ins);
                    assert(body_params(bl, b.take(i + 1)) == p0 + param_ids(pseq));
                }
            },
            None => {
                proof {
                    assert(body_entries(bl, b.take(i + 1)) == e0);
                    assert(body_params(bl, b.take(i + 1)) == params@);
                }
            },
        }
        i = i + 1;
    }
    proof {
        assert(b.take(body@.len() as int) =~= b);
    }
    (facts, params)
}

/// Whether the register `x` keeps its value through the loop once the
/// instructions `mark` marks are invariant.
fn register_invariant(facts: &Vec<EntryFact>, params: &Vec<u32>, mark: &Vec<bool>, x: u32, Ghost(es): Ghost<Seq<(InstructionId, Instruction)>>, Ghost(m): Ghost<Set<int>>) -> (r: bool)
    requires
        facts@.len() == es.len(),
        mark@.len() == es.len(),
        forall|k: int| 0 <= k < es.len() ==> fact_of(#[trigger] facts@[k], es[k]),
        forall|k: int| 0 <= k < es.len() ==> (#[trigger] mark@[k] <==> m.contains(k)),
    ensures
        r == invariant_reg(es, params@, m, x),
{
    let mut i: usize = 0;
    while i < params.len()
        invariant
            i <= params@.len(),
            forall|j: int| 0 <= j < i ==> params@[j] != x,
        decreases params@.len() - i,
    {
        if params[i] == x {
            proof {
                assert(params@.contains(x)) by {
                    assert(params@[i as int] == x);
                }
            }
            return false;
        }
        i = i + 1;
    }
    let mut k: usize = 0;
    while k < facts.len()
        invariant
            facts@.len() == es.len(),
            mark@.len() == es.len(),
            forall|k2: int| 0 <= k2 < es.len() ==> fact_of(#[trigger] facts@[k2], es[k2]),
            forall|k2: int| 0 <= k2 < es.len() ==> (#[trigger] mark@[k2] <==> m.contains(k2)),
            !params@.contains(x),
            k <= es.len(),
            forall|k2: int| 0 <= k2 < k && #[trigger] def_of(es[k2]) == Some(x) ==> m.contains(k2),
        decreases es.len() - k,
    {
        proof {
            assert(fact_of(facts@[k as int], es[k as int]));
        }
        if facts[k].def == Some(x) && !mark[k] {
            return false;
        }
        k = k + 1;
    }
    true
}

/// Whether the rule makes the `k`-th instruction invariant once those that
/// `mark` marks are.
fn rule_holds(facts: &Vec<EntryFact>, params: &Vec<u32>, mark: &Vec<bool>, k: usize, Ghost(es): Ghost<Seq<(InstructionId, Instruction)>>, Ghost(m): Ghost<Set<int>>) -> (r: bool)
    requires
        facts@.len() == es.len(),
        mark@.len() == es.len(),
        k < es.len(),
        forall|k2: int| 0 <= k2 < es.len() ==> fact_of(#[trigger] facts@[k2], es[k2]),
        forall|k2: int| 0 <= k2 < es.len() ==> (#[trigger] mark@[k2] <==> m.contains(k2)),
    ensures
        r == invariant_rule(es, params@, m, k as int),
{
    proof {
        assert(fact_of(facts@[k as int], es[k as int]));
    }
    if facts[k].effect {
        return false;
    }
    let uses = &facts[k].uses;
    let mut i: usize = 0;
    while i < uses.len()
        invariant
            facts@.len() == es.len(),
            mark@.len() == es.len(),
            k < es.len(),
            forall|k2: int| 0 <= k2 < es.len() ==> fact_of(#[trigger] facts@[k2], es[k2]),
            forall|k2: int| 0 <= k2 < es.len() ==> (#[trigger] mark@[k2] <==> m.contains(k2)),
            uses@ == reg_ids(crate::eir::used_regs(es[k as int].1)),
            i <= uses@.len(),
            forall|j: int| 0 <= j < i ==> invariant_reg(es, params@, m, #[trigger] uses@[j]),
        decreases uses@.len() - i,
    {
        if !register_invariant(facts, params, mark, uses[i], Ghost(es), Ghost(m)) {
            proof {
                assert(uses@.contains(uses@[i as int]));
            }
            return false;
        }
        i = i + 1;
    }
    proof {
        assert forall|x: u32| #[trigger] reg_ids(crate::eir::used_regs(es[k as int].1)).contains(x) implies invariant_reg(es, params@, m, x) by {
            let j = choose|j: int| 0 <= j < uses@.len() && uses@[j] == x;
            assert(invariant_reg(es, params@, m, uses@[j]));
        }
    }
    true
}

/// The rule gives more with more invariant instructions.
proof fn lemma_rule_monotone(es: Seq<(InstructionId, Instruction)>, ps: Seq<u32>, m: Set<int>, m2: Set<int>, k: int)
    requires
        invariant_rule(es, ps, m, k),
        m.subset_of(m2),
    ensures
        invariant_rule(es, ps, m2, k),
{
    assert forall|x: u32| #[trigger] reg_ids(crate::eir::used_regs(es[k].1)).contains(x) implies invariant_reg(es, ps, m2, x) by {
        assert(invariant_reg(es, ps, m, x));
    }
}

/// The numbers of `v`, as integers.
pub open spec fn ints(v: Seq<usize>) -> Seq<int> {
    v.map_values(|u: usize| u as int)
}

/// The invariant instructions, in the order found: each round takes, in
/// order, those the rule makes invariant, until a round takes none.
fn invariant_entries(facts: &Vec<EntryFact>, params: &Vec<u32>, Ghost(es): Ghost<Seq<(InstructionId, Instruction)>>) -> (found: Vec<usize>)
    requires
        facts@.len() == es.len(),
        forall|k: int| 0 <= k < es.len() ==> fact_of(#[trigger] facts@[k], es[k]),
    ensures
        invariant_order(es, params@, ints(found@)),
{
    let n = facts.len();
    let mut mark: Vec<bool> = Vec::new();
    let mut i: usize = 0;
    while i < n
        invariant
            i <= n,
            mark@.len() == i,
            forall|k: int| 0 <= k < i ==> !(#[trigger] mark@[k]),
        decreases n - i,
    {
        mark.push(false);
        i = i + 1;
    }
    let mut found: Vec<usize> = Vec::new();
    let mut done = false;
    proof {
        assert(ints(found@) =~= Seq::<int>::empty());
        assert forall|m2: Set<int>| #[trigger] invariants_closed(es, params@, m2) implies ints(found@).to_set().subset_of(m2) by {}
    }
    while !done
        invariant
            n == es.len(),
            facts@.len() == es.len(),
            forall|k: int| 0 <= k < es.len() ==> fact_of(#[trigger] facts@[k], es[k]),
            mark@.len() == n,
            forall|k: int| 0 <= k < n ==> (#[trigger] mark@[k] <==> ints(found@).contains(k)),
            forall|j: int| 0 <= j < found@.len() ==> #[trigger] found@[j] < n,
            ints(found@).no_duplicates(),
            forall|j: int| 0 <= j < found@.len() ==>
                #[trigger] invariant_rule(es, params@, ints(found@).take(j).to_set(), ints(found@)[j]),
            forall|m2: Set<int>| #[trigger] invariants_closed(es, params@, m2) ==> ints(found@).to_set().subset_of(m2),
            done ==> invariants_closed(es, params@, ints(found@).to_set()),
        decreases (if done { 0 } else { n - found@.len() + 1 }),
    {
        proof {
            assert(ints(found@).to_set().subset_of(vstd::set_lib::set_int_range(0, n as int)));
            vstd::set_lib::lemma_int_range(0, n as int);
            vstd::set_lib::lemma_len_subset(ints(found@).to_set(), vstd::set_lib::set_int_range(0, n as int));
            ints(found@).unique_seq_to_set();
        }
        let ghost start = ints(found@);
        let mut changed = false;
        let mut k: usize = 0;
        while k < n
            invariant
                n == es.len(),
                facts@.len() == es.len(),
                forall|k2: int| 0 <= k2 < es.len() ==> fact_of(#[trigger] facts@[k2], es[k2]),
                mark@.len() == n,
                forall|k2: int| 0 <= k2 < n ==> (#[trigger] mark@[k2] <==> ints(found@).contains(k2)),
                forall|j: int| 0 <= j < found@.len() ==> #[trigger] found@[j] < n,
                ints(found@).no_duplicates(),
                forall|j: int| 0 <= j < found@.len() ==>
                    #[trigger] invariant_rule(es, params@, ints(found@).take(j).to_set(), ints(found@)[j]),
                forall|m2: Set<int>| #[trigger] invariants_closed(es, params@, m2) ==> ints(found@).to_set().subset_of(m2),
                k <= n,
                found@.len() >= start.len(),
                changed ==> found@.len() > start.len(),
                !changed ==> ints(found@) == start,
                !changed ==> forall|k2: int| 0 <= k2 < k ==>
                    (#[trigger] mark@[k2] || !invariant_rule(es, params@, ints(found@).to_set(), k2)),
            decreases n - k,
        {
            let ghost fset = ints(found@).to_set();
            let holds = !mark[k] && rule_holds(facts, params, &mark, k, Ghost(es), Ghost(fset));
            if holds {
                let ghost f0 = ints(found@);
                found.push(k);
                mark.set(k, true);
                changed = true;
                proof {
                    assert(ints(found@) =~= f0.push(k as int));
                    assert(ints(found@).take(f0.len() as int) =~= f0);
                    assert forall|j: int| 0 <= j < found@.len() implies
                        #[trigger] invariant_rule(es, params@, ints(found@).take(j).to_set(), ints(found@)[j]) by {
                        if j < f0.len() {
                            assert(ints(found@).take(j) =~= f0.take(j));
                        }
                    }
                    assert forall|k2: int| 0 <= k2 < n implies (#[trigger] mark@[k2] <==> ints(found@).contains(k2)) by {
                        if k2 == k {
                            assert(ints(found@)[f0.len() as int] == k2);
                        } else {
                            if ints(found@).contains(k2) {
                                let j = choose|j: int| 0 <= j < ints(found@).len() && ints(found@)[j] == k2;
                                assert(j < f0.len());
                                assert(f0[j] == k2);
                            }
                            if f0.contains(k2) {
                                let j = choose|j: int| 0 <= j < f0.len() && f0[j] == k2;
                                assert(ints(found@)[j] == k2);
                            }
                        }
                    }
                    assert(!f0.contains(k as int));
                    assert forall|a: int, c: int| 0 <= a < c < ints(found@).len() implies ints(found@)[a] != ints(found@)[c] by {
                        if c == f0.len() {
                            assert(f0.contains(ints(found@)[a]));
                        }
                    }
                    assert forall|m2: Set<int>| #[trigger] invariants_closed(es, params@, m2) implies ints(found@).to_set().subset_of(m2) by {
                        assert(f0.to_set().subset_of(m2));
                        lemma_rule_monotone(es, params@, f0.to_set(), m2, k as int);
                        assert forall|y: int| ints(found@).to_set().contains(y) implies m2.contains(y) by {
                            if y != k {
                                let j = choose|j: int| 0 <= j < ints(found@).len() && ints(found@)[j] == y;
                                assert(f0[j] == y);
                                assert(f0.to_set().contains(y));
                            }
                        }
                    }
                    assert(found@[f0.len() as int] < n);
                }
            }
            k = k + 1;
        }
        proof {
            assert(ints(found@).to_set().subset_of(vstd::set_lib::set_int_range(0, n as int)));
            vstd::set_lib::lemma_int_range(0, n as int);
            vstd::set_lib::lemma_len_subset(ints(found@).to_set(), vstd::set_lib::set_int_range(0, n as int));
            ints(found@).unique_seq_to_set();
        }
        if !changed {
            done = true;
            proof {
                assert forall|k2: int| 0 <= k2 < es.len() && #[trigger] invariant_rule(es, params@, ints(found@).to_set(), k2)
                    implies ints(found@).to_set().contains(k2) by {
                    assert(mark@[k2]);
                }
            }
        }
    }
    found
}


/// The invariant instructions of the loop, by their place among the
/// instructions of its body, in the order found, as `invariant_order` says.
pub fn identify_loop_invariants(func: &Function, loop_info: &LoopInfo) -> (r: Vec<usize>)
    ensures
        invariant_order(body_entries(func.blocks@, block_ids(loop_info.body@)), body_params(func.blocks@, block_ids(loop_info.body@)), ints(r@)),
{
    let (facts, params) = body_facts(func, &loop_info.body);
    invariant_entries(&facts, &params, Ghost(body_entries(func.blocks@, block_ids(loop_info.body@))))
}


/// The instructions of `s` whose places, counted from `off`, `moved` lacks.
pub open spec fn kept_entries(s: Seq<(InstructionId, Instruction)>, moved: Set<int>, off: int) -> Seq<(InstructionId, Instruction)>
    decreases s.len(),
{
    if s.len() == 0 {
        seq![]
    } else if moved.contains(off + s.len() - 1) {
        kept_entries(s.drop_last(), moved, off)
    } else {
        kept_entries(s.drop_last(), moved, off).push(s.last())
    }
}

/// Where the instructions of the `b`-th block of `body` start among those of
/// the body.
pub open spec fn block_offset(blocks: Map<u32, BasicBlock>, body: Seq<u32>, b: int) -> int {
    body_entries(blocks, body.take(b)).len() as int
}

/// The instructions at the places `found` lists, in that order.
pub open spec fn picked(es: Seq<(InstructionId, Instruction)>, found: Seq<int>) -> Seq<(InstructionId, Instruction)> {
    found.map_values(|k: int| es[k])
}

/// `nb` is `ob` with the instructions at the places `found` lists taken out
/// of the blocks of `body` and put, in that order, at the end of `pre`.
pub open spec fn hoisted(nb: Map<u32, BasicBlock>, ob: Map<u32, BasicBlock>, body: Seq<u32>, pre: u32, found: Seq<int>) -> bool {
    &&& nb.dom() == ob.dom()
    &&& nb[pre].instructions@ == ob[pre].instructions@ + picked(body_entries(ob, body), found)
    &&& same_but_instructions(nb[pre], ob[pre])
    &&& forall|b: int| 0 <= b < body.len() && #[trigger] ob.contains_key(body[b]) ==> {
        &&& nb[body[b]].instructions@ == kept_entries(ob[body[b]].instructions@, found.to_set(), block_offset(ob, body, b))
        &&& same_but_instructions(nb[body[b]], ob[body[b]])
    }
    &&& forall|k: u32| #[trigger] ob.contains_key(k) && k != pre && !body.contains(k) ==> nb[k] == ob[k]
}


/// The instructions of the first `b` blocks come first among those of the body.
proof fn lemma_body_prefix(bl: Map<u32, BasicBlock>, body: Seq<u32>, b: int)
    requires
        0 <= b <= body.len(),
    ensures
        body_entries(bl, body.take(b)).len() <= body_entries(bl, body).len(),
        body_entries(bl, body).take(body_entries(bl, body.take(b)).len() as int) == body_entries(bl, body.take(b)),
    decreases body.len() - b,
{
    if b < body.len() {
        lemma_body_prefix(bl, body, b + 1);
        assert(body.take(b + 1).drop_last() =~= body.take(b));
        let e = body_entries(bl, body);
        let p1 = body_entries(bl, body.take(b + 1));
        let p0 = body_entries(bl, body.take(b));
        assert(p1.take(p0.len() as int) =~= p0);
        assert(e.take(p0.len() as int) =~= p1.take(p0.len() as int));
    } else {
        assert(body.take(b) =~= body);
        assert(body_entries(bl, body).take(body_entries(bl, body).len() as int) =~= body_entries(bl, body));
    }
}

/// Whether `pos` is among `found`.
fn contains_place(found: &Vec<usize>, pos: usize) -> (r: bool)
    ensures
        r == ints(found@).to_set().contains(pos as int),
{
    let mut j: usize = 0;
    while j < found.len()
        invariant
            j <= found@.len(),
            forall|j2: int| 0 <= j2 < j ==> found@[j2] != pos,
        decreases found@.len() - j,
    {
        if found[j] == pos {
            proof {
                assert(ints(found@)[j as int] == pos as int);
            }
            return true;
        }
        j = j + 1;
    }
    proof {
        if ints(found@).contains(pos as int) {
            let j2 = choose|j2: int| 0 <= j2 < ints(found@).len() && ints(found@)[j2] == pos as int;
            assert(found@[j2] == pos);
        }
    }
    false
}

/// Takes the instructions at the places `found` lists out of the blocks of
/// the loop's body and puts them, in that order, at the end of its
/// preheader, as `hoisted` says; nothing changes where the loop has no
/// preheader or the preheader is no block.
pub fn move_invariants_to_preheader(func: &mut Function, loop_info: &LoopInfo, found: &Vec<usize>)
    requires
        block_ids(loop_info.body@).no_duplicates(),
        ints(found@).no_duplicates(),
        forall|j: int| 0 <= j < found@.len() ==> (#[trigger] found@[j] as int) < body_entries(old(func).blocks@, block_ids(loop_info.body@)).len(),
        loop_info.preheader matches Some(p) ==> !block_ids(loop_info.body@).contains(p.0),
    ensures
        crate::optimizer::same_header(*final(func), *old(func)),
        match loop_info.preheader {
            Some(p) => if old(func).blocks@.contains_key(p.0) {
                hoisted(final(func).blocks@, old(func).blocks@, block_ids(loop_info.body@), p.0, ints(found@))
            } else {
                final(func).blocks@ == old(func).blocks@
            },
            None => final(func).blocks@ == old(func).blocks@,
        },
{
    let pre = match loop_info.preheader {
        Some(p) => p,
        None => {
            return;
        },
    };
    if !func.blocks.contains_key(&pre) {
        return;
    }
    let ghost ob = func.blocks@;
    let ghost body = block_ids(loop_info.body@);
    let ghost es = body_entries(ob, body);
    let ghost m = ints(found@).to_set();
    // Take the marked instructions out of the body, block by block.
    let mut slots: Vec<Option<(InstructionId, Instruction)>> = Vec::new();
    let mut b: usize = 0;
    while b < loop_info.body.len()
        invariant
            ob == old(func).blocks@,
            body == block_ids(loop_info.body@),
            body.no_duplicates(),
            es == body_entries(ob, body),
            m == ints(found@).to_set(),
            ob.contains_key(pre.0),
            !body.contains(pre.0),
            crate::optimizer::same_header(*func, *old(func)),
            func.blocks@.dom() == ob.dom(),
            b <= body.len(),
            slots@.len() == body_entries(ob, body.take(b as int)).len(),
            forall|k: int| 0 <= k < slots@.len() ==> #[trigger] slots@[k] == (if m.contains(k) { Some(es[k]) } else { None }),
            forall|b2: int| 0 <= b2 < b && #[trigger] ob.contains_key(body[b2]) ==> {
                &&& func.blocks@[body[b2]].instructions@ == kept_entries(ob[body[b2]].instructions@, m, block_offset(ob, body, b2))
                &&& same_but_instructions(func.blocks@[body[b2]], ob[body[b2]])
            },
            forall|k: u32| #[trigger] ob.contains_key(k) && !body.take(b as int).contains(k) ==> func.blocks@[k] == ob[k],
        decreases body.len() - b,
    {
        let x = loop_info.body[b];
        proof {
            assert(body[b as int] == x.0);
            lemma_body_prefix(ob, body, b as int);
            lemma_body_prefix(ob, body, b + 1);
            assert(body.take(b + 1).drop_last() =~= body.take(b as int));
            assert(body.take(b + 1).last() == x.0);
            assert(!body.take(b as int).contains(x.0)) by {
                if body.take(b as int).contains(x.0) {
                    let t0 = body.take(b as int);
                    let j2 = choose|j2: int| 0 <= j2 < t0.len() && t0[j2] == x.0;
                    assert(body[j2] == body[b as int]);
                }
            }
            assert forall|k: u32| #[trigger] body.take(b + 1).contains(k) <==> (body.take(b as int).contains(k) || k == x.0) by {
                if body.take(b + 1).contains(k) && k != x.0 {
                    let t1 = body.take(b + 1);
                    let j2 = choose|j2: int| 0 <= j2 < t1.len() && t1[j2] == k;
                    assert(body.take(b as int)[j2] == k);
                }
                if body.take(b as int).contains(k) {
                    let t0 = body.take(b as int);
                    let j2 = choose|j2: int| 0 <= j2 < t0.len() && t0[j2] == k;
                    assert(body.take(b + 1)[j2] == k);
                }
                if k == x.0 {
                    assert(body.take(b + 1)[b as int] == k);
                }
            }
        }
        let ghost off = slots@.len() as int;
        let ghost cur = func.blocks@;
        let taken = func.blocks.replace(x, BasicBlock::new(x));
        match taken {
            Some(mut blk) => {
                let ghost oins = blk.instructions@;
                proof {
                    assert(blk == ob[x.0]);
                    assert(body_entries(ob, body.take(b + 1)) == body_entries(ob, body.take(b as int)) + oins);
                    assert forall|q: int| 0 <= q < oins.len() implies es[off + q] == oins[q] by {
                        let p1 = body_entries(ob, body.take(b + 1));
                        assert(es.take(p1.len() as int) == p1);
                        assert(p1[off + q] == oins[q]);
                        assert(es.take(p1.len() as int)[off + q] == es[off + q]);
                    }
                }
                let mut ins: Vec<(InstructionId, Instruction)> = Vec::new();
                std::mem::swap(&mut ins, &mut blk.instructions);
                let mut kept: Vec<(InstructionId, Instruction)> = Vec::new();
                let mut q: usize = 0;
                let count = ins.len();
                while q < count
                    invariant
                        count == oins.len(),
                        ins@ == oins.skip(q as int),
                        q <= oins.len(),
                        off == body_entries(ob, body.take(b as int)).len(),
                        es.len() >= off + oins.len(),
                        forall|q2: int| 0 <= q2 < oins.len() ==> es[off + q2] == #[trigger] oins[q2],
                        m == ints(found@).to_set(),
                        oins.len() <= usize::MAX,
                        slots@.len() == off + q,
                        forall|k: int| 0 <= k < slots@.len() ==> #[trigger] slots@[k] == (if m.contains(k) { Some(es[k]) } else { None }),
                        kept@ == kept_entries(oins.take(q as int), m, off),
                    decreases count - q,
                {
                    let e = ins.remove(0);
                    let pos = slots.len();
                    proof {
                        assert(e == oins[q as int]);
                        assert(oins.take(q + 1).drop_last() =~= oins.take(q as int));
                        assert(oins.take(q + 1).last() == oins[q as int]);
                        assert(ins@ =~= oins.skip(q + 1));
                    }
                    let moving = contains_place(found, pos);
                    let ghost s0 = slots@;
                    if moving {
                        slots.push(Some(e));
                    } else {
                        kept.push(e);
                        slots.push(None);
                    }
                    proof {
                        assert forall|k: int| 0 <= k < slots@.len() implies #[trigger] slots@[k] == (if m.contains(k) { Some(es[k]) } else { None }) by {
                            if k < s0.len() {
                                assert(slots@[k] == s0[k]);
                            } else {
                                assert(k == off + q);
                                assert(es[off + q] == oins[q as int]);
                            }
                        }
                    }
                    q = q + 1;
                }
                proof {
                    assert(oins.take(q as int) =~= oins);
                }
                blk.instructions = kept;
                func.blocks.replace(x, blk);
            },
            None => {
                func.blocks.remove(&x);
                proof {
                    assert(body_entries(ob, body.take(b + 1)) == body_entries(ob, body.take(b as int)));
                    assert(func.blocks@ =~= cur);
                }
            },
        }
        proof {
            assert(block_offset(ob, body, b as int) == off);
            assert forall|b2: int| 0 <= b2 < b + 1 && #[trigger] ob.contains_key(body[b2]) implies {
                &&& func.blocks@[body[b2]].instructions@ == kept_entries(ob[body[b2]].instructions@, m, block_offset(ob, body, b2))
                &&& same_but_instructions(func.blocks@[body[b2]], ob[body[b2]])
            } by {
                if b2 < b {
                    assert(body[b2] != x.0) by {
                        if body[b2] == x.0 {
                            assert(body[b2] == body[b as int]);
                        }
                    }
                }
            }
            assert(func.blocks@.dom() =~= ob.dom());
        }
        b = b + 1;
    }
    proof {
        assert(body.take(body.len() as int) =~= body);
        assert(slots@.len() == es.len());
    }
    // Put them at the end of the preheader, in the order found.
    let taken = func.blocks.replace(pre, BasicBlock::new(pre));
    let ghost mid = func.blocks@;
    match taken {
        Some(mut pb) => {
            proof {
                assert(pb == ob[pre.0]);
            }
            let ghost pins = pb.instructions@;
            let mut j: usize = 0;
            while j < found.len()
                invariant
                    es == body_entries(ob, body),
                    m == ints(found@).to_set(),
                    ints(found@).no_duplicates(),
                    forall|j2: int| 0 <= j2 < found@.len() ==> (#[trigger] found@[j2] as int) < es.len(),
                    slots@.len() == es.len(),
                    forall|k: int| 0 <= k < slots@.len() ==> #[trigger] slots@[k] == (if m.contains(k) && !ints(found@).take(j as int).contains(k) { Some(es[k]) } else { None }),
                    j <= found@.len(),
                    pb.instructions@ == pins + picked(es, ints(found@).take(j as int)),
                    pb.id == ob[pre.0].id,
                    pb.terminator == ob[pre.0].terminator,
                    pb.parameters == ob[pre.0].parameters,
                    pb.predecessors == ob[pre.0].predecessors,
                decreases found@.len() - j,
            {
                let idx = found[j];
                proof {
                    assert(ints(found@)[j as int] == idx as int);
                    assert(m.contains(idx as int));
                    assert(!ints(found@).take(j as int).contains(idx as int)) by {
                        if ints(found@).take(j as int).contains(idx as int) {
                            let f0 = ints(found@).take(j as int);
                            let j2 = choose|j2: int| 0 <= j2 < f0.len() && f0[j2] == idx as int;
                            assert(ints(found@)[j2] == ints(found@)[j as int]);
                        }
                    }
                    assert(ints(found@).take(j + 1) =~= ints(found@).take(j as int).push(idx as int));
                }
                let ghost s0 = slots@;
                let e = slots.remove(idx);
                slots.insert(idx, None);
                match e {
                    Some(ent) => {
                        pb.instructions.push(ent);
                        proof {
                            assert(ent == es[idx as int]);
                            assert(picked(es, ints(found@).take(j + 1)) =~= picked(es, ints(found@).take(j as int)).push(es[idx as int]));
                        }
                    },
                    None => {
                        proof {
                            assert(false);
                        }
                    },
                }
                proof {
                    assert forall|k: int| 0 <= k < slots@.len() implies #[trigger] slots@[k] == (if m.contains(k) && !ints(found@).take(j + 1).contains(k) { Some(es[k]) } else { None }) by {
                        if k != idx {
                            assert(slots@[k] == s0[k]);
                            assert(ints(found@).take(j + 1).contains(k) == ints(found@).take(j as int).contains(k)) by {
                                if ints(found@).take(j + 1).contains(k) {
                                    let f1 = ints(found@).take(j + 1);
                                    let j2 = choose|j2: int| 0 <= j2 < f1.len() && f1[j2] == k;
                                    assert(j2 < j);
                                    assert(ints(found@).take(j as int)[j2] == k);
                                }
                                if ints(found@).take(j as int).contains(k) {
                                    let f0 = ints(found@).take(j as int);
                                    let j2 = choose|j2: int| 0 <= j2 < f0.len() && f0[j2] == k;
                                    assert(ints(found@).take(j + 1)[j2] == k);
                                }
                            }
                        } else {
                            assert(ints(found@).take(j + 1)[j as int] == k);
                        }
                    }
                }
                j = j + 1;
            }
            proof {
                assert(ints(found@).take(found@.len() as int) =~= ints(found@));
            }
            func.blocks.replace(pre, pb);
            proof {
                assert(func.blocks@.dom() =~= ob.dom());
                assert forall|k: u32| #[trigger] ob.contains_key(k) && k != pre.0 && !body.contains(k) implies func.blocks@[k] == ob[k] by {
                    assert(mid[k] == ob[k]);
                }
                assert forall|b2: int| 0 <= b2 < body.len() && #[trigger] ob.contains_key(body[b2]) implies {
                    &&& func.blocks@[body[b2]].instructions@ == kept_entries(ob[body[b2]].instructions@, m, block_offset(ob, body, b2))
                    &&& same_but_instructions(func.blocks@[body[b2]], ob[body[b2]])
                } by {
                    assert(body[b2] != pre.0) by {
                        assert(body.contains(body[b2]));
                    }
                    assert(func.blocks@[body[b2]] == mid[body[b2]]);
                }
                assert(hoisted(func.blocks@, ob, body, pre.0, ints(found@)));
            }
        },
        None => {
            proof {
                assert(false);
            }
        },
    }
}


/// The invariant instructions lie among those of the body.
proof fn lemma_invariants_in_range(es: Seq<(InstructionId, Instruction)>, ps: Seq<u32>, found: Seq<int>)
    requires
        least_invariants(es, ps, found.to_set()),
    ensures
        forall|j: int| 0 <= j < found.len() ==> 0 <= #[trigger] found[j] < es.len(),
{
    let range = vstd::set_lib::set_int_range(0, es.len() as int);
    assert(invariants_closed(es, ps, range));
    assert forall|j: int| 0 <= j < found.len() implies 0 <= #[trigger] found[j] < es.len() by {
        assert(found.to_set().contains(found[j]));
        assert(range.contains(found[j]));
    }
}

/// One step of the pass on the blocks: the invariant instructions of `l`,
/// in an order that `invariant_order` accepts, moved to its preheader, where
/// it has one that is a block.
pub open spec fn licm_step(nb: Map<u32, BasicBlock>, ob: Map<u32, BasicBlock>, l: LoopInfo) -> bool {
    let body = block_ids(l.body@);
    exists|found: Seq<int>| {
        &&& #[trigger] invariant_order(body_entries(ob, body), body_params(ob, body), found)
        &&& match l.preheader {
            Some(p) => if ob.contains_key(p.0) { hoisted(nb, ob, body, p.0, found) } else { nb == ob },
            None => nb == ob,
        }
    }
}

/// `chain` runs from `m0` to `mf`, one loop of `loops` at a time.
pub open spec fn licm_chain(loops: Seq<LoopInfo>, chain: Seq<Map<u32, BasicBlock>>, mf: Map<u32, BasicBlock>, m0: Map<u32, BasicBlock>) -> bool {
    &&& chain.len() == loops.len() + 1
    &&& chain[0] == m0
    &&& chain.last() == mf
    &&& forall|i: int| 0 <= i < loops.len() ==> licm_step(chain[i + 1], #[trigger] chain[i], loops[i])
}

/// `nf` is `of` with the invariant instructions of each loop of `of`, loop
/// after loop, moved to the loop's preheader.
pub open spec fn licm_fn(nf: Function, of: Function) -> bool {
    &&& exists|loops: Seq<LoopInfo>, chain: Seq<Map<u32, BasicBlock>>|
        #[trigger] loops_of(of, loops) && #[trigger] licm_chain(loops, chain, nf.blocks@, of.blocks@)
    &&& crate::optimizer::same_header(nf, of)
}

/// Moves, loop after loop, the invariant instructions of each loop to its
/// preheader, as `licm_fn` says.
pub fn run_loop_invariant_code_motion(func: &mut Function)
    ensures
        licm_fn(*final(func), *old(func)),
{
    let loops = detect_loops(func);
    let ghost mut chain: Seq<Map<u32, BasicBlock>> = seq![func.blocks@];
    let ghost order = func.blocks.key_order();
    let mut i: usize = 0;
    while i < loops.len()
        invariant
            loops_of(*old(func), loops@),
            order == old(func).blocks.key_order(),
            crate::optimizer::same_header(*func, *old(func)),
            i <= loops@.len(),
            licm_chain(loops@.take(i as int), chain, func.blocks@, old(func).blocks@),
        decreases loops@.len() - i,
    {
        let l = &loops[i];
        proof {
            let d = choose|d: Seq<Seq<bool>>| {
                &&& #[trigger] crate::loops::greatest_dominators(old(func).blocks@, old(func).blocks.key_order(), old(func).entry_block.0, d)
                &&& loops@.len() == crate::loops::back_edges(old(func).blocks@, old(func).blocks.key_order(), d, old(func).blocks.key_order().len() as int).len()
                &&& forall|m: int| 0 <= m < loops@.len() ==> crate::loops::loop_info_of(old(func).blocks@, old(func).blocks.key_order(), #[trigger] loops@[m],
                    crate::loops::back_edges(old(func).blocks@, old(func).blocks.key_order(), d, old(func).blocks.key_order().len() as int)[m].0,
                    crate::loops::back_edges(old(func).blocks@, old(func).blocks.key_order(), d, old(func).blocks.key_order().len() as int)[m].1)
            };
            assert(crate::loops::loop_info_of(old(func).blocks@, old(func).blocks.key_order(), loops@[i as int],
                crate::loops::back_edges(old(func).blocks@, old(func).blocks.key_order(), d, old(func).blocks.key_order().len() as int)[i as int].0,
                crate::loops::back_edges(old(func).blocks@, old(func).blocks.key_order(), d, old(func).blocks.key_order().len() as int)[i as int].1));
            assert(block_ids(l.body@).no_duplicates());
            match l.preheader {
                Some(p) => {
                    let body_set = block_ids(l.body@).to_set();
                    let ps = crate::loops::preds_in(old(func).blocks@, old(func).blocks.key_order(), l.header.0);
                    lemma_first_outside(ps, body_set);
                },
                None => {},
            }
        }
        let found = identify_loop_invariants(func, l);
        let ghost before = func.blocks@;
        proof {
            lemma_invariants_in_range(body_entries(func.blocks@, block_ids(l.body@)), body_params(func.blocks@, block_ids(l.body@)), ints(found@));
            assert forall|j: int| 0 <= j < found@.len() implies (#[trigger] found@[j] as int) < body_entries(func.blocks@, block_ids(l.body@)).len() by {
                assert(ints(found@)[j] == found@[j] as int);
            }
        }
        move_invariants_to_preheader(func, l, &found);
        proof {
            let prev = chain;
            chain = chain.push(func.blocks@);
            assert(licm_step(func.blocks@, before, *l)) by {
                assert(invariant_order(body_entries(before, block_ids(l.body@)), body_params(before, block_ids(l.body@)), ints(found@)));
            }
            assert forall|j: int| 0 <= j < loops@.take(i + 1).len() implies
                licm_step(chain[j + 1], #[trigger] chain[j], loops@.take(i + 1)[j]) by {
                if j < i {
                    assert(chain[j] == prev[j] && chain[j + 1] == prev[j + 1]);
                    assert(loops@.take(i + 1)[j] == loops@.take(i as int)[j]);
                    assert(licm_step(prev[j + 1], prev[j], loops@.take(i as int)[j]));
                } else {
                    assert(chain[j] == before);
                }
            }
        }
        i = i + 1;
    }
    proof {
        assert(loops@.take(loops@.len() as int) =~= loops@);
        assert(licm_chain(loops@, chain, func.blocks@, old(func).blocks@));
    }
}

/// What `first_outside` picks lies outside the set.
proof fn lemma_first_outside(ps: Seq<u32>, s: Set<u32>)
    ensures
        crate::loops::first_outside(ps, s) matches Some(p) ==> !s.contains(p),
    decreases ps.len(),
{
    if ps.len() > 0 && s.contains(ps[0]) {
        lemma_first_outside(ps.drop_first(), s);
    }
}

/// An instruction moved out of a loop has no effect, and every register it
/// reads is taken as a parameter by no block of the loop and is defined in
/// the loop only by instructions moved before it.
pub proof fn lemma_invariants_are_pure(es: Seq<(InstructionId, Instruction)>, ps: Seq<u32>, found: Seq<int>, j: int, x: u32, k: int)
    requires
        invariant_order(es, ps, found),
        0 <= j < found.len(),
    ensures
        !has_effect(es[found[j]].1),
        reg_ids(crate::eir::used_regs(es[found[j]].1)).contains(x) ==> !ps.contains(x),
        (reg_ids(crate::eir::used_regs(es[found[j]].1)).contains(x) && 0 <= k < es.len() && def_of(es[k]) == Some(x))
            ==> found.take(j).contains(k),
{
    assert(invariant_rule(es, ps, found.take(j).to_set(), found[j]));
    if reg_ids(crate::eir::used_regs(es[found[j]].1)).contains(x) {
        assert(invariant_reg(es, ps, found.take(j).to_set(), x));
    }
}

} // verus!
