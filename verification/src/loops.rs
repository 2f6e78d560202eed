use vstd::prelude::*;

use crate::assoc::key_views;
use crate::eir::{BasicBlock, BlockId, Function};
use crate::optimizer::{block_ids, successors, terminator_successors};

verus! {

// ---------------------------------------------------------------------------
// Predecessors.

/// Whether block `p` passes control to block `b`.
pub open spec fn passes_to(blocks: Map<u32, BasicBlock>, p: u32, b: u32) -> bool {
    blocks.contains_key(p) && block_ids(successors(blocks[p])).contains(b)
}

/// The blocks of `order` that pass control to `b`, in that order.
pub open spec fn preds_in(blocks: Map<u32, BasicBlock>, order: Seq<u32>, b: u32) -> Seq<u32>
    decreases order.len(),
{
    if order.len() == 0 {
        seq![]
    } else {
        let rest = preds_in(blocks, order.drop_last(), b);
        if passes_to(blocks, order.last(), b) {
            rest.push(order.last())
        } else {
            rest
        }
    }
}

/// Whether `b` occurs among `ids`.
fn contains_block(ids: &Vec<BlockId>, b: u32) -> (r: bool)
    ensures
        r == block_ids(ids@).contains(b),
{
    let mut i: usize = 0;
    while i < ids.len()
        invariant
            i <= ids@.len(),
            forall|j: int| 0 <= j < i ==> (#[trigger] ids@[j]).0 != b,
        decreases ids@.len() - i,
    {
        if ids[i].0 == b {
            proof {
                assert(block_ids(ids@)[i as int] == b);
            }
            return true;
        }
        i = i + 1;
    }
    proof {
        if block_ids(ids@).contains(b) {
            let j = choose|j: int| 0 <= j < block_ids(ids@).len() && block_ids(ids@)[j] == b;
            assert(ids@[j].0 == b);
        }
    }
    false
}

/// The successors of each block of `func`, in key order.
fn successor_lists(func: &Function, keys: &Vec<BlockId>) -> (r: Vec<Vec<BlockId>>)
    requires
        forall|j: int| 0 <= j < keys@.len() ==> func.blocks@.contains_key(#[trigger] keys@[j].0),
    ensures
        r@.len() == keys@.len(),
        forall|j: int| 0 <= j < keys@.len() ==> (#[trigger] r@[j])@ == successors(func.blocks@[keys@[j].0]),
{
    let mut r: Vec<Vec<BlockId>> = Vec::new();
    let mut i: usize = 0;
    while i < keys.len()
        invariant
            forall|j: int| 0 <= j < keys@.len() ==> func.blocks@.contains_key(#[trigger] keys@[j].0),
            i <= keys@.len(),
            r@.len() == i,
            forall|j: int| 0 <= j < i ==> (#[trigger] r@[j])@ == successors(func.blocks@[keys@[j].0]),
        decreases keys@.len() - i,
    {
        let k = keys[i];
        proof {
            assert(func.blocks@.contains_key(keys@[i as int].0));
        }
        let s = match func.blocks.get(&k) {
            Some(b) => match &b.terminator {
                Some(t) => terminator_successors(t),
                None => Vec::new(),
            },
            None => Vec::new(),
        };
        r.push(s);
        i = i + 1;
    }
    r
}

/// The blocks that pass control to `block_id`, in key order.
pub fn get_predecessors(func: &Function, block_id: BlockId) -> (r: Vec<BlockId>)
    ensures
        block_ids(r@) == preds_in(func.blocks@, func.blocks.key_order(), block_id.0),
{
    let keys = func.blocks.keys();
    let ghost order = func.blocks.key_order();
    proof {
        assert forall|j: int| 0 <= j < keys@.len() implies func.blocks@.contains_key(#[trigger] keys@[j].0) by {
            assert(key_views(keys@)[j] == keys@[j].0);
            assert(order.to_set().contains(order[j]));
        }
    }
    let succ = successor_lists(func, &keys);
    let mut r: Vec<BlockId> = Vec::new();
    let mut i: usize = 0;
    while i < keys.len()
        invariant
            key_views(keys@) == order,
            order == func.blocks.key_order(),
            forall|j: int| 0 <= j < keys@.len() ==> func.blocks@.contains_key(#[trigger] keys@[j].0),
            succ@.len() == keys@.len(),
            forall|j: int| 0 <= j < keys@.len() ==> (#[trigger] succ@[j])@ == successors(func.blocks@[keys@[j].0]),
            i <= keys@.len(),
            block_ids(r@) == preds_in(func.blocks@, order.take(i as int), block_id.0),
        decreases keys@.len() - i,
    {
        proof {
            assert(order.take(i + 1).drop_last() =~= order.take(i as int));
            assert(order.take(i + 1).last() == keys@[i as int].0);
            assert(func.blocks@.contains_key(keys@[i as int].0));
            assert(succ@[i as int]@ == successors(func.blocks@[keys@[i as int].0]));
        }
        let hit = contains_block(&succ[i], block_id.0);
        let ghost before = r@;
        if hit {
            r.push(keys[i]);
            proof {
                assert(block_ids(r@) =~= block_ids(before).push(keys@[i as int].0));
            }
        }
        i = i + 1;
    }
    proof {
        assert(order.take(keys@.len() as int) =~= order);
    }
    r
}


// ---------------------------------------------------------------------------
// Dominators.
//
// Blocks are numbered by their place in the key order; a dominator table `d`
// says in `d[i][j]` whether block `j` dominates block `i`.

/// Whether the `p`-th block passes control to the `i`-th.
pub open spec fn edge(blocks: Map<u32, BasicBlock>, order: Seq<u32>, p: int, i: int) -> bool {
    passes_to(blocks, order[p], order[i])
}

/// Whether some block passes control to the `i`-th.
pub open spec fn has_pred(blocks: Map<u32, BasicBlock>, order: Seq<u32>, i: int) -> bool {
    exists|p: int| 0 <= p < order.len() && #[trigger] edge(blocks, order, p, i)
}

/// Whether block `j` is the `i`-th itself or dominates every block that passes
/// control to the `i`-th, as the table `d` says.
pub open spec fn meet(blocks: Map<u32, BasicBlock>, order: Seq<u32>, d: Seq<Seq<bool>>, i: int, j: int) -> bool {
    j == i || forall|p: int| 0 <= p < order.len() && #[trigger] edge(blocks, order, p, i) ==> d[p][j]
}

/// What the table must hold at `d[i][j]`: the entry is dominated by itself
/// alone, a block without predecessors is left dominated by every block, and
/// any other block by itself and what dominates all its predecessors.
pub open spec fn dom_rule(blocks: Map<u32, BasicBlock>, order: Seq<u32>, entry: u32, d: Seq<Seq<bool>>, i: int, j: int) -> bool {
    if order[i] == entry {
        j == i
    } else if has_pred(blocks, order, i) {
        meet(blocks, order, d, i, j)
    } else {
        true
    }
}

/// Whether `d` is an `n` by `n` table.
pub open spec fn square(d: Seq<Seq<bool>>, n: int) -> bool {
    d.len() == n && forall|i: int| 0 <= i < n ==> #[trigger] d[i].len() == n
}

/// Whether the table `d` meets every rule.
pub open spec fn dom_solution(blocks: Map<u32, BasicBlock>, order: Seq<u32>, entry: u32, d: Seq<Seq<bool>>) -> bool {
    &&& square(d, order.len() as int)
    &&& forall|i: int, j: int| 0 <= i < order.len() && 0 <= j < order.len() ==>
        #[trigger] d[i][j] == dom_rule(blocks, order, entry, d, i, j)
}

/// Whether every entry that `d2` holds, `d` holds too.
pub open spec fn below(d2: Seq<Seq<bool>>, d: Seq<Seq<bool>>, n: int) -> bool {
    forall|i: int, j: int| 0 <= i < n && 0 <= j < n && #[trigger] d2[i][j] ==> d[i][j]
}

/// The dominator table: the largest that meets the rules.
pub open spec fn greatest_dominators(blocks: Map<u32, BasicBlock>, order: Seq<u32>, entry: u32, d: Seq<Seq<bool>>) -> bool {
    &&& dom_solution(blocks, order, entry, d)
    &&& forall|d2: Seq<Seq<bool>>| #[trigger] dom_solution(blocks, order, entry, d2) ==> below(d2, d, order.len() as int)
}

/// The blocks of `order` that `row` marks, in order.
pub open spec fn marked(order: Seq<u32>, row: Seq<bool>, k: int) -> Seq<u32>
    decreases k,
{
    if k <= 0 {
        seq![]
    } else if row[k - 1] {
        marked(order, row, k - 1).push(order[k - 1])
    } else {
        marked(order, row, k - 1)
    }
}

/// Whether `r` lists, for each block in key order, the blocks that the table
/// marks as its dominators; and, where the entry is no block, the entry as
/// its own only dominator.
pub open spec fn listed(r: Seq<(BlockId, Vec<BlockId>)>, order: Seq<u32>, entry: u32, d: Seq<Seq<bool>>) -> bool {
    &&& r.len() == order.len() + if order.contains(entry) { 0int } else { 1int }
    &&& forall|i: int| 0 <= i < order.len() ==> (#[trigger] r[i]).0 == BlockId(order[i])
        && block_ids(r[i].1@) == marked(order, d[i], order.len() as int)
    &&& !order.contains(entry) ==> r[order.len() as int].0 == BlockId(entry) && block_ids(r[order.len() as int].1@) == seq![entry]
}

/// The dominators of every block of `func`: for each block in key order, the
/// blocks that the greatest table meeting the rules marks.
pub open spec fn dominators_of(func: Function, r: Seq<(BlockId, Vec<BlockId>)>) -> bool {
    exists|d: Seq<Seq<bool>>| {
        &&& #[trigger] greatest_dominators(func.blocks@, func.blocks.key_order(), func.entry_block.0, d)
        &&& listed(r, func.blocks.key_order(), func.entry_block.0, d)
    }
}

/// How many entries of `a` are true.
pub open spec fn row_count(a: Seq<bool>) -> nat
    decreases a.len(),
{
    if a.len() == 0 {
        0
    } else {
        row_count(a.drop_last()) + if a.last() { 1nat } else { 0nat }
    }
}

/// How many entries of the table are true.
pub open spec fn table_count(d: Seq<Seq<bool>>) -> nat
    decreases d.len(),
{
    if d.len() == 0 {
        0
    } else {
        table_count(d.drop_last()) + row_count(d.last())
    }
}

proof fn lemma_row_count_le(a: Seq<bool>, b: Seq<bool>)
    requires
        a.len() == b.len(),
        forall|j: int| 0 <= j < a.len() && #[trigger] a[j] ==> b[j],
    ensures
        row_count(a) <= row_count(b),
        a != b ==> row_count(a) < row_count(b),
    decreases a.len(),
{
    if a.len() == 0 {
        assert(a =~= b);
    } else {
        let n = a.len() - 1;
        assert forall|j: int| 0 <= j < a.drop_last().len() && #[trigger] a.drop_last()[j] implies b.drop_last()[j] by {
            assert(a[j]);
        }
        lemma_row_count_le(a.drop_last(), b.drop_last());
        assert(a[n] ==> b[n]);
        if a != b && a.drop_last() == b.drop_last() && a.last() == b.last() {
            assert forall|j: int| 0 <= j < a.len() implies a[j] == b[j] by {
                if j < n {
                    assert(a.drop_last()[j] == a[j]);
                    assert(b.drop_last()[j] == b[j]);
                }
            }
            assert(a =~= b);
        }
    }
}

proof fn lemma_table_count_update(d: Seq<Seq<bool>>, i: int, a: Seq<bool>)
    requires
        0 <= i < d.len(),
    ensures
        table_count(d.update(i, a)) + row_count(d[i]) == table_count(d) + row_count(a),
    decreases d.len(),
{
    if i == d.len() - 1 {
        assert(d.update(i, a).drop_last() =~= d.drop_last());
    } else {
        lemma_table_count_update(d.drop_last(), i, a);
        assert(d.update(i, a).drop_last() =~= d.drop_last().update(i, a));
    }
}

/// The view of a table of vectors.
pub open spec fn table(d: Seq<Vec<bool>>) -> Seq<Seq<bool>> {
    d.map_values(|r: Vec<bool>| r@)
}

/// The place of `b` in `keys`, if it is there.
fn block_index(keys: &Vec<BlockId>, b: u32) -> (r: Option<usize>)
    ensures
        r matches Some(i) ==> i < keys@.len() && keys@[i as int].0 == b,
        r is None ==> forall|j: int| 0 <= j < keys@.len() ==> (#[trigger] keys@[j]).0 != b,
{
    let mut i: usize = 0;
    while i < keys.len()
        invariant
            i <= keys@.len(),
            forall|j: int| 0 <= j < i ==> (#[trigger] keys@[j]).0 != b,
        decreases keys@.len() - i,
    {
        if keys[i].0 == b {
            return Some(i);
        }
        i = i + 1;
    }
    None
}

/// For each block, the places of the blocks that pass control to it.
fn predecessor_table(func: &Function, keys: &Vec<BlockId>, succ: &Vec<Vec<BlockId>>) -> (r: Vec<Vec<usize>>)
    requires
        succ@.len() == keys@.len(),
        forall|j: int| 0 <= j < keys@.len() ==> func.blocks@.contains_key(#[trigger] keys@[j].0),
        forall|j: int| 0 <= j < keys@.len() ==> (#[trigger] succ@[j])@ == successors(func.blocks@[keys@[j].0]),
    ensures
        r@.len() == keys@.len(),
        forall|i: int, k: int| 0 <= i < keys@.len() && 0 <= k < r@[i]@.len() ==> (#[trigger] r@[i]@[k]) < keys@.len(),
        forall|i: int, p: int| 0 <= i < keys@.len() && 0 <= p < keys@.len() ==>
            (#[trigger] r@[i]@.contains(p as usize) <==> edge(func.blocks@, key_views(keys@), p, i)),
{
    let ghost order = key_views(keys@);
    let n = keys.len();
    let mut r: Vec<Vec<usize>> = Vec::new();
    let mut i: usize = 0;
    while i < n
        invariant
            n == keys@.len(),
            order == key_views(keys@),
            succ@.len() == keys@.len(),
            forall|j: int| 0 <= j < keys@.len() ==> func.blocks@.contains_key(#[trigger] keys@[j].0),
            forall|j: int| 0 <= j < keys@.len() ==> (#[trigger] succ@[j])@ == successors(func.blocks@[keys@[j].0]),
            i <= n,
            r@.len() == i,
            forall|i2: int, k: int| 0 <= i2 < i && 0 <= k < r@[i2]@.len() ==> (#[trigger] r@[i2]@[k]) < n,
            forall|i2: int, p: int| 0 <= i2 < i && 0 <= p < n ==>
                (#[trigger] r@[i2]@.contains(p as usize) <==> edge(func.blocks@, order, p, i2)),
        decreases n - i,
    {
        let mut row: Vec<usize> = Vec::new();
        let mut p: usize = 0;
        while p < n
            invariant
                n == keys@.len(),
                order == key_views(keys@),
                succ@.len() == keys@.len(),
                forall|j: int| 0 <= j < keys@.len() ==> func.blocks@.contains_key(#[trigger] keys@[j].0),
                forall|j: int| 0 <= j < keys@.len() ==> (#[trigger] succ@[j])@ == successors(func.blocks@[keys@[j].0]),
                i < n,
                p <= n,
                forall|k: int| 0 <= k < row@.len() ==> #[trigger] row@[k] < p,
                forall|q: int| 0 <= q < n ==> (#[trigger] row@.contains(q as usize) <==> (q < p && edge(func.blocks@, order, q, i as int))),
            decreases n - p,
        {
            proof {
                assert(order[p as int] == keys@[p as int].0);
                assert(order[i as int] == keys@[i as int].0);
                assert(func.blocks@.contains_key(keys@[p as int].0));
                assert(succ@[p as int]@ == successors(func.blocks@[keys@[p as int].0]));
            }
            let hit = contains_block(&succ[p], keys[i].0);
            proof {
                assert(hit == edge(func.blocks@, order, p as int, i as int));
            }
            let ghost before = row@;
            if hit {
                row.push(p);
            }
            proof {
                assert(hit ==> row@ == before.push(p));
                assert(!hit ==> row@ == before);
                assert forall|q: int| 0 <= q < n implies (#[trigger] row@.contains(q as usize) <==> (q < p + 1 && edge(func.blocks@, order, q, i as int))) by {
                    let qq = q as usize;
                    if row@.contains(qq) {
                        let k = choose|k: int| 0 <= k < row@.len() && row@[k] == qq;
                        if k < before.len() {
                            assert(before[k] == qq);
                            assert(before.contains(qq));
                            assert(q < p);
                        } else {
                            assert(hit && qq == p);
                        }
                    }
                    if q < p && edge(func.blocks@, order, q, i as int) {
                        assert(before.contains(qq));
                        let k = choose|k: int| 0 <= k < before.len() && before[k] == qq;
                        assert(row@[k] == qq);
                    }
                    if q == p && hit {
                        assert(row@[before.len() as int] == qq);
                    }
                }
            }
            p = p + 1;
        }
        r.push(row);
        proof {
            assert forall|i2: int, p2: int| 0 <= i2 < i + 1 && 0 <= p2 < n implies
                (#[trigger] r@[i2]@.contains(p2 as usize) <==> edge(func.blocks@, order, p2, i2)) by {
                if i2 == i {
                    assert(r@[i2]@ == row@);
                }
            }
        }
        i = i + 1;
    }
    r
}


/// The row that one step gives the `i`-th block: itself, and each block that
/// the rows of all blocks listed in `preds` mark.
fn meet_row(d: &Vec<Vec<bool>>, preds: &Vec<usize>, i: usize, n: usize) -> (r: Vec<bool>)
    requires
        square(table(d@), n as int),
        i < n,
        forall|k: int| 0 <= k < preds@.len() ==> #[trigger] preds@[k] < n,
    ensures
        r@.len() == n,
        forall|j: int| 0 <= j < n ==> #[trigger] r@[j] == (j == i
            || forall|k: int| 0 <= k < preds@.len() ==> table(d@)[preds@[k] as int][j]),
{
    let mut r: Vec<bool> = Vec::new();
    let mut j: usize = 0;
    while j < n
        invariant
            square(table(d@), n as int),
            i < n,
            forall|k: int| 0 <= k < preds@.len() ==> #[trigger] preds@[k] < n,
            j <= n,
            r@.len() == j,
            forall|j2: int| 0 <= j2 < j ==> #[trigger] r@[j2] == (j2 == i
                || forall|k: int| 0 <= k < preds@.len() ==> table(d@)[preds@[k] as int][j2]),
        decreases n - j,
    {
        let mut all = true;
        let mut k: usize = 0;
        while k < preds.len()
            invariant
                square(table(d@), n as int),
                forall|k2: int| 0 <= k2 < preds@.len() ==> #[trigger] preds@[k2] < n,
                j < n,
                k <= preds@.len(),
                all == forall|k2: int| 0 <= k2 < k ==> table(d@)[preds@[k2] as int][j as int],
            decreases preds@.len() - k,
        {
            let p = preds[k];
            proof {
                assert(p < n);
                assert(table(d@)[p as int] == d@[p as int]@);
                assert(table(d@)[p as int].len() == n);
            }
            if !d[p][j] {
                all = false;
            }
            k = k + 1;
        }
        r.push(j == i || all);
        j = j + 1;
    }
    r
}

/// Whether two rows are equal.
fn same_row(a: &Vec<bool>, b: &Vec<bool>) -> (r: bool)
    ensures
        r == (a@ == b@),
{
    if a.len() != b.len() {
        return false;
    }
    let mut j: usize = 0;
    while j < a.len()
        invariant
            a@.len() == b@.len(),
            j <= a@.len(),
            forall|j2: int| 0 <= j2 < j ==> a@[j2] == b@[j2],
        decreases a@.len() - j,
    {
        if a[j] != b[j] {
            return false;
        }
        j = j + 1;
    }
    proof {
        assert(a@ =~= b@);
    }
    true
}

/// The rows that never change: the entry's, and those of blocks without
/// predecessors.
spec fn fixed_rows(blocks: Map<u32, BasicBlock>, order: Seq<u32>, entry: u32, t: Seq<Seq<bool>>) -> bool {
    forall|i: int, j: int| 0 <= i < order.len() && 0 <= j < order.len() ==> {
        &&& order[i] == entry ==> (#[trigger] t[i][j] == (j == i))
        &&& (order[i] != entry && !has_pred(blocks, order, i)) ==> t[i][j]
    }
}

/// Each row holds at least what one step would give it.
spec fn post_fix(blocks: Map<u32, BasicBlock>, order: Seq<u32>, entry: u32, t: Seq<Seq<bool>>) -> bool {
    forall|i: int, j: int| 0 <= i < order.len() && 0 <= j < order.len() && order[i] != entry && has_pred(blocks, order, i)
        && meet(blocks, order, t, i, j) ==> #[trigger] t[i][j]
}

/// Every table that meets the rules lies below `t`.
spec fn upper(blocks: Map<u32, BasicBlock>, order: Seq<u32>, entry: u32, t: Seq<Seq<bool>>) -> bool {
    forall|d2: Seq<Seq<bool>>| #[trigger] dom_solution(blocks, order, entry, d2) ==> below(d2, t, order.len() as int)
}

/// The dominator table of `func`, blocks numbered in key order: it starts
/// full but for the entry, and each block not the entry and with
/// predecessors is set to itself and what dominates all its predecessors,
/// until nothing changes.
fn dominator_table(func: &Function, keys: &Vec<BlockId>) -> (d: Vec<Vec<bool>>)
    requires
        key_views(keys@) == func.blocks.key_order(),
        func.blocks.key_order().to_set() == func.blocks@.dom(),
        func.blocks.key_order().no_duplicates(),
    ensures
        greatest_dominators(func.blocks@, func.blocks.key_order(), func.entry_block.0, table(d@)),
{
    let ghost order = func.blocks.key_order();
    let ghost bl = func.blocks@;
    let n = keys.len();
    proof {
        assert forall|j: int| 0 <= j < keys@.len() implies func.blocks@.contains_key(#[trigger] keys@[j].0) by {
            assert(key_views(keys@)[j] == keys@[j].0);
            assert(order.to_set().contains(order[j]));
        }
        assert forall|j: int| 0 <= j < n implies #[trigger] order[j] == keys@[j].0 by {
            assert(key_views(keys@)[j] == keys@[j].0);
        }
    }
    let succ = successor_lists(func, keys);
    let preds = predecessor_table(func, keys, &succ);
    let entry = func.entry_block.0;
    let mut d: Vec<Vec<bool>> = Vec::new();
    let mut i: usize = 0;
    while i < n
        invariant
            n == keys@.len(),
            n == order.len(),
            forall|j: int| 0 <= j < n ==> #[trigger] order[j] == keys@[j].0,
            order.no_duplicates(),
            i <= n,
            d@.len() == i,
            forall|i2: int| 0 <= i2 < i ==> (#[trigger] d@[i2])@.len() == n,
            forall|i2: int, j: int| 0 <= i2 < i && 0 <= j < n ==>
                #[trigger] d@[i2]@[j] == (order[i2] != entry || j == i2),
        decreases n - i,
    {
        let is_entry = keys[i].0 == entry;
        let mut row: Vec<bool> = Vec::new();
        let mut j: usize = 0;
        while j < n
            invariant
                i < n,
                j <= n,
                row@.len() == j,
                forall|j2: int| 0 <= j2 < j ==> #[trigger] row@[j2] == (!is_entry || j2 == i),
            decreases n - j,
        {
            row.push(!is_entry || j == i);
            j = j + 1;
        }
        d.push(row);
        i = i + 1;
    }
    proof {
        let t = table(d@);
        assert(square(t, n as int)) by {
            assert forall|i2: int| 0 <= i2 < n implies #[trigger] t[i2].len() == n by {
                assert(t[i2] == d@[i2]@);
            }
        }
        assert forall|i2: int, j: int| 0 <= i2 < n && 0 <= j < n implies #[trigger] t[i2][j] == (order[i2] != entry || j == i2) by {
            assert(t[i2] == d@[i2]@);
        }
        assert forall|d2: Seq<Seq<bool>>| #[trigger] dom_solution(bl, order, entry, d2) implies below(d2, t, n as int) by {
            assert forall|i2: int, j: int| 0 <= i2 < n && 0 <= j < n && #[trigger] d2[i2][j] implies t[i2][j] by {
                assert(d2[i2][j] == dom_rule(bl, order, entry, d2, i2, j));
            }
        }
    }
    let mut done = false;
    while !done
        invariant
            n == keys@.len(),
            n == order.len(),
            bl == func.blocks@,
            order == func.blocks.key_order(),
            forall|j: int| 0 <= j < n ==> #[trigger] order[j] == keys@[j].0,
            order.no_duplicates(),
            preds@.len() == n,
            forall|i2: int, k: int| 0 <= i2 < n && 0 <= k < preds@[i2]@.len() ==> (#[trigger] preds@[i2]@[k]) < n,
            forall|i2: int, p: int| 0 <= i2 < n && 0 <= p < n ==>
                (#[trigger] preds@[i2]@.contains(p as usize) <==> edge(bl, order, p, i2)),
            square(table(d@), n as int),
            fixed_rows(bl, order, entry, table(d@)),
            post_fix(bl, order, entry, table(d@)),
            upper(bl, order, entry, table(d@)),
            done ==> dom_solution(bl, order, entry, table(d@)),
        decreases (if done { 0 } else { table_count(table(d@)) + 1 }),
    {
        let ghost start = table(d@);
        let mut changed = false;
        let mut i: usize = 0;
        while i < n
            invariant
                n == keys@.len(),
                n == order.len(),
                forall|j: int| 0 <= j < n ==> #[trigger] order[j] == keys@[j].0,
                order.no_duplicates(),
                preds@.len() == n,
                forall|i2: int, k: int| 0 <= i2 < n && 0 <= k < preds@[i2]@.len() ==> (#[trigger] preds@[i2]@[k]) < n,
                forall|i2: int, p: int| 0 <= i2 < n && 0 <= p < n ==>
                    (#[trigger] preds@[i2]@.contains(p as usize) <==> edge(bl, order, p, i2)),
                square(table(d@), n as int),
                fixed_rows(bl, order, entry, table(d@)),
                post_fix(bl, order, entry, table(d@)),
                upper(bl, order, entry, table(d@)),
                i <= n,
                below(table(d@), start, n as int),
                square(start, n as int),
                changed ==> table_count(table(d@)) < table_count(start),
                !changed ==> table(d@) == start,
                !changed ==> forall|i2: int, j: int| 0 <= i2 < i && 0 <= j < n && order[i2] != entry && has_pred(bl, order, i2) ==>
                    (#[trigger] table(d@)[i2][j] == meet(bl, order, table(d@), i2, j)),
            decreases n - i,
        {
            let ghost t = table(d@);
            proof {
                assert(preds@[i as int]@.len() > 0 <==> has_pred(bl, order, i as int)) by {
                    if preds@[i as int]@.len() > 0 {
                        let p = preds@[i as int]@[0];
                        let pi: int = p as int;
                        assert(pi < n);
                        assert(pi as usize == p);
                        assert(preds@[i as int]@.contains(pi as usize));
                        assert(edge(bl, order, pi, i as int));
                    }
                    if has_pred(bl, order, i as int) {
                        let p = choose|p: int| 0 <= p < order.len() && #[trigger] edge(bl, order, p, i as int);
                        assert(preds@[i as int]@.contains(p as usize));
                    }
                }
            }
            if keys[i].0 != entry && preds[i].len() > 0 {
                let row = meet_row(&d, &preds[i], i, n);
                proof {
                    assert forall|j: int| 0 <= j < n implies #[trigger] row@[j] == meet(bl, order, t, i as int, j) by {
                        let ps = preds@[i as int]@;
                        if forall|k: int| 0 <= k < ps.len() ==> t[ps[k] as int][j] {
                            assert forall|p: int| 0 <= p < order.len() && #[trigger] edge(bl, order, p, i as int) implies t[p][j] by {
                                assert(ps.contains(p as usize));
                                let k = choose|k: int| 0 <= k < ps.len() && ps[k] == p as usize;
                                assert(t[ps[k] as int][j]);
                            }
                        }
                        if meet(bl, order, t, i as int, j) && j != i {
                            assert forall|k: int| 0 <= k < ps.len() implies t[ps[k] as int][j] by {
                                let pi: int = ps[k] as int;
                                assert(pi < n);
                                assert(pi as usize == ps[k]);
                                assert(ps.contains(pi as usize));
                                assert(edge(bl, order, pi, i as int));
                            }
                        }
                    }
                }
                if !same_row(&row, &d[i]) {
                    let ghost old_row = t[i as int];
                    d.set(i, row);
                    changed = true;
                    proof {
                        let t2 = table(d@);
                        assert(t2 =~= t.update(i as int, row@));
                        assert forall|j: int| 0 <= j < n && #[trigger] row@[j] implies old_row[j] by {
                            assert(meet(bl, order, t, i as int, j));
                        }
                        lemma_row_count_le(row@, old_row);
                        lemma_table_count_update(t, i as int, row@);
                        assert(below(t2, t, n as int)) by {
                            assert forall|i2: int, j: int| 0 <= i2 < n && 0 <= j < n && #[trigger] t2[i2][j] implies t[i2][j] by {
                                if i2 == i {
                                    assert(row@[j]);
                                }
                            }
                        }
                        assert(square(t2, n as int)) by {
                            assert forall|i2: int| 0 <= i2 < n implies #[trigger] t2[i2].len() == n by {
                                if i2 != i {
                                    assert(t2[i2] == t[i2]);
                                }
                            }
                        }
                        assert(fixed_rows(bl, order, entry, t2)) by {
                            assert forall|i2: int, j: int| 0 <= i2 < n && 0 <= j < n implies {
                                &&& order[i2] == entry ==> (#[trigger] t2[i2][j] == (j == i2))
                                &&& (order[i2] != entry && !has_pred(bl, order, i2)) ==> t2[i2][j]
                            } by {
                                if i2 != i {
                                    assert(t2[i2] == t[i2]);
                                }
                            }
                        }
                        assert(post_fix(bl, order, entry, t2)) by {
                            assert forall|i2: int, j: int| 0 <= i2 < n && 0 <= j < n && order[i2] != entry && has_pred(bl, order, i2)
                                && meet(bl, order, t2, i2, j) implies #[trigger] t2[i2][j] by {
                                assert(meet(bl, order, t, i2, j)) by {
                                    if j != i2 {
                                        assert forall|p: int| 0 <= p < order.len() && #[trigger] edge(bl, order, p, i2) implies t[p][j] by {
                                            assert(t2[p][j]);
                                        }
                                    }
                                }
                                if i2 != i {
                                    assert(t2[i2] == t[i2]);
                                }
                            }
                        }
                        assert(upper(bl, order, entry, t2)) by {
                            assert forall|d2: Seq<Seq<bool>>| #[trigger] dom_solution(bl, order, entry, d2) implies below(d2, t2, n as int) by {
                                assert(below(d2, t, n as int));
                                assert forall|i2: int, j: int| 0 <= i2 < n && 0 <= j < n && #[trigger] d2[i2][j] implies t2[i2][j] by {
                                    if i2 == i {
                                        assert(d2[i2][j] == dom_rule(bl, order, entry, d2, i2, j));
                                        if j != i2 {
                                            assert forall|p: int| 0 <= p < order.len() && #[trigger] edge(bl, order, p, i2) implies t[p][j] by {
                                                assert(d2[p][j]);
                                            }
                                        }
                                        assert(meet(bl, order, t, i2, j));
                                    } else {
                                        assert(t2[i2] == t[i2]);
                                    }
                                }
                            }
                        }
                        assert(below(t2, start, n as int)) by {
                            assert forall|i2: int, j: int| 0 <= i2 < n && 0 <= j < n && #[trigger] t2[i2][j] implies start[i2][j] by {
                                assert(t[i2][j]);
                            }
                        }
                        assert(row@ != old_row);
                    }
                } else {
                    proof {
                        assert forall|i2: int, j: int| 0 <= i2 < i + 1 && 0 <= j < n && order[i2] != entry && has_pred(bl, order, i2)
                            && !changed implies (#[trigger] table(d@)[i2][j] == meet(bl, order, table(d@), i2, j)) by {
                            if i2 == i {
                                assert(row@[j] == meet(bl, order, t, i as int, j));
                            }
                        }
                    }
                }
            } else {
                proof {
                    assert forall|i2: int, j: int| 0 <= i2 < i + 1 && 0 <= j < n && order[i2] != entry && has_pred(bl, order, i2)
                        && !changed implies (#[trigger] table(d@)[i2][j] == meet(bl, order, table(d@), i2, j)) by {
                        if i2 == i {
                            assert(order[i2] == keys@[i2].0);
                        }
                    }
                }
            }
            i = i + 1;
        }
        if !changed {
            done = true;
            proof {
                let t = table(d@);
                assert forall|i2: int, j: int| 0 <= i2 < n && 0 <= j < n implies #[trigger] t[i2][j] == dom_rule(bl, order, entry, t, i2, j) by {
                    if order[i2] != entry && has_pred(bl, order, i2) {
                        assert(t[i2][j] == meet(bl, order, t, i2, j));
                    }
                }
            }
        }
    }
    d
}

/// The dominators of every block of `func`, in key order, as `dominators_of`
/// says.
pub fn compute_dominators(func: &Function) -> (r: Vec<(BlockId, Vec<BlockId>)>)
    ensures
        dominators_of(*func, r@),
{
    let keys = func.blocks.keys();
    let ghost order = func.blocks.key_order();
    let ghost bl = func.blocks@;
    let n = keys.len();
    proof {
        assert forall|j: int| 0 <= j < n implies #[trigger] order[j] == keys@[j].0 by {
            assert(key_views(keys@)[j] == keys@[j].0);
        }
    }
    let entry = func.entry_block.0;
    let d = dominator_table(func, &keys);
    let ghost fin = table(d@);
    let mut r: Vec<(BlockId, Vec<BlockId>)> = Vec::new();
    let mut i: usize = 0;
    while i < n
        invariant
            n == keys@.len(),
            n == order.len(),
            forall|j: int| 0 <= j < n ==> #[trigger] order[j] == keys@[j].0,
            square(fin, n as int),
            fin == table(d@),
            i <= n,
            r@.len() == i,
            forall|i2: int| 0 <= i2 < i ==> (#[trigger] r@[i2]).0 == BlockId(order[i2])
                && block_ids(r@[i2].1@) == marked(order, fin[i2], n as int),
        decreases n - i,
    {
        let mut ids: Vec<BlockId> = Vec::new();
        let mut j: usize = 0;
        proof {
            assert(fin[i as int] == d@[i as int]@);
        }
        while j < n
            invariant
                n == keys@.len(),
                n == order.len(),
                forall|j2: int| 0 <= j2 < n ==> #[trigger] order[j2] == keys@[j2].0,
                square(fin, n as int),
                fin == table(d@),
                i < n,
                fin[i as int] == d@[i as int]@,
                j <= n,
                block_ids(ids@) == marked(order, fin[i as int], j as int),
            decreases n - j,
        {
            if d[i][j] {
                ids.push(keys[j]);
                proof {
                    assert(block_ids(ids@) =~= marked(order, fin[i as int], j as int + 1));
                }
            }
            j = j + 1;
        }
        r.push((keys[i], ids));
        i = i + 1;
    }
    let ghost before = r@;
    match block_index(&keys, entry) {
        Some(ix) => {
            proof {
                assert(order[ix as int] == entry);
                assert(order.contains(entry));
            }
        },
        None => {
            let mut only: Vec<BlockId> = Vec::new();
            only.push(BlockId(entry));
            r.push((BlockId(entry), only));
            proof {
                assert(block_ids(only@) =~= seq![entry]);
                assert(!order.contains(entry)) by {
                    if order.contains(entry) {
                        let j = choose|j: int| 0 <= j < order.len() && order[j] == entry;
                        assert(keys@[j].0 == entry);
                    }
                }
            }
        },
    }
    proof {
        assert(greatest_dominators(bl, order, entry, fin));
        assert forall|i2: int| 0 <= i2 < order.len() implies (#[trigger] r@[i2]).0 == BlockId(order[i2])
            && block_ids(r@[i2].1@) == marked(order, fin[i2], order.len() as int) by {
            assert(r@[i2] == before[i2]);
        }
        assert(listed(r@, order, entry, fin));
    }
    r
}

/// Every block dominates itself.
pub proof fn lemma_block_dominates_itself(blocks: Map<u32, BasicBlock>, order: Seq<u32>, entry: u32, d: Seq<Seq<bool>>, i: int)
    requires
        dom_solution(blocks, order, entry, d),
        0 <= i < order.len(),
    ensures
        d[i][i],
{
    assert(d[i][i] == dom_rule(blocks, order, entry, d, i, i));
}

/// What domination means: the entry is dominated by itself alone; a block
/// that another block dominates, and that has a predecessor, is reached only
/// through blocks that the other dominates; and a block other than the entry
/// is dominated by each block that dominates all its predecessors.
pub proof fn lemma_dominator_meaning(blocks: Map<u32, BasicBlock>, order: Seq<u32>, entry: u32, d: Seq<Seq<bool>>, i: int, j: int, p: int)
    requires
        dom_solution(blocks, order, entry, d),
        0 <= i < order.len(),
        0 <= j < order.len(),
        0 <= p < order.len(),
    ensures
        order[i] == entry ==> (d[i][j] <==> j == i),
        (order[i] != entry && d[i][j] && j != i && edge(blocks, order, p, i)) ==> d[p][j],
        (order[i] != entry && has_pred(blocks, order, i)
            && forall|q: int| 0 <= q < order.len() && #[trigger] edge(blocks, order, q, i) ==> d[q][j]) ==> d[i][j],
{
    assert(d[i][j] == dom_rule(blocks, order, entry, d, i, j));
    if order[i] != entry && d[i][j] && j != i && edge(blocks, order, p, i) {
        assert(has_pred(blocks, order, i));
    }
}

/// The entry block dominates every block.
pub proof fn lemma_entry_dominates_all(blocks: Map<u32, BasicBlock>, order: Seq<u32>, entry: u32, d: Seq<Seq<bool>>, e: int, i: int)
    requires
        greatest_dominators(blocks, order, entry, d),
        order.no_duplicates(),
        0 <= e < order.len(),
        order[e] == entry,
        0 <= i < order.len(),
    ensures
        d[i][e],
{
    let n = order.len() as int;
    let d2 = Seq::new(order.len(), |i2: int| Seq::new(order.len(), |j: int| j == e || d[i2][j]));
    assert forall|i2: int, j: int| 0 <= i2 < n && 0 <= j < n implies #[trigger] d2[i2][j] == dom_rule(blocks, order, entry, d2, i2, j) by {
        assert(d[i2][j] == dom_rule(blocks, order, entry, d, i2, j));
        if order[i2] == entry {
            assert(i2 == e);
        } else if has_pred(blocks, order, i2) {
            if j != e {
                assert(meet(blocks, order, d2, i2, j) == meet(blocks, order, d, i2, j)) by {
                    assert forall|p: int| 0 <= p < order.len() && #[trigger] edge(blocks, order, p, i2) implies (d2[p][j] == d[p][j]) by {}
                }
            }
        }
    }
    assert(square(d2, n));
    assert(dom_solution(blocks, order, entry, d2));
    assert(below(d2, d, n));
    assert(d2[i][e]);
}


// ---------------------------------------------------------------------------
// Loops.

/// A natural loop: its header, the blocks of its body (the header among
/// them), the block outside it that passes control to the header, if any,
/// and the blocks outside it that its body passes control to.
#[derive(Debug, Clone, PartialEq, Eq)]
pub struct LoopInfo {
    pub header: BlockId,
    pub body: Vec<BlockId>,
    pub preheader: Option<BlockId>,
    pub exits: Vec<BlockId>,
}

/// Whether `s` holds the header and the latch, and every block that passes
/// control to a block of `s` other than the header.
pub open spec fn body_closed(blocks: Map<u32, BasicBlock>, header: u32, latch: u32, s: Set<u32>) -> bool {
    &&& s.contains(header)
    &&& s.contains(latch)
    &&& forall|x: u32, p: u32| s.contains(x) && x != header && #[trigger] passes_to(blocks, p, x) ==> s.contains(p)
}

/// The body of the loop that the edge from `latch` back to `header` closes:
/// the least set that `body_closed` accepts.
pub open spec fn loop_body(blocks: Map<u32, BasicBlock>, header: u32, latch: u32, s: Set<u32>) -> bool {
    &&& body_closed(blocks, header, latch, s)
    &&& forall|s2: Set<u32>| #[trigger] body_closed(blocks, header, latch, s2) ==> s.subset_of(s2)
}

/// The first of `ps` that `s` lacks.
pub open spec fn first_outside(ps: Seq<u32>, s: Set<u32>) -> Option<u32>
    decreases ps.len(),
{
    if ps.len() == 0 {
        None
    } else if !s.contains(ps[0]) {
        Some(ps[0])
    } else {
        first_outside(ps.drop_first(), s)
    }
}

/// The blocks outside `s` that a block of `s` passes control to.
pub open spec fn loop_exits(blocks: Map<u32, BasicBlock>, s: Set<u32>) -> Set<u32> {
    Set::new(|t: u32| !s.contains(t) && exists|x: u32| s.contains(x) && #[trigger] passes_to(blocks, x, t))
}

/// Whether `l` describes the loop that the edge from `latch` back to
/// `header` closes: its body, the first predecessor of the header in key
/// order outside the body, and the exits.
pub open spec fn loop_info_of(blocks: Map<u32, BasicBlock>, order: Seq<u32>, l: LoopInfo, header: u32, latch: u32) -> bool {
    let body = block_ids(l.body@).to_set();
    &&& l.header == BlockId(header)
    &&& block_ids(l.body@).no_duplicates()
    &&& loop_body(blocks, header, latch, body)
    &&& l.preheader == (match first_outside(preds_in(blocks, order, header), body) {
        Some(p) => Some(BlockId(p)),
        None => None,
    })
    &&& block_ids(l.exits@).no_duplicates()
    &&& block_ids(l.exits@).to_set() == loop_exits(blocks, body)
}

/// The blocks that `preds_in` lists are those of `order` that pass control to `b`.
pub proof fn lemma_preds_in(blocks: Map<u32, BasicBlock>, order: Seq<u32>, b: u32, p: u32)
    ensures
        preds_in(blocks, order, b).contains(p) <==> (order.contains(p) && passes_to(blocks, p, b)),
    decreases order.len(),
{
    if order.len() > 0 {
        let rest = order.drop_last();
        lemma_preds_in(blocks, rest, b, p);
        let r = preds_in(blocks, rest, b);
        if order.contains(p) && p != order.last() {
            let j = choose|j: int| 0 <= j < order.len() && order[j] == p;
            assert(rest[j] == p);
        }
        if rest.contains(p) {
            let j = choose|j: int| 0 <= j < rest.len() && rest[j] == p;
            assert(order[j] == p);
        }
        if passes_to(blocks, order.last(), b) {
            if r.contains(p) {
                let j = choose|j: int| 0 <= j < r.len() && r[j] == p;
                assert(r.push(order.last())[j] == p);
            }
            if r.push(order.last()).contains(p) && p != order.last() {
                let j = choose|j: int| 0 <= j < r.push(order.last()).len() && r.push(order.last())[j] == p;
                assert(r[j] == p);
            }
            assert(r.push(order.last())[r.len() as int] == order.last());
        }
    }
}

/// The body of the loop that the edge from `latch` back to `header` closes,
/// each block once, as `loop_body` says: from the latch, the blocks that pass
/// control to a block found so far, not going past the header.
fn loop_body_of(func: &Function, header: BlockId, latch: BlockId) -> (r: Vec<BlockId>)
    requires
        func.blocks@.contains_key(header.0),
        func.blocks@.contains_key(latch.0),
    ensures
        block_ids(r@).no_duplicates(),
        loop_body(func.blocks@, header.0, latch.0, block_ids(r@).to_set()),
{
    let ghost bl = func.blocks@;
    let ghost order = func.blocks.key_order();
    let n = func.blocks.keys().len();
    proof {
        order.unique_seq_to_set();
    }
    let mut body: Vec<BlockId> = Vec::new();
    let mut work: Vec<BlockId> = Vec::new();
    body.push(header);
    if latch.0 != header.0 {
        body.push(latch);
        work.push(latch);
    }
    proof {
        assert(block_ids(body@).contains(header.0)) by {
            assert(block_ids(body@)[0] == header.0);
        }
        assert(block_ids(body@).contains(latch.0)) by {
            if latch.0 != header.0 {
                assert(block_ids(body@)[1] == latch.0);
            }
        }
        assert forall|x: u32| #[trigger] block_ids(work@).contains(x) implies block_ids(body@).contains(x) by {
            if block_ids(work@).contains(x) {
                assert(block_ids(body@)[1] == x);
            }
        }
        assert forall|x: u32| #[trigger] block_ids(body@).contains(x) implies bl.contains_key(x) by {
            let j = choose|j: int| 0 <= j < block_ids(body@).len() && block_ids(body@)[j] == x;
        }
        assert forall|x: u32| #[trigger] block_ids(body@).contains(x) && x != header.0 implies block_ids(work@).contains(x) by {
            let j = choose|j: int| 0 <= j < block_ids(body@).len() && block_ids(body@)[j] == x;
            assert(block_ids(work@)[0] == x);
        }
        assert(!block_ids(work@).contains(header.0)) by {
            if block_ids(work@).contains(header.0) {
                let j = choose|j: int| 0 <= j < block_ids(work@).len() && block_ids(work@)[j] == header.0;
            }
        }
    }
    while work.len() > 0
        invariant
            bl == func.blocks@,
            order == func.blocks.key_order(),
            order.to_set() == bl.dom(),
            order.len() == n,
            order.to_set().len() == n,
            bl.contains_key(header.0),
            block_ids(body@).no_duplicates(),
            block_ids(work@).no_duplicates(),
            !block_ids(work@).contains(header.0),
            block_ids(body@).contains(header.0),
            block_ids(body@).contains(latch.0),
            forall|x: u32| #[trigger] block_ids(body@).contains(x) ==> bl.contains_key(x),
            forall|x: u32| #[trigger] block_ids(work@).contains(x) ==> block_ids(body@).contains(x),
            forall|x: u32, p: u32| block_ids(body@).contains(x) && x != header.0 && !block_ids(work@).contains(x)
                && #[trigger] passes_to(bl, p, x) ==> block_ids(body@).contains(p),
            forall|s2: Set<u32>| #[trigger] body_closed(bl, header.0, latch.0, s2) ==> block_ids(body@).to_set().subset_of(s2),
        decreases 2 * (n - body@.len()) + work@.len(),
    {
        proof {
            assert(block_ids(body@).to_set().subset_of(order.to_set()));
            vstd::set_lib::lemma_len_subset(block_ids(body@).to_set(), order.to_set());
            block_ids(body@).unique_seq_to_set();
        }
        let ghost w_before = work@;
        let x = work.pop().unwrap();
        let ghost w_after = block_ids(work@);
        proof {
            assert(w_before == work@.push(x));
            assert(block_ids(w_before) =~= block_ids(work@).push(x.0));
            assert(block_ids(w_before)[block_ids(work@).len() as int] == x.0);
            assert(block_ids(w_before).contains(x.0));
            assert(block_ids(body@).contains(x.0));
            assert(x.0 != header.0);
            assert(!block_ids(work@).contains(x.0)) by {
                if block_ids(work@).contains(x.0) {
                    let j = choose|j: int| 0 <= j < block_ids(work@).len() && block_ids(work@)[j] == x.0;
                    assert(block_ids(w_before)[j] == x.0);
                }
            }
            assert forall|y: u32| #[trigger] block_ids(work@).contains(y) implies block_ids(w_before).contains(y) by {
                let j = choose|j: int| 0 <= j < block_ids(work@).len() && block_ids(work@)[j] == y;
                assert(block_ids(w_before)[j] == y);
            }
            assert forall|a: int, b: int| 0 <= a < b < block_ids(work@).len() implies block_ids(work@)[a] != block_ids(work@)[b] by {
                assert(block_ids(work@)[a] == block_ids(w_before)[a]);
                assert(block_ids(work@)[b] == block_ids(w_before)[b]);
            }
            assert(block_ids(work@).no_duplicates());
            assert(!block_ids(work@).contains(header.0)) by {
                if block_ids(work@).contains(header.0) {
                    assert(block_ids(w_before).contains(header.0));
                }
            }
        }
        let ps = get_predecessors(func, x);
        let ghost body0 = block_ids(body@);
        let mut k: usize = 0;
        while k < ps.len()
            invariant
                bl == func.blocks@,
                order == func.blocks.key_order(),
                order.to_set() == bl.dom(),
                order.len() == n,
                order.to_set().len() == n,
                bl.contains_key(header.0),
                block_ids(ps@) == preds_in(bl, order, x.0),
                k <= ps@.len(),
                block_ids(body@).no_duplicates(),
                block_ids(work@).no_duplicates(),
                !block_ids(work@).contains(header.0),
                x.0 != header.0,
                block_ids(body@).contains(header.0),
                block_ids(body@).contains(latch.0),
                block_ids(body@).contains(x.0),
                !block_ids(work@).contains(x.0) || x.0 == header.0,
                forall|y: u32| #[trigger] body0.contains(y) ==> block_ids(body@).contains(y),
                body@.len() - body0.len() == work@.len() - w_after.len(),
                work@.len() >= w_after.len(),
                forall|y: u32| #[trigger] block_ids(body@).contains(y) ==> bl.contains_key(y),
                forall|y: u32| #[trigger] block_ids(work@).contains(y) ==> block_ids(body@).contains(y),
                forall|y: u32, p: u32| block_ids(body@).contains(y) && y != header.0 && y != x.0 && !block_ids(work@).contains(y)
                    && #[trigger] passes_to(bl, p, y) ==> block_ids(body@).contains(p),
                forall|j: int| 0 <= j < k ==> #[trigger] block_ids(body@).contains(block_ids(ps@)[j]),
                forall|s2: Set<u32>| #[trigger] body_closed(bl, header.0, latch.0, s2) ==> block_ids(body@).to_set().subset_of(s2),
            decreases ps@.len() - k,
        {
            let p = ps[k];
            proof {
                assert(block_ids(ps@)[k as int] == p.0);
                assert(preds_in(bl, order, x.0).contains(p.0));
                lemma_preds_in(bl, order, x.0, p.0);
            }
            if p.0 != header.0 && !contains_block(&body, p.0) {
                let ghost b0 = block_ids(body@);
                let ghost w0 = block_ids(work@);
                body.push(p);
                work.push(p);
                proof {
                    assert(block_ids(body@) =~= b0.push(p.0));
                    assert(block_ids(work@) =~= w0.push(p.0));
                    assert(block_ids(body@)[b0.len() as int] == p.0);
                    assert(block_ids(work@)[w0.len() as int] == p.0);
                    assert forall|y: u32| #[trigger] b0.contains(y) implies block_ids(body@).contains(y) by {
                        let j = choose|j: int| 0 <= j < b0.len() && b0[j] == y;
                        assert(block_ids(body@)[j] == y);
                    }
                    assert forall|y: u32| #[trigger] block_ids(body@).contains(y) implies (y == p.0 || b0.contains(y)) by {
                        let j = choose|j: int| 0 <= j < block_ids(body@).len() && block_ids(body@)[j] == y;
                        if j < b0.len() {
                            assert(b0[j] == y);
                        }
                    }
                    assert forall|y: u32| #[trigger] w0.contains(y) implies block_ids(work@).contains(y) by {
                        let j = choose|j: int| 0 <= j < w0.len() && w0[j] == y;
                        assert(block_ids(work@)[j] == y);
                    }
                    assert forall|y: u32| #[trigger] block_ids(work@).contains(y) implies (y == p.0 || w0.contains(y)) by {
                        let j = choose|j: int| 0 <= j < block_ids(work@).len() && block_ids(work@)[j] == y;
                        if j < w0.len() {
                            assert(w0[j] == y);
                        }
                    }
                    assert(!w0.contains(p.0));
                    assert(!block_ids(work@).contains(header.0)) by {
                        if block_ids(work@).contains(header.0) {
                            assert(w0.contains(header.0));
                        }
                    }
                    assert forall|a: int, b: int| 0 <= a < b < block_ids(work@).len() implies block_ids(work@)[a] != block_ids(work@)[b] by {
                        if b == w0.len() {
                            assert(w0.contains(block_ids(work@)[a]));
                        }
                    }
                    assert forall|a: int, b: int| 0 <= a < b < block_ids(body@).len() implies block_ids(body@)[a] != block_ids(body@)[b] by {
                        if b == b0.len() {
                            assert(b0.contains(block_ids(body@)[a]));
                        }
                    }
                    assert forall|s2: Set<u32>| #[trigger] body_closed(bl, header.0, latch.0, s2) implies block_ids(body@).to_set().subset_of(s2) by {
                        assert(b0.to_set().subset_of(s2));
                        assert(b0.contains(x.0));
                        assert(s2.contains(x.0));
                        assert(passes_to(bl, p.0, x.0));
                        assert(s2.contains(p.0));
                    }
                    assert forall|j: int| 0 <= j < k + 1 implies #[trigger] block_ids(body@).contains(block_ids(ps@)[j]) by {
                        if j < k {
                            assert(b0.contains(block_ids(ps@)[j]));
                        }
                    }
                }
            } else {
                proof {
                    assert(block_ids(body@).contains(p.0));
                }
            }
            k = k + 1;
        }
        proof {
            assert forall|y: u32, p: u32| block_ids(body@).contains(y) && y != header.0 && !block_ids(work@).contains(y)
                && #[trigger] passes_to(bl, p, y) implies block_ids(body@).contains(p) by {
                if y == x.0 {
                    lemma_preds_in(bl, order, x.0, p);
                    assert(order.to_set().contains(p));
                    assert(preds_in(bl, order, x.0).contains(p));
                    let j = choose|j: int| 0 <= j < block_ids(ps@).len() && block_ids(ps@)[j] == p;
                    assert(block_ids(body@).contains(block_ids(ps@)[j]));
                }
            }
            assert(block_ids(body@).to_set().subset_of(order.to_set()));
            vstd::set_lib::lemma_len_subset(block_ids(body@).to_set(), order.to_set());
            block_ids(body@).unique_seq_to_set();
            assert(body@.len() <= n);
        }
    }
    proof {
        let b = block_ids(body@);
        assert forall|x: u32, p: u32| b.to_set().contains(x) && x != header.0 && #[trigger] passes_to(bl, p, x) implies b.to_set().contains(p) by {
            assert(b.contains(x));
            assert(!block_ids(work@).contains(x)) by {
                assert(block_ids(work@) =~= Seq::<u32>::empty());
            }
        }
        assert(body_closed(bl, header.0, latch.0, b.to_set()));
    }
    body
}

/// The first block of `ps` that `body` lacks, as `first_outside` says.
fn first_outside_of(ps: &Vec<BlockId>, body: &Vec<BlockId>) -> (r: Option<BlockId>)
    ensures
        (match r {
            Some(b) => Some(b.0),
            None => None,
        }) == first_outside(block_ids(ps@), block_ids(body@).to_set()),
{
    let ghost ids = block_ids(ps@);
    let ghost set = block_ids(body@).to_set();
    let mut k: usize = 0;
    proof {
        assert(ids.skip(0) =~= ids);
    }
    while k < ps.len()
        invariant
            ids == block_ids(ps@),
            set == block_ids(body@).to_set(),
            k <= ps@.len(),
            first_outside(ids, set) == first_outside(ids.skip(k as int), set),
        decreases ps@.len() - k,
    {
        proof {
            assert(ids.skip(k as int)[0] == ids[k as int]);
            assert(ids.skip(k as int).drop_first() =~= ids.skip(k + 1));
        }
        if !contains_block(body, ps[k].0) {
            return Some(ps[k]);
        }
        k = k + 1;
    }
    proof {
        assert(ids.skip(k as int).len() == 0);
    }
    None
}

/// Whether a block among the first `i` of `b` passes control to `t`.
pub open spec fn reached_from(blocks: Map<u32, BasicBlock>, b: Seq<u32>, i: int, t: u32) -> bool {
    exists|i2: int| 0 <= i2 < i && #[trigger] passes_to(blocks, b[i2], t)
}

/// The blocks outside `body` that a block of `body` passes control to, each
/// once, as `loop_exits` says.
fn exits_of(func: &Function, body: &Vec<BlockId>) -> (r: Vec<BlockId>)
    requires
        forall|x: u32| #[trigger] block_ids(body@).contains(x) ==> func.blocks@.contains_key(x),
    ensures
        block_ids(r@).no_duplicates(),
        block_ids(r@).to_set() == loop_exits(func.blocks@, block_ids(body@).to_set()),
{
    let ghost bl = func.blocks@;
    let ghost b = block_ids(body@);
    let mut r: Vec<BlockId> = Vec::new();
    let mut i: usize = 0;
    while i < body.len()
        invariant
            bl == func.blocks@,
            b == block_ids(body@),
            forall|x: u32| #[trigger] b.contains(x) ==> bl.contains_key(x),
            i <= b.len(),
            block_ids(r@).no_duplicates(),
            forall|t: u32| #[trigger] block_ids(r@).contains(t) <==> (!b.contains(t) && reached_from(bl, b, i as int, t)),
        decreases b.len() - i,
    {
        let x = body[i];
        proof {
            assert(b[i as int] == x.0);
            assert(b.contains(x.0));
        }
        let succ = match func.blocks.get(&x) {
            Some(blk) => match &blk.terminator {
                Some(t) => terminator_successors(t),
                None => Vec::new(),
            },
            None => Vec::new(),
        };
        proof {
            assert(succ@ == successors(bl[x.0])) by {
                if bl[x.0].terminator is None {
                    assert(succ@ =~= successors(bl[x.0]));
                }
            }
        }
        let mut j: usize = 0;
        while j < succ.len()
            invariant
                bl == func.blocks@,
                b == block_ids(body@),
                forall|x2: u32| #[trigger] b.contains(x2) ==> bl.contains_key(x2),
                i < b.len(),
                b[i as int] == x.0,
                bl.contains_key(x.0),
                succ@ == successors(bl[x.0]),
                j <= succ@.len(),
                block_ids(r@).no_duplicates(),
                forall|t: u32| #[trigger] block_ids(r@).contains(t) <==> (!b.contains(t)
                    && (reached_from(bl, b, i as int, t) || block_ids(succ@).take(j as int).contains(t))),
            decreases succ@.len() - j,
        {
            let t = succ[j];
            let ghost r0 = block_ids(r@);
            proof {
                assert(block_ids(succ@).take(j + 1) =~= block_ids(succ@).take(j as int).push(t.0));
            }
            let fresh = !contains_block(body, t.0) && !contains_block(&r, t.0);
            if fresh {
                r.push(t);
                proof {
                    assert(block_ids(r@) =~= r0.push(t.0));
                    assert forall|a: int, c: int| 0 <= a < c < block_ids(r@).len() implies block_ids(r@)[a] != block_ids(r@)[c] by {
                        if c == r0.len() {
                            assert(r0.contains(block_ids(r@)[a]));
                        }
                    }
                }
            }
            proof {
                let tj = block_ids(succ@).take(j as int);
                let tk = block_ids(succ@).take(j + 1);
                assert(tk == tj.push(t.0));
                assert(tk.contains(t.0)) by {
                    assert(tk[j as int] == t.0);
                }
                assert(!fresh ==> block_ids(r@) == r0);
                assert forall|u: u32| #[trigger] block_ids(r@).contains(u) implies (!b.contains(u)
                    && (reached_from(bl, b, i as int, u) || tk.contains(u))) by {
                    if r0.contains(u) {
                        assert(!b.contains(u) && (reached_from(bl, b, i as int, u) || tj.contains(u)));
                        if tj.contains(u) {
                            let m = choose|m: int| 0 <= m < tj.len() && tj[m] == u;
                            assert(tk[m] == u);
                        }
                    } else {
                        assert(fresh);
                        let m = choose|m: int| 0 <= m < block_ids(r@).len() && block_ids(r@)[m] == u;
                        if m < r0.len() {
                            assert(r0[m] == u);
                        }
                        assert(u == t.0);
                    }
                }
                assert forall|u: u32| (!b.contains(u) && (reached_from(bl, b, i as int, u) || tk.contains(u)))
                    implies #[trigger] block_ids(r@).contains(u) by {
                    if reached_from(bl, b, i as int, u) || tj.contains(u) {
                        assert(r0.contains(u));
                        if fresh {
                            let m = choose|m: int| 0 <= m < r0.len() && r0[m] == u;
                            assert(block_ids(r@)[m] == u);
                        }
                    } else {
                        if u != t.0 {
                            let m = choose|m: int| 0 <= m < tk.len() && tk[m] == u;
                            assert(tj[m] == u);
                        }
                        assert(u == t.0);
                        if fresh {
                            assert(block_ids(r@)[r0.len() as int] == u);
                        } else {
                            assert(r0.contains(u));
                        }
                    }
                }
            }
            j = j + 1;
        }
        proof {
            assert(block_ids(succ@).take(succ@.len() as int) =~= block_ids(succ@));
            assert forall|u: u32| #[trigger] block_ids(r@).contains(u) <==> (!b.contains(u) && reached_from(bl, b, i + 1, u)) by {
                if reached_from(bl, b, i + 1, u) && !reached_from(bl, b, i as int, u) {
                    let i2 = choose|i2: int| 0 <= i2 < i + 1 && #[trigger] passes_to(bl, b[i2], u);
                    assert(i2 == i);
                }
                if block_ids(succ@).contains(u) {
                    assert(passes_to(bl, b[i as int], u));
                }
                if reached_from(bl, b, i as int, u) {
                    let i2 = choose|i2: int| 0 <= i2 < i && #[trigger] passes_to(bl, b[i2], u);
                    assert(passes_to(bl, b[i2], u));
                }
            }
        }
        i = i + 1;
    }
    proof {
        let s = b.to_set();
        assert forall|t: u32| #[trigger] block_ids(r@).to_set().contains(t) == loop_exits(bl, s).contains(t) by {
            if reached_from(bl, b, b.len() as int, t) {
                let i2 = choose|i2: int| 0 <= i2 < b.len() && #[trigger] passes_to(bl, b[i2], t);
                assert(s.contains(b[i2]));
            }
            if !s.contains(t) && exists|x: u32| s.contains(x) && #[trigger] passes_to(bl, x, t) {
                let x = choose|x: u32| s.contains(x) && #[trigger] passes_to(bl, x, t);
                let i2 = choose|i2: int| 0 <= i2 < b.len() && b[i2] == x;
                assert(passes_to(bl, b[i2], t));
            }
        }
        assert(block_ids(r@).to_set() =~= loop_exits(bl, s));
    }
    r
}

/// The loop that the edge from `latch` back to `header` closes, as
/// `loop_info_of` says.
pub fn construct_loop_info(func: &Function, header: BlockId, latch: BlockId) -> (r: LoopInfo)
    requires
        func.blocks@.contains_key(header.0),
        func.blocks@.contains_key(latch.0),
    ensures
        loop_info_of(func.blocks@, func.blocks.key_order(), r, header.0, latch.0),
{
    let body = loop_body_of(func, header, latch);
    let preds = get_predecessors(func, header);
    let preheader = first_outside_of(&preds, &body);
    proof {
        assert forall|x: u32| #[trigger] block_ids(body@).contains(x) implies func.blocks@.contains_key(x) by {
            let s2 = func.blocks@.dom();
            assert forall|y: u32, p: u32| s2.contains(y) && y != header.0 && #[trigger] passes_to(func.blocks@, p, y) implies s2.contains(p) by {}
            assert(body_closed(func.blocks@, header.0, latch.0, s2));
            assert(block_ids(body@).to_set().contains(x));
        }
    }
    let exits = exits_of(func, &body);
    LoopInfo { header, body, preheader, exits }
}


/// Whether the table marks block `t` as a dominator of the `i`-th block.
pub open spec fn marks(order: Seq<u32>, d: Seq<Seq<bool>>, i: int, t: u32) -> bool {
    exists|j: int| 0 <= j < order.len() && order[j] == t && #[trigger] d[i][j]
}

/// The edges from the `i`-th block to those of `ts` that dominate it, as
/// (header, latch) pairs, in the order of `ts`.
pub open spec fn back_edges_from(order: Seq<u32>, d: Seq<Seq<bool>>, i: int, ts: Seq<u32>) -> Seq<(u32, u32)>
    decreases ts.len(),
{
    if ts.len() == 0 {
        seq![]
    } else {
        let rest = back_edges_from(order, d, i, ts.drop_last());
        if marks(order, d, i, ts.last()) {
            rest.push((ts.last(), order[i]))
        } else {
            rest
        }
    }
}

/// The back edges of the first `k` blocks, block by block in key order.
pub open spec fn back_edges(blocks: Map<u32, BasicBlock>, order: Seq<u32>, d: Seq<Seq<bool>>, k: int) -> Seq<(u32, u32)>
    decreases k,
{
    if k <= 0 {
        seq![]
    } else {
        back_edges(blocks, order, d, k - 1) + back_edges_from(order, d, k - 1, block_ids(successors(blocks[order[k - 1]])))
    }
}

/// Whether `r` holds, for each back edge of `func` (an edge to a block that
/// dominates its source), the loop that it closes.
pub open spec fn loops_of(func: Function, r: Seq<LoopInfo>) -> bool {
    exists|d: Seq<Seq<bool>>| {
        &&& #[trigger] greatest_dominators(func.blocks@, func.blocks.key_order(), func.entry_block.0, d)
        &&& r.len() == back_edges(func.blocks@, func.blocks.key_order(), d, func.blocks.key_order().len() as int).len()
        &&& forall|m: int| 0 <= m < r.len() ==> loop_info_of(func.blocks@, func.blocks.key_order(), #[trigger] r[m],
            back_edges(func.blocks@, func.blocks.key_order(), d, func.blocks.key_order().len() as int)[m].0,
            back_edges(func.blocks@, func.blocks.key_order(), d, func.blocks.key_order().len() as int)[m].1)
    }
}

/// The loops of `func`: one for each edge to a block that dominates its
/// source, as `loops_of` says.
pub fn detect_loops(func: &Function) -> (r: Vec<LoopInfo>)
    ensures
        loops_of(*func, r@),
{
    let keys = func.blocks.keys();
    let ghost order = func.blocks.key_order();
    let ghost bl = func.blocks@;
    let n = keys.len();
    proof {
        assert forall|j: int| 0 <= j < keys@.len() implies func.blocks@.contains_key(#[trigger] keys@[j].0) by {
            assert(key_views(keys@)[j] == keys@[j].0);
            assert(order.to_set().contains(order[j]));
        }
        assert forall|j: int| 0 <= j < n implies #[trigger] order[j] == keys@[j].0 by {
            assert(key_views(keys@)[j] == keys@[j].0);
        }
    }
    let d = dominator_table(func, &keys);
    let ghost t = table(d@);
    let succ = successor_lists(func, &keys);
    let mut r: Vec<LoopInfo> = Vec::new();
    let mut i: usize = 0;
    while i < n
        invariant
            n == keys@.len(),
            n == order.len(),
            bl == func.blocks@,
            order == func.blocks.key_order(),
            order.no_duplicates(),
            forall|j: int| 0 <= j < n ==> #[trigger] order[j] == keys@[j].0,
            forall|j: int| 0 <= j < keys@.len() ==> func.blocks@.contains_key(#[trigger] keys@[j].0),
            succ@.len() == n,
            forall|j: int| 0 <= j < keys@.len() ==> (#[trigger] succ@[j])@ == successors(func.blocks@[keys@[j].0]),
            t == table(d@),
            square(t, n as int),
            i <= n,
            r@.len() == back_edges(bl, order, t, i as int).len(),
            forall|m: int| 0 <= m < r@.len() ==> loop_info_of(bl, order, #[trigger] r@[m],
                back_edges(bl, order, t, i as int)[m].0, back_edges(bl, order, t, i as int)[m].1),
        decreases n - i,
    {
        let ghost prefix = back_edges(bl, order, t, i as int);
        let ghost ts = block_ids(succ@[i as int]@);
        let ghost r_start = r@;
        proof {
            assert(t[i as int] == d@[i as int]@);
        }
        let mut j: usize = 0;
        while j < succ[i].len()
            invariant
                n == keys@.len(),
                n == order.len(),
                bl == func.blocks@,
                order == func.blocks.key_order(),
                order.no_duplicates(),
                forall|j2: int| 0 <= j2 < n ==> #[trigger] order[j2] == keys@[j2].0,
                forall|j2: int| 0 <= j2 < keys@.len() ==> func.blocks@.contains_key(#[trigger] keys@[j2].0),
                succ@.len() == n,
                t == table(d@),
                square(t, n as int),
                i < n,
                t[i as int] == d@[i as int]@,
                ts == block_ids(succ@[i as int]@),
                j <= ts.len(),
                r@.len() == (prefix + back_edges_from(order, t, i as int, ts.take(j as int))).len(),
                forall|m: int| 0 <= m < r@.len() ==> loop_info_of(bl, order, #[trigger] r@[m],
                    (prefix + back_edges_from(order, t, i as int, ts.take(j as int)))[m].0,
                    (prefix + back_edges_from(order, t, i as int, ts.take(j as int)))[m].1),
            decreases ts.len() - j,
        {
            let target = succ[i][j];
            proof {
                assert(ts[j as int] == target.0);
                assert(ts.take(j + 1).drop_last() =~= ts.take(j as int));
                assert(ts.take(j + 1).last() == target.0);
            }
            let ghost before = prefix + back_edges_from(order, t, i as int, ts.take(j as int));
            match block_index(&keys, target.0) {
                Some(jx) => {
                    proof {
                        assert(order[jx as int] == target.0);
                        assert(marks(order, t, i as int, target.0) == t[i as int][jx as int]) by {
                            if marks(order, t, i as int, target.0) {
                                let j2 = choose|j2: int| 0 <= j2 < order.len() && order[j2] == target.0 && #[trigger] t[i as int][j2];
                                assert(j2 == jx);
                            }
                        }
                    }
                    if d[i][jx] {
                        proof {
                            assert(func.blocks@.contains_key(keys@[jx as int].0));
                            assert(func.blocks@.contains_key(keys@[i as int].0));
                        }
                        let l = construct_loop_info(func, target, keys[i]);
                        r.push(l);
                        proof {
                            let after = prefix + back_edges_from(order, t, i as int, ts.take(j + 1));
                            assert(after =~= before.push((target.0, order[i as int])));
                        }
                    } else {
                        proof {
                            assert(prefix + back_edges_from(order, t, i as int, ts.take(j + 1)) == before);
                        }
                    }
                },
                None => {
                    proof {
                        assert(!marks(order, t, i as int, target.0)) by {
                            if marks(order, t, i as int, target.0) {
                                let j2 = choose|j2: int| 0 <= j2 < order.len() && order[j2] == target.0 && #[trigger] t[i as int][j2];
                                assert(keys@[j2].0 == target.0);
                            }
                        }
                        assert(prefix + back_edges_from(order, t, i as int, ts.take(j + 1)) == before);
                    }
                },
            }
            j = j + 1;
        }
        proof {
            assert(ts.take(ts.len() as int) =~= ts);
            assert(succ@[i as int]@ == successors(func.blocks@[keys@[i as int].0]));
            assert(back_edges(bl, order, t, i + 1) == prefix + back_edges_from(order, t, i as int, ts));
        }
        i = i + 1;
    }
    r
}

} // verus!
