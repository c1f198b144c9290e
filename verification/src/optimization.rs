// Optimization passes: constant folding, dead code elimination.
use vstd::prelude::*;
use std::collections::HashMap;
use std::collections::HashSet;
use crate::ssa::{
    ValueId, SsaValue, SsaValueView, SsaBinOp, SsaUnaryOp, SsaInstruction, InstrView, SsaFunction,
    FuncView, BlockView, instrs_view, blocks_view,
};

verus! {

broadcast use vstd::std_specs::hash::group_hash_axioms;

/// Result of an optimization pass.
#[derive(Debug)]
pub struct OptResult {
    pub instructions_removed: usize,
    pub constants_folded: usize,
}

// ---- Liveness ----

/// The values an instruction needs no matter what: returned values, branch conditions,
/// call arguments, both operands of a store and the address of a load.
pub open spec fn instr_roots(i: InstrView) -> Set<usize> {
    match i {
        InstrView::Return(Some(v)) => set![v],
        InstrView::Branch { cond, .. } => set![cond],
        InstrView::Call { args, .. } => ids_set(args),
        InstrView::Store { addr, value } => set![addr, value],
        InstrView::Load { addr, .. } => set![addr],
        _ => Set::empty(),
    }
}

/// The values an instruction reads to compute its destination, when that is needed.
pub open spec fn instr_uses(i: InstrView) -> Set<usize> {
    match i {
        InstrView::BinOp { left, right, .. } => set![left, right],
        InstrView::UnaryOp { operand, .. } => set![operand],
        InstrView::Copy { source, .. } => set![source],
        InstrView::Phi { sources, .. } => pair_values(sources),
        _ => Set::empty(),
    }
}

/// The destination through which an instruction's uses become needed.
pub open spec fn instr_def(i: InstrView) -> Option<usize> {
    match i {
        InstrView::BinOp { dest, .. } => Some(dest),
        InstrView::UnaryOp { dest, .. } => Some(dest),
        InstrView::Copy { dest, .. } => Some(dest),
        InstrView::Phi { dest, .. } => Some(dest),
        _ => None,
    }
}

pub open spec fn ids_set(s: Seq<usize>) -> Set<usize>
    decreases s.len(),
{
    if s.len() == 0 {
        Set::empty()
    } else {
        ids_set(s.drop_last()).insert(s.last())
    }
}

pub open spec fn pair_values(s: Seq<(usize, usize)>) -> Set<usize>
    decreases s.len(),
{
    if s.len() == 0 {
        Set::empty()
    } else {
        pair_values(s.drop_last()).insert(s.last().1)
    }
}

/// A set of values is closed when it holds every root and, with the destination of an
/// instruction, everything that instruction uses.
pub open spec fn is_closed(f: FuncView, s: Set<usize>) -> bool {
    forall|b: int, k: int|
        0 <= b < f.blocks.len() && 0 <= k < f.blocks[b].instructions.len() ==> {
            let i = #[trigger] f.blocks[b].instructions[k];
            &&& instr_roots(i).subset_of(s)
            &&& (instr_def(i) matches Some(d) && s.contains(d) ==> instr_uses(i).subset_of(s))
        }
}

/// The live values: those in every closed set.
pub open spec fn live_values(f: FuncView) -> Set<usize> {
    Set::new(|v: usize| forall|s: Set<usize>| #[trigger] is_closed(f, s) ==> s.contains(v))
}

/// Whether dead code elimination keeps an instruction: those that define a value are kept
/// when the value is live; calls, stores, loads and control flow always are.
pub open spec fn keeps(live: Set<usize>, i: InstrView) -> bool {
    match i {
        InstrView::Const { dest, .. } => live.contains(dest),
        InstrView::BinOp { dest, .. } => live.contains(dest),
        InstrView::UnaryOp { dest, .. } => live.contains(dest),
        InstrView::Copy { dest, .. } => live.contains(dest),
        InstrView::Phi { dest, .. } => live.contains(dest),
        _ => true,
    }
}

/// The instructions kept, in order.
pub open spec fn kept(live: Set<usize>, s: Seq<InstrView>) -> Seq<InstrView>
    decreases s.len(),
{
    if s.len() == 0 {
        s
    } else if keeps(live, s.last()) {
        kept(live, s.drop_last()).push(s.last())
    } else {
        kept(live, s.drop_last())
    }
}

/// The function without the instructions dead code elimination removes.
pub open spec fn eliminate_dead(f: FuncView) -> FuncView {
    FuncView {
        blocks: Seq::new(
            f.blocks.len(),
            |b: int| BlockView { instructions: kept(live_values(f), f.blocks[b].instructions), ..f.blocks[b] },
        ),
        ..f
    }
}

/// The number of instructions in blocks `0..n`.
pub open spec fn instr_count(blocks: Seq<BlockView>, n: int) -> nat
    decreases n,
{
    if n <= 0 {
        0
    } else {
        instr_count(blocks, n - 1) + blocks[n - 1].instructions.len()
    }
}

pub open spec fn total_instrs(f: FuncView) -> nat {
    instr_count(f.blocks, f.blocks.len() as int)
}

proof fn lemma_ids_set(s: Seq<usize>)
    ensures
        ids_set(s).finite(),
        forall|v: usize| #[trigger] ids_set(s).contains(v) <==> s.contains(v),
    decreases s.len(),
{
    if s.len() > 0 {
        lemma_ids_set(s.drop_last());
        assert forall|v: usize| #[trigger] ids_set(s).contains(v) <==> s.contains(v) by {
            if s.contains(v) {
                let k = choose|k: int| 0 <= k < s.len() && s[k] == v;
                if k < s.len() - 1 {
                    assert(s.drop_last()[k] == v);
                }
            }
            if s.drop_last().contains(v) {
                let k = choose|k: int| 0 <= k < s.drop_last().len() && s.drop_last()[k] == v;
                assert(s[k] == v);
            }
        }
    }
}

proof fn lemma_pair_values(s: Seq<(usize, usize)>)
    ensures
        pair_values(s).finite(),
        forall|v: usize| #[trigger] pair_values(s).contains(v) <==> exists|k: int| 0 <= k < s.len() && s[k].1 == v,
    decreases s.len(),
{
    if s.len() > 0 {
        lemma_pair_values(s.drop_last());
        assert forall|v: usize| #[trigger] pair_values(s).contains(v) <==> exists|k: int| 0 <= k < s.len() && s[k].1 == v by {
            if exists|k: int| 0 <= k < s.len() && s[k].1 == v {
                let k = choose|k: int| 0 <= k < s.len() && s[k].1 == v;
                if k < s.len() - 1 {
                    assert(s.drop_last()[k].1 == v);
                }
            }
            if pair_values(s.drop_last()).contains(v) {
                let k = choose|k: int| 0 <= k < s.drop_last().len() && s.drop_last()[k].1 == v;
                assert(s[k].1 == v);
            }
        }
    }
}

/// The values an instruction mentions as a root or a use.
pub open spec fn instr_vals(i: InstrView) -> Set<usize> {
    instr_roots(i).union(instr_uses(i))
}

proof fn lemma_instr_vals_finite(i: InstrView)
    ensures
        instr_vals(i).finite(),
{
    match i {
        InstrView::Call { args, .. } => lemma_ids_set(args),
        InstrView::Phi { sources, .. } => lemma_pair_values(sources),
        _ => {},
    }
}

/// The values mentioned by instructions `0..n` of a block.
pub open spec fn block_vals(s: Seq<InstrView>, n: int) -> Set<usize>
    decreases n,
{
    if n <= 0 {
        Set::empty()
    } else {
        block_vals(s, n - 1).union(instr_vals(s[n - 1]))
    }
}

/// The values mentioned in blocks `0..n`.
pub open spec fn func_vals(blocks: Seq<BlockView>, n: int) -> Set<usize>
    decreases n,
{
    if n <= 0 {
        Set::empty()
    } else {
        func_vals(blocks, n - 1).union(block_vals(blocks[n - 1].instructions, blocks[n - 1].instructions.len() as int))
    }
}

proof fn lemma_block_vals(s: Seq<InstrView>, n: int)
    requires
        0 <= n <= s.len(),
    ensures
        block_vals(s, n).finite(),
        forall|k: int| 0 <= k < n ==> #[trigger] instr_vals(s[k]).subset_of(block_vals(s, n)),
    decreases n,
{
    if n > 0 {
        lemma_block_vals(s, n - 1);
        lemma_instr_vals_finite(s[n - 1]);
        assert forall|k: int| 0 <= k < n implies #[trigger] instr_vals(s[k]).subset_of(block_vals(s, n)) by {
            if k < n - 1 {
                assert(instr_vals(s[k]).subset_of(block_vals(s, n - 1)));
            }
        }
    }
}

proof fn lemma_func_vals(blocks: Seq<BlockView>, n: int)
    requires
        0 <= n <= blocks.len(),
    ensures
        func_vals(blocks, n).finite(),
        forall|b: int, k: int|
            0 <= b < n && 0 <= k < blocks[b].instructions.len() ==> #[trigger] instr_vals(
                blocks[b].instructions[k],
            ).subset_of(func_vals(blocks, n)),
    decreases n,
{
    if n > 0 {
        lemma_func_vals(blocks, n - 1);
        let last = blocks[n - 1].instructions;
        lemma_block_vals(last, last.len() as int);
        assert forall|b: int, k: int|
            0 <= b < n && 0 <= k < blocks[b].instructions.len() implies #[trigger] instr_vals(
                blocks[b].instructions[k],
            ).subset_of(func_vals(blocks, n)) by {
            if b < n - 1 {
                assert(instr_vals(blocks[b].instructions[k]).subset_of(func_vals(blocks, n - 1)));
            } else {
                assert(instr_vals(last[k]).subset_of(block_vals(last, last.len() as int)));
            }
        }
    }
}

proof fn lemma_instr_count_mono(blocks: Seq<BlockView>, a: int, b: int)
    requires
        0 <= a <= b,
    ensures
        instr_count(blocks, a) <= instr_count(blocks, b),
    decreases b,
{
    if a < b {
        lemma_instr_count_mono(blocks, a, b - 1);
    }
}

/// Whether an instruction is kept, given the live values.
fn keeps_exec(i: &SsaInstruction, used: &HashSet<ValueId>) -> (r: bool)
    ensures
        r == keeps(used@, i@),
{
    match i {
        SsaInstruction::Const { dest, .. } => used.contains(dest),
        SsaInstruction::BinOp { dest, .. } => used.contains(dest),
        SsaInstruction::UnaryOp { dest, .. } => used.contains(dest),
        SsaInstruction::Copy { dest, .. } => used.contains(dest),
        SsaInstruction::Phi(phi) => used.contains(&phi.dest),
        _ => true,
    }
}

/// Dead code elimination optimization pass.
pub struct DeadCodeElimination;

impl DeadCodeElimination {
    /// Insert the roots of one instruction.
    fn add_roots(instr: &SsaInstruction, used: &mut HashSet<ValueId>)
        ensures
            final(used)@ == old(used)@.union(instr_roots(instr@)),
    {
        match instr {
            SsaInstruction::Return(Some(v)) => {
                used.insert(*v);
                assert(final(used)@ =~= old(used)@.union(instr_roots(instr@)));
            },
            SsaInstruction::Branch { cond, .. } => {
                used.insert(*cond);
                assert(final(used)@ =~= old(used)@.union(instr_roots(instr@)));
            },
            SsaInstruction::Call { args, .. } => {
                proof {
                    lemma_ids_set(args@);
                }
                let ghost start = used@;
                let mut j: usize = 0;
                while j < args.len()
                    invariant
                        0 <= j <= args.len(),
                        used@ == start.union(ids_set(args@.take(j as int))),
                    decreases args.len() - j,
                {
                    used.insert(args[j]);
                    proof {
                        assert(args@.take(j + 1).drop_last() =~= args@.take(j as int));
                        assert(used@ =~= start.union(ids_set(args@.take(j + 1))));
                    }
                    j = j + 1;
                }
                assert(args@.take(args.len() as int) =~= args@);
            },
            SsaInstruction::Store { addr, value } => {
                used.insert(*addr);
                used.insert(*value);
                assert(final(used)@ =~= old(used)@.union(instr_roots(instr@)));
            },
            SsaInstruction::Load { addr, .. } => {
                used.insert(*addr);
                assert(final(used)@ =~= old(used)@.union(instr_roots(instr@)));
            },
            _ => {
                assert(final(used)@ =~= old(used)@.union(instr_roots(instr@)));
            },
        }
    }

    /// Insert what one instruction uses when its destination is in the set; whether the
    /// set grew.
    fn add_uses(instr: &SsaInstruction, used: &mut HashSet<ValueId>) -> (changed: bool)
        ensures
            final(used)@ == if instr_def(instr@) matches Some(d) && old(used)@.contains(d) {
                old(used)@.union(instr_uses(instr@))
            } else {
                old(used)@
            },
            changed == (final(used)@ != old(used)@),
    {
        let ghost start = used@;
        match instr {
            SsaInstruction::BinOp { dest, left, right, .. } => {
                if used.contains(dest) {
                    let a = used.insert(*left);
                    let b = used.insert(*right);
                    assert(used@ =~= start.union(instr_uses(instr@)));
                    if !a && !b {
                        assert(used@ =~= start);
                    } else {
                        assert(used@ != start) by {
                            if a {
                                assert(!start.contains(*left) && used@.contains(*left));
                            } else {
                                assert(!start.contains(*right) && used@.contains(*right));
                            }
                        }
                    }
                    a || b
                } else {
                    false
                }
            },
            SsaInstruction::UnaryOp { dest, operand, .. } => {
                if used.contains(dest) {
                    let a = used.insert(*operand);
                    assert(used@ =~= start.union(instr_uses(instr@)));
                    if !a {
                        assert(used@ =~= start);
                    } else {
                        assert(!start.contains(*operand) && used@.contains(*operand));
                    }
                    a
                } else {
                    false
                }
            },
            SsaInstruction::Copy { dest, source } => {
                if used.contains(dest) {
                    let a = used.insert(*source);
                    assert(used@ =~= start.union(instr_uses(instr@)));
                    if !a {
                        assert(used@ =~= start);
                    } else {
                        assert(!start.contains(*source) && used@.contains(*source));
                    }
                    a
                } else {
                    false
                }
            },
            SsaInstruction::Phi(phi) => {
                if used.contains(&phi.dest) {
                    proof {
                        lemma_pair_values(phi.sources@);
                    }
                    let mut changed = false;
                    let mut j: usize = 0;
                    while j < phi.sources.len()
                        invariant
                            0 <= j <= phi.sources@.len(),
                            used@ == start.union(pair_values(phi.sources@.take(j as int))),
                            changed == (used@ != start),
                        decreases phi.sources@.len() - j,
                    {
                        let (_, src) = phi.sources[j];
                        let ghost before = used@;
                        if used.insert(src) {
                            changed = true;
                            assert(!before.contains(src) && used@.contains(src));
                            assert(!start.contains(src));
                        } else {
                            assert(used@ =~= before);
                        }
                        proof {
                            assert(phi.sources@.take(j + 1).drop_last() =~= phi.sources@.take(j as int));
                            assert(used@ =~= start.union(pair_values(phi.sources@.take(j + 1))));
                        }
                        j = j + 1;
                    }
                    assert(phi.sources@.take(phi.sources@.len() as int) =~= phi.sources@);
                    changed
                } else {
                    false
                }
            },
            _ => false,
        }
    }

    /// Eliminate dead code in a function; the number of instructions removed.
    #[verifier::loop_isolation(false)]
    pub fn optimize(func: &mut SsaFunction) -> (removed: usize)
        requires
            total_instrs(old(func)@) <= usize::MAX,
        ensures
            final(func)@ == eliminate_dead(old(func)@),
            removed == total_instrs(old(func)@) - total_instrs(final(func)@),
    {
        let ghost f = func@;
        let ghost universe = func_vals(f.blocks, f.blocks.len() as int);
        proof {
            lemma_func_vals(f.blocks, f.blocks.len() as int);
        }
        // Values used by side-effecting instructions and terminators are live.
        let mut used: HashSet<ValueId> = HashSet::new();
        let mut b: usize = 0;
        while b < func.blocks.len()
            invariant
                func@ == f,
                0 <= b <= func.blocks.len(),
                used@.subset_of(universe),
                forall|s: Set<usize>| #[trigger] is_closed(f, s) ==> used@.subset_of(s),
                forall|bb: int, k: int|
                    0 <= bb < b && 0 <= k < f.blocks[bb].instructions.len() ==> instr_roots(
                        #[trigger] f.blocks[bb].instructions[k],
                    ).subset_of(used@),
            decreases func.blocks.len() - b,
        {
            let mut k: usize = 0;
            while k < func.blocks[b].instructions.len()
                invariant
                    func@ == f,
                    0 <= b < func.blocks.len(),
                    0 <= k <= func.blocks@[b as int].instructions.len(),
                    used@.subset_of(universe),
                    forall|s: Set<usize>| #[trigger] is_closed(f, s) ==> used@.subset_of(s),
                    forall|bb: int, kk: int|
                        0 <= bb < b && 0 <= kk < f.blocks[bb].instructions.len() ==> instr_roots(
                            #[trigger] f.blocks[bb].instructions[kk],
                        ).subset_of(used@),
                    forall|kk: int| 0 <= kk < k ==> instr_roots(#[trigger] f.blocks[b as int].instructions[kk]).subset_of(used@),
                decreases func.blocks@[b as int].instructions.len() - k,
            {
                let ghost i = f.blocks[b as int].instructions[k as int];
                assert(func.blocks@[b as int].instructions@[k as int]@ == i);
                Self::add_roots(&func.blocks[b].instructions[k], &mut used);
                proof {
                    assert(instr_vals(i).subset_of(universe));
                    assert(instr_roots(i).subset_of(instr_vals(i)));
                    assert forall|s: Set<usize>| #[trigger] is_closed(f, s) implies used@.subset_of(s) by {
                        assert(f.blocks[b as int].instructions[k as int] == i);
                    }
                }
                k = k + 1;
            }
            b = b + 1;
        }
        // Propagate: the uses of a live destination are live too.
        let mut changed = true;
        while changed
            invariant
                func@ == f,
                universe.finite(),
                used@.subset_of(universe),
                forall|s: Set<usize>| #[trigger] is_closed(f, s) ==> used@.subset_of(s),
                forall|bb: int, k: int|
                    0 <= bb < f.blocks.len() && 0 <= k < f.blocks[bb].instructions.len() ==> instr_roots(
                        #[trigger] f.blocks[bb].instructions[k],
                    ).subset_of(used@),
                !changed ==> is_closed(f, used@),
            decreases universe.len() - used@.len() + (if changed { 1int } else { 0int }),
        {
            let ghost start = used@;
            proof {
                vstd::set_lib::lemma_len_subset(start, universe);
            }
            changed = false;
            let mut b: usize = 0;
            while b < func.blocks.len()
                invariant
                    func@ == f,
                    0 <= b <= func.blocks.len(),
                    universe.finite(),
                    start.subset_of(used@),
                    used@.subset_of(universe),
                    forall|s: Set<usize>| #[trigger] is_closed(f, s) ==> used@.subset_of(s),
                    forall|bb: int, k: int|
                        0 <= bb < f.blocks.len() && 0 <= k < f.blocks[bb].instructions.len() ==> instr_roots(
                            #[trigger] f.blocks[bb].instructions[k],
                        ).subset_of(used@),
                    !changed ==> used@ == start,
                    changed ==> used@ != start,
                    !changed ==> forall|bb: int, k: int|
                        0 <= bb < b && 0 <= k < f.blocks[bb].instructions.len() ==> ((instr_def(
                            #[trigger] f.blocks[bb].instructions[k],
                        ) matches Some(d) && used@.contains(d)) ==> instr_uses(f.blocks[bb].instructions[k]).subset_of(
                            used@,
                        )),
                decreases func.blocks.len() - b,
            {
                let mut k: usize = 0;
                while k < func.blocks[b].instructions.len()
                    invariant
                        func@ == f,
                        0 <= b < func.blocks.len(),
                        0 <= k <= func.blocks@[b as int].instructions.len(),
                        universe.finite(),
                        start.subset_of(used@),
                        used@.subset_of(universe),
                        forall|s: Set<usize>| #[trigger] is_closed(f, s) ==> used@.subset_of(s),
                        forall|bb: int, kk: int|
                            0 <= bb < f.blocks.len() && 0 <= kk < f.blocks[bb].instructions.len() ==> instr_roots(
                                #[trigger] f.blocks[bb].instructions[kk],
                            ).subset_of(used@),
                        !changed ==> used@ == start,
                        changed ==> used@ != start,
                        !changed ==> forall|bb: int, kk: int|
                            0 <= bb < b && 0 <= kk < f.blocks[bb].instructions.len() ==> ((instr_def(
                                #[trigger] f.blocks[bb].instructions[kk],
                            ) matches Some(d) && used@.contains(d)) ==> instr_uses(f.blocks[bb].instructions[kk]).subset_of(
                                used@,
                            )),
                        !changed ==> forall|kk: int|
                            0 <= kk < k ==> ((instr_def(#[trigger] f.blocks[b as int].instructions[kk]) matches Some(
                                d,
                            ) && used@.contains(d)) ==> instr_uses(f.blocks[b as int].instructions[kk]).subset_of(used@)),
                    decreases func.blocks@[b as int].instructions.len() - k,
                {
                    let ghost i = f.blocks[b as int].instructions[k as int];
                    assert(func.blocks@[b as int].instructions@[k as int]@ == i);
                    let ghost before = used@;
                    if Self::add_uses(&func.blocks[b].instructions[k], &mut used) {
                        changed = true;
                    }
                    proof {
                        assert(instr_vals(i).subset_of(universe));
                        if instr_def(i) matches Some(d) && before.contains(d) {
                            assert forall|s: Set<usize>| #[trigger] is_closed(f, s) implies used@.subset_of(s) by {
                                assert(before.subset_of(s));
                                assert(f.blocks[b as int].instructions[k as int] == i);
                            }
                        }
                        if changed {
                            assert(used@ != start) by {
                                if used@ == start {
                                    assert(before =~= start);
                                }
                            }
                        }
                    }
                    k = k + 1;
                }
                b = b + 1;
            }
            proof {
                vstd::set_lib::lemma_len_subset(used@, universe);
                if changed {
                    assert(exists|x: usize| used@.contains(x) && !start.contains(x)) by {
                        if !(exists|x: usize| used@.contains(x) && !start.contains(x)) {
                            assert(used@ =~= start);
                        }
                    }
                    let x = choose|x: usize| used@.contains(x) && !start.contains(x);
                    assert(start.subset_of(used@.remove(x)));
                    vstd::set_lib::lemma_len_subset(start, used@.remove(x));
                }
            }
        }
        let ghost live = used@;
        proof {
            assert(live =~= live_values(f)) by {
                assert forall|v: usize| live.contains(v) implies live_values(f).contains(v) by {
                    assert forall|s: Set<usize>| #[trigger] is_closed(f, s) implies s.contains(v) by {}
                }
                assert forall|v: usize| live_values(f).contains(v) implies live.contains(v) by {
                    assert(is_closed(f, live));
                }
            }
        }
        // Remove unused instructions (except side-effecting ones and terminators).
        let mut removed: usize = 0;
        let mut b: usize = 0;
        while b < func.blocks.len()
            invariant
                0 <= b <= func.blocks.len(),
                func.blocks.len() == f.blocks.len(),
                func@.name == f.name,
                func@.params == f.params,
                func@.entry == f.entry,
                func@.next_value == f.next_value,
                used@ == live_values(f),
                forall|bb: int| 0 <= bb < b ==> #[trigger] func@.blocks[bb] == eliminate_dead(f).blocks[bb],
                forall|bb: int| b <= bb < f.blocks.len() ==> #[trigger] func@.blocks[bb] == f.blocks[bb],
                removed == instr_count(f.blocks, b as int) - instr_count(func@.blocks, b as int),
                instr_count(func@.blocks, b as int) <= instr_count(f.blocks, b as int),
                total_instrs(f) <= usize::MAX,
            decreases func.blocks.len() - b,
        {
            let original_len = func.blocks[b].instructions.len();
            let ghost orig = f.blocks[b as int].instructions;
            assert(func@.blocks[b as int] == func.blocks@[b as int]@);
            let mut kept_instrs: Vec<SsaInstruction> = Vec::new();
            let mut k: usize = 0;
            while k < func.blocks[b].instructions.len()
                invariant
                    0 <= k <= func.blocks@[b as int].instructions.len(),
                    b < func.blocks.len(),
                    func.blocks@[b as int]@ == f.blocks[b as int],
                    orig == f.blocks[b as int].instructions,
                    instrs_view(kept_instrs@) == kept(live_values(f), orig.take(k as int)),
                    used@ == live_values(f),
                decreases func.blocks@[b as int].instructions.len() - k,
            {
                assert(func.blocks@[b as int].instructions@[k as int]@ == orig[k as int]);
                if keeps_exec(&func.blocks[b].instructions[k], &used) {
                    let c = func.blocks[b].instructions[k].clone();
                    proof {
                        assert(instrs_view(kept_instrs@.push(c)) =~= instrs_view(kept_instrs@).push(c@));
                    }
                    kept_instrs.push(c);
                }
                proof {
                    assert(orig.take(k + 1).drop_last() =~= orig.take(k as int));
                }
                k = k + 1;
            }
            assert(orig.take(orig.len() as int) =~= orig);
            proof {
                lemma_kept_len(live_values(f), orig);
                lemma_instr_count_mono(f.blocks, b + 1, f.blocks.len() as int);
            }
            let new_len = kept_instrs.len();
            let ghost before_blocks = func@.blocks;
            func.blocks[b].instructions = kept_instrs;
            proof {
                assert(func@.blocks =~= before_blocks.update(b as int, eliminate_dead(f).blocks[b as int]));
                lemma_instr_count_frame(before_blocks, func@.blocks, b as int);
            }
            removed = removed + (original_len - new_len);
            b = b + 1;
        }
        proof {
            assert(func@.blocks =~= eliminate_dead(f).blocks);
        }
        removed
    }
}

proof fn lemma_kept_len(live: Set<usize>, s: Seq<InstrView>)
    ensures
        kept(live, s).len() <= s.len(),
    decreases s.len(),
{
    if s.len() > 0 {
        lemma_kept_len(live, s.drop_last());
    }
}

/// The instructions kept are instructions of the list, each one that is kept.
proof fn lemma_kept_members(live: Set<usize>, s: Seq<InstrView>)
    ensures
        forall|k: int| 0 <= k < kept(live, s).len() ==> keeps(live, #[trigger] kept(live, s)[k]) && s.contains(
            kept(live, s)[k],
        ),
        forall|j: int| 0 <= j < s.len() && keeps(live, #[trigger] s[j]) ==> kept(live, s).contains(s[j]),
    decreases s.len(),
{
    if s.len() > 0 {
        let t = s.drop_last();
        lemma_kept_members(live, t);
        let kt = kept(live, t);
        let ks = kept(live, s);
        assert forall|k: int| 0 <= k < ks.len() implies keeps(live, #[trigger] ks[k]) && s.contains(ks[k]) by {
            if k < kt.len() {
                assert(ks[k] == kt[k]);
                let j = choose|j: int| 0 <= j < t.len() && t[j] == kt[k];
                assert(s[j] == t[j]);
            } else {
                assert(ks[k] == s.last());
                assert(s[s.len() - 1] == s.last());
            }
        }
        assert forall|j: int| 0 <= j < s.len() && keeps(live, #[trigger] s[j]) implies ks.contains(s[j]) by {
            if j < s.len() - 1 {
                assert(s[j] == t[j]);
                let k = choose|k: int| 0 <= k < kt.len() && kt[k] == t[j];
                assert(ks[k] == kt[k]);
            } else {
                assert(ks[ks.len() - 1] == s.last());
            }
        }
    }
}

/// Keeping again what was kept changes nothing.
proof fn lemma_kept_twice(live: Set<usize>, s: Seq<InstrView>)
    ensures
        kept(live, kept(live, s)) == kept(live, s),
    decreases s.len(),
{
    if s.len() > 0 {
        lemma_kept_twice(live, s.drop_last());
        let kt = kept(live, s.drop_last());
        if keeps(live, s.last()) {
            assert(kt.push(s.last()).drop_last() =~= kt);
        }
    }
}

/// The live values are closed: they are in every closed set and form one.
proof fn lemma_live_closed(f: FuncView)
    ensures
        is_closed(f, live_values(f)),
{
    let l = live_values(f);
    assert forall|b: int, k: int| 0 <= b < f.blocks.len() && 0 <= k < f.blocks[b].instructions.len() implies {
        let i = #[trigger] f.blocks[b].instructions[k];
        &&& instr_roots(i).subset_of(l)
        &&& (instr_def(i) matches Some(d) && l.contains(d) ==> instr_uses(i).subset_of(l))
    } by {
        let i = f.blocks[b].instructions[k];
        assert forall|v: usize| instr_roots(i).contains(v) implies l.contains(v) by {
            assert forall|s: Set<usize>| #[trigger] is_closed(f, s) implies s.contains(v) by {
                assert(instr_roots(f.blocks[b].instructions[k]).subset_of(s));
            }
        }
        if let Some(d) = instr_def(i) {
            if l.contains(d) {
                assert forall|v: usize| instr_uses(i).contains(v) implies l.contains(v) by {
                    assert forall|s: Set<usize>| #[trigger] is_closed(f, s) implies s.contains(v) by {
                        assert(s.contains(d));
                        assert(instr_uses(f.blocks[b].instructions[k]).subset_of(s));
                    }
                }
            }
        }
    }
}

/// Dead code elimination leaves nothing dead: the values live after it are those live
/// before, so running it again removes nothing.
pub proof fn lemma_eliminate_dead_twice(f: FuncView)
    ensures
        live_values(eliminate_dead(f)) == live_values(f),
        eliminate_dead(eliminate_dead(f)) == eliminate_dead(f),
{
    let l = live_values(f);
    let g = eliminate_dead(f);
    lemma_live_closed(f);
    assert forall|b: int| 0 <= b < f.blocks.len() implies #[trigger] g.blocks[b].instructions == kept(
        l,
        f.blocks[b].instructions,
    ) by {}
    // The live values are closed in what is left.
    assert(is_closed(g, l)) by {
        assert forall|b: int, k: int| 0 <= b < g.blocks.len() && 0 <= k < g.blocks[b].instructions.len() implies {
            let i = #[trigger] g.blocks[b].instructions[k];
            &&& instr_roots(i).subset_of(l)
            &&& (instr_def(i) matches Some(d) && l.contains(d) ==> instr_uses(i).subset_of(l))
        } by {
            let s = f.blocks[b].instructions;
            lemma_kept_members(l, s);
            let j = choose|j: int| 0 <= j < s.len() && s[j] == kept(l, s)[k];
            assert(g.blocks[b].instructions[k] == f.blocks[b].instructions[j]);
        }
    }
    // Every set closed in what is left holds the live values.
    assert forall|t: Set<usize>| #[trigger] is_closed(g, t) implies l.subset_of(t) by {
        let u = t.intersect(l);
        assert(is_closed(f, u)) by {
            assert forall|b: int, k: int| 0 <= b < f.blocks.len() && 0 <= k < f.blocks[b].instructions.len() implies {
                let i = #[trigger] f.blocks[b].instructions[k];
                &&& instr_roots(i).subset_of(u)
                &&& (instr_def(i) matches Some(d) && u.contains(d) ==> instr_uses(i).subset_of(u))
            } by {
                let s = f.blocks[b].instructions;
                let i = s[k];
                lemma_kept_members(l, s);
                if keeps(l, i) {
                    let m = choose|m: int| 0 <= m < kept(l, s).len() && kept(l, s)[m] == s[k];
                    assert(g.blocks[b].instructions[m] == i);
                }
            }
        }
        assert(l.subset_of(u));
    }
    assert(live_values(g) =~= l) by {
        assert forall|v: usize| live_values(g).contains(v) implies l.contains(v) by {
            assert(is_closed(g, l));
        }
        assert forall|v: usize| l.contains(v) implies live_values(g).contains(v) by {
            assert forall|t: Set<usize>| #[trigger] is_closed(g, t) implies t.contains(v) by {
                assert(l.subset_of(t));
            }
        }
    }
    assert forall|b: int| 0 <= b < g.blocks.len() implies #[trigger] eliminate_dead(g).blocks[b] == g.blocks[b] by {
        lemma_kept_twice(l, f.blocks[b].instructions);
    }
    assert(eliminate_dead(g).blocks =~= g.blocks);
}

/// The value an instruction defines, if any.
pub open spec fn defines(i: InstrView) -> Option<usize> {
    match i {
        InstrView::Const { dest, .. } => Some(dest),
        InstrView::BinOp { dest, .. } => Some(dest),
        InstrView::UnaryOp { dest, .. } => Some(dest),
        InstrView::Copy { dest, .. } => Some(dest),
        InstrView::Phi { dest, .. } => Some(dest),
        InstrView::Load { dest, .. } => Some(dest),
        InstrView::Call { dest, .. } => dest,
        _ => None,
    }
}

/// The values a kept instruction reads: its roots, and what it uses.
pub open spec fn reads(i: InstrView) -> Set<usize> {
    instr_roots(i).union(instr_uses(i))
}

/// Dead code elimination removes no definition that a kept instruction reads: for every
/// instruction left in block `b`, every instruction of `f` that defines a value it reads
/// is left too.
pub proof fn lemma_kept_reads_defined(f: FuncView, b: int, k: int, b2: int, k2: int)
    requires
        0 <= b < f.blocks.len(),
        0 <= k < eliminate_dead(f).blocks[b].instructions.len(),
        0 <= b2 < f.blocks.len(),
        0 <= k2 < f.blocks[b2].instructions.len(),
        defines(f.blocks[b2].instructions[k2]) matches Some(v) && reads(eliminate_dead(f).blocks[b].instructions[k]).contains(
            v,
        ),
    ensures
        keeps(live_values(f), f.blocks[b2].instructions[k2]),
        eliminate_dead(f).blocks[b2].instructions.contains(f.blocks[b2].instructions[k2]),
{
    let l = live_values(f);
    lemma_live_closed(f);
    let s = f.blocks[b].instructions;
    lemma_kept_members(l, s);
    let i = eliminate_dead(f).blocks[b].instructions[k];
    assert(i == kept(l, s)[k]);
    let j = choose|j: int| 0 <= j < s.len() && s[j] == kept(l, s)[k];
    assert(f.blocks[b].instructions[j] == i);
    let v = defines(f.blocks[b2].instructions[k2])->0;
    // What a kept instruction reads is live.
    assert(l.contains(v)) by {
        if instr_roots(i).contains(v) {
        } else {
            assert(instr_uses(i).contains(v));
            assert(keeps(l, i));
        }
    }
    lemma_kept_members(l, f.blocks[b2].instructions);
}

/// `v` is one of the values the instruction names as an operand: an operand of an
/// arithmetic or unary operation, the source of a copy, a phi's incoming value, a call
/// argument, a returned value, a branch condition, or the address or value of a memory
/// access.
pub open spec fn operand_of(i: InstrView, v: usize) -> bool {
    match i {
        InstrView::BinOp { left, right, .. } => v == left || v == right,
        InstrView::UnaryOp { operand, .. } => v == operand,
        InstrView::Copy { source, .. } => v == source,
        InstrView::Phi { sources, .. } => exists|k: int| 0 <= k < sources.len() && sources[k].1 == v,
        InstrView::Call { args, .. } => exists|k: int| 0 <= k < args.len() && args[k] == v,
        InstrView::Return(r) => r == Some(v),
        InstrView::Branch { cond, .. } => v == cond,
        InstrView::Load { addr, .. } => v == addr,
        InstrView::Store { addr, value } => v == addr || v == value,
        _ => false,
    }
}

proof fn lemma_operands_are_read(i: InstrView, v: usize)
    requires
        operand_of(i, v),
    ensures
        reads(i).contains(v),
{
    match i {
        InstrView::Phi { sources, .. } => lemma_pair_values(sources),
        InstrView::Call { args, .. } => {
            lemma_ids_set(args);
            let k = choose|k: int| 0 <= k < args.len() && args[k] == v;
            assert(args.contains(v));
        },
        _ => {},
    }
}

/// Dead code elimination keeps every operand defined: for every instruction left in
/// block `b` and every value it names as an operand, every instruction of `f` that defines
/// that value is left too.
pub proof fn lemma_kept_operands_defined(f: FuncView, b: int, k: int, b2: int, k2: int, v: usize)
    requires
        0 <= b < f.blocks.len(),
        0 <= k < eliminate_dead(f).blocks[b].instructions.len(),
        0 <= b2 < f.blocks.len(),
        0 <= k2 < f.blocks[b2].instructions.len(),
        defines(f.blocks[b2].instructions[k2]) == Some(v),
        operand_of(eliminate_dead(f).blocks[b].instructions[k], v),
    ensures
        eliminate_dead(f).blocks[b2].instructions.contains(f.blocks[b2].instructions[k2]),
{
    lemma_operands_are_read(eliminate_dead(f).blocks[b].instructions[k], v);
    lemma_kept_reads_defined(f, b, k, b2, k2);
}

/// Dead code elimination removes only definitions: every return, branch, jump, call,
/// load and store of a block stays, and whatever stays was in the block.
pub proof fn lemma_effects_kept(f: FuncView, b: int, j: int)
    requires
        0 <= b < f.blocks.len(),
        0 <= j < f.blocks[b].instructions.len(),
    ensures
        (f.blocks[b].instructions[j] is Return || f.blocks[b].instructions[j] is Branch
            || f.blocks[b].instructions[j] is Jump || f.blocks[b].instructions[j] is Call
            || f.blocks[b].instructions[j] is Load || f.blocks[b].instructions[j] is Store)
            ==> eliminate_dead(f).blocks[b].instructions.contains(f.blocks[b].instructions[j]),
        forall|k: int|
            0 <= k < eliminate_dead(f).blocks[b].instructions.len() ==> f.blocks[b].instructions.contains(
                #[trigger] eliminate_dead(f).blocks[b].instructions[k],
            ),
{
    lemma_kept_members(live_values(f), f.blocks[b].instructions);
}

/// Instruction counts of the first `n` blocks agree where those blocks agree.
proof fn lemma_instr_count_frame(a: Seq<BlockView>, b: Seq<BlockView>, n: int)
    requires
        0 <= n,
        n <= a.len(),
        n <= b.len(),
        forall|k: int| 0 <= k < n ==> #[trigger] a[k].instructions.len() == b[k].instructions.len(),
    ensures
        instr_count(a, n) == instr_count(b, n),
    decreases n,
{
    if n > 0 {
        lemma_instr_count_frame(a, b, n - 1);
    }
}

// ---- Constant folding ----

/// The float operations that folding leaves to the caller's float arithmetic.
#[derive(Debug, Clone, Copy, PartialEq, Eq, Structural)]
pub enum FloatOp {
    Add,
    Sub,
    Mul,
    Div,
    Neg,
}

/// What folding an operation on known constants calls for: a constant, no change, or the
/// result of the float arithmetic on two float texts (for negation, both are the operand).
pub enum FoldPlan {
    Fold(SsaValueView),
    Keep,
    Ask(FloatOp, Seq<char>, Seq<char>),
}

pub open spec fn fold_opt(r: Option<i64>) -> FoldPlan {
    match r {
        Some(v) => FoldPlan::Fold(SsaValueView::Int(v)),
        None => FoldPlan::Keep,
    }
}

/// Integer operations fold where the result fits in `i64`.
pub open spec fn int_plan(op: SsaBinOp, a: i64, b: i64) -> FoldPlan {
    match op {
        SsaBinOp::Add => fold_opt(a.checked_add(b)),
        SsaBinOp::Sub => fold_opt(a.checked_sub(b)),
        SsaBinOp::Mul => fold_opt(a.checked_mul(b)),
        SsaBinOp::Div => fold_opt(a.checked_div(b)),
        SsaBinOp::Mod => fold_opt(a.checked_rem(b)),
        SsaBinOp::Eq => FoldPlan::Fold(SsaValueView::Bool(a == b)),
        SsaBinOp::Neq => FoldPlan::Fold(SsaValueView::Bool(a != b)),
        SsaBinOp::Lt => FoldPlan::Fold(SsaValueView::Bool(a < b)),
        SsaBinOp::Lte => FoldPlan::Fold(SsaValueView::Bool(a <= b)),
        SsaBinOp::Gt => FoldPlan::Fold(SsaValueView::Bool(a > b)),
        SsaBinOp::Gte => FoldPlan::Fold(SsaValueView::Bool(a >= b)),
        _ => FoldPlan::Keep,
    }
}

pub open spec fn binop_plan(op: SsaBinOp, l: SsaValueView, r: SsaValueView) -> FoldPlan {
    match (l, r) {
        (SsaValueView::Int(a), SsaValueView::Int(b)) => int_plan(op, a, b),
        (SsaValueView::Float(a), SsaValueView::Float(b)) => match op {
            SsaBinOp::Add => FoldPlan::Ask(FloatOp::Add, a, b),
            SsaBinOp::Sub => FoldPlan::Ask(FloatOp::Sub, a, b),
            SsaBinOp::Mul => FoldPlan::Ask(FloatOp::Mul, a, b),
            SsaBinOp::Div => FoldPlan::Ask(FloatOp::Div, a, b),
            _ => FoldPlan::Keep,
        },
        (SsaValueView::Bool(a), SsaValueView::Bool(b)) => match op {
            SsaBinOp::And => FoldPlan::Fold(SsaValueView::Bool(a && b)),
            SsaBinOp::Or => FoldPlan::Fold(SsaValueView::Bool(a || b)),
            SsaBinOp::Eq => FoldPlan::Fold(SsaValueView::Bool(a == b)),
            SsaBinOp::Neq => FoldPlan::Fold(SsaValueView::Bool(a != b)),
            _ => FoldPlan::Keep,
        },
        _ => FoldPlan::Keep,
    }
}

/// The truth value a plan folds to, if it folds to one.
pub open spec fn plan_bool(p: FoldPlan) -> Option<bool> {
    match p {
        FoldPlan::Fold(SsaValueView::Bool(x)) => Some(x),
        _ => None,
    }
}

/// The integer a plan folds to, if it folds to one.
pub open spec fn plan_int(p: FoldPlan) -> Option<i64> {
    match p {
        FoldPlan::Fold(SsaValueView::Int(x)) => Some(x),
        _ => None,
    }
}

/// Folding two integer constants compares them by their order as integers: `<` holds
/// exactly when the second exceeds the first, `<=` is `<` or equality, `>` and `>=` are
/// `<` and `<=` with the operands swapped, `!=` is the negation of `==`, and `==` is
/// equality.
pub proof fn lemma_int_comparisons_fold(a: i64, b: i64)
    ensures
        plan_bool(binop_plan(SsaBinOp::Lt, SsaValueView::Int(a), SsaValueView::Int(b))) == Some(b as int - a as int > 0),
        plan_bool(binop_plan(SsaBinOp::Eq, SsaValueView::Int(a), SsaValueView::Int(b))) == Some(a as int - b as int == 0),
        plan_bool(binop_plan(SsaBinOp::Lte, SsaValueView::Int(a), SsaValueView::Int(b))) == Some(
            plan_bool(binop_plan(SsaBinOp::Lt, SsaValueView::Int(a), SsaValueView::Int(b)))->0 || plan_bool(
                binop_plan(SsaBinOp::Eq, SsaValueView::Int(a), SsaValueView::Int(b)),
            )->0,
        ),
        binop_plan(SsaBinOp::Gt, SsaValueView::Int(a), SsaValueView::Int(b)) == binop_plan(
            SsaBinOp::Lt,
            SsaValueView::Int(b),
            SsaValueView::Int(a),
        ),
        binop_plan(SsaBinOp::Gte, SsaValueView::Int(a), SsaValueView::Int(b)) == binop_plan(
            SsaBinOp::Lte,
            SsaValueView::Int(b),
            SsaValueView::Int(a),
        ),
        plan_bool(binop_plan(SsaBinOp::Neq, SsaValueView::Int(a), SsaValueView::Int(b))) == Some(
            !plan_bool(binop_plan(SsaBinOp::Eq, SsaValueView::Int(a), SsaValueView::Int(b)))->0,
        ),
{
}

/// Folding two integer constants computes the sum, difference or product of the
/// integers where it fits in `i64`, and leaves the operation where it does not.
pub proof fn lemma_int_arithmetic_folds(a: i64, b: i64)
    ensures
        i64::MIN <= a as int + b as int <= i64::MAX ==> plan_int(
            binop_plan(SsaBinOp::Add, SsaValueView::Int(a), SsaValueView::Int(b)),
        ) == Some((a as int + b as int) as i64),
        !(i64::MIN <= a as int + b as int <= i64::MAX) ==> binop_plan(
            SsaBinOp::Add,
            SsaValueView::Int(a),
            SsaValueView::Int(b),
        ) == FoldPlan::Keep,
        i64::MIN <= a as int - b as int <= i64::MAX ==> plan_int(
            binop_plan(SsaBinOp::Sub, SsaValueView::Int(a), SsaValueView::Int(b)),
        ) == Some((a as int - b as int) as i64),
        !(i64::MIN <= a as int - b as int <= i64::MAX) ==> binop_plan(
            SsaBinOp::Sub,
            SsaValueView::Int(a),
            SsaValueView::Int(b),
        ) == FoldPlan::Keep,
        i64::MIN <= a as int * b as int <= i64::MAX ==> plan_int(
            binop_plan(SsaBinOp::Mul, SsaValueView::Int(a), SsaValueView::Int(b)),
        ) == Some((a as int * b as int) as i64),
        !(i64::MIN <= a as int * b as int <= i64::MAX) ==> binop_plan(
            SsaBinOp::Mul,
            SsaValueView::Int(a),
            SsaValueView::Int(b),
        ) == FoldPlan::Keep,
        b == 0 ==> binop_plan(SsaBinOp::Div, SsaValueView::Int(a), SsaValueView::Int(b)) == FoldPlan::Keep,
        b == 0 ==> binop_plan(SsaBinOp::Mod, SsaValueView::Int(a), SsaValueView::Int(b)) == FoldPlan::Keep,
{
}

/// Folding a division and a remainder of two integer constants, the divisor not zero and
/// the quotient in range: quotient times divisor plus remainder is the dividend, the
/// remainder is smaller than the divisor in size and has the dividend's sign (the quotient
/// is rounded toward zero).
pub proof fn lemma_int_division_folds(a: i64, b: i64)
    requires
        b != 0,
        !(a == i64::MIN && b == -1),
    ensures
        plan_int(binop_plan(SsaBinOp::Div, SsaValueView::Int(a), SsaValueView::Int(b))) is Some,
        plan_int(binop_plan(SsaBinOp::Mod, SsaValueView::Int(a), SsaValueView::Int(b))) is Some,
        ({
            let q = plan_int(binop_plan(SsaBinOp::Div, SsaValueView::Int(a), SsaValueView::Int(b)))->0 as int;
            let r = plan_int(binop_plan(SsaBinOp::Mod, SsaValueView::Int(a), SsaValueView::Int(b)))->0 as int;
            &&& q * b + r == a
            &&& (if r < 0 { -r } else { r }) < (if b < 0 { -(b as int) } else { b as int })
            &&& (r == 0 || (r > 0) == (a > 0))
        }),
{
    let x = a as int;
    let d = b as int;
    if x == 0 {
    } else if x > 0 && d > 0 {
        assert(x / d * d + x % d == x && 0 <= x % d < d && 0 <= x / d <= x) by (nonlinear_arith)
            requires x > 0, d > 0;
        assert(a.checked_div(b) == Some((x / d) as i64));
        assert(a.checked_rem(b) == Some((x % d) as i64));
    } else if x < 0 && d < 0 {
        let nx = -x;
        let nd = -d;
        assert(nx / nd * nd + nx % nd == nx && 0 <= nx % nd < nd && 0 <= nx / nd <= nx) by (nonlinear_arith)
            requires nx > 0, nd > 0;
        assert(nd >= 2 ==> nx / nd < nx) by (nonlinear_arith)
            requires nx > 0, nd > 0, nx / nd * nd + nx % nd == nx, 0 <= nx % nd < nd;
        assert((nx / nd) * d + (nx % nd) * -1 == x) by (nonlinear_arith)
            requires nx / nd * nd + nx % nd == nx, nx == -x, nd == -d;
        assert(a.checked_div(b) == Some((nx / nd) as i64));
        assert(a.checked_rem(b) == Some(((nx % nd) * -1) as i64));
    } else if x < 0 {
        let nx = -x;
        assert(nx / d * d + nx % d == nx && 0 <= nx % d < d && 0 <= nx / d <= nx) by (nonlinear_arith)
            requires nx > 0, d > 0;
        assert(((nx / d) * -1) * d + (nx % d) * -1 == x) by (nonlinear_arith)
            requires nx / d * d + nx % d == nx, nx == -x;
        assert(a.checked_div(b) == Some(((nx / d) * -1) as i64));
        assert(a.checked_rem(b) == Some(((nx % d) * -1) as i64));
    } else {
        let nd = -d;
        assert(x / nd * nd + x % nd == x && 0 <= x % nd < nd && 0 <= x / nd <= x) by (nonlinear_arith)
            requires x > 0, nd > 0;
        assert(((x / nd) * -1) * d + x % nd == x) by (nonlinear_arith)
            requires x / nd * nd + x % nd == x, nd == -d;
        assert(a.checked_div(b) == Some(((x / nd) * -1) as i64));
        assert(a.checked_rem(b) == Some((x % nd) as i64));
    }
}

/// A source comparison of two integers, compiled to SSA and folded, gives the truth of
/// that comparison on the integers.
pub proof fn lemma_compiled_comparisons_fold(a: i64, b: i64)
    ensures
        plan_bool(binop_plan(crate::ir::ssa_binop(crate::ast::BinOp::Lt), SsaValueView::Int(a), SsaValueView::Int(b))) == Some(
            a < b,
        ),
        plan_bool(binop_plan(crate::ir::ssa_binop(crate::ast::BinOp::Lte), SsaValueView::Int(a), SsaValueView::Int(b))) == Some(
            a < b || a == b,
        ),
        plan_bool(binop_plan(crate::ir::ssa_binop(crate::ast::BinOp::Gt), SsaValueView::Int(a), SsaValueView::Int(b))) == Some(
            b < a,
        ),
        plan_bool(binop_plan(crate::ir::ssa_binop(crate::ast::BinOp::Gte), SsaValueView::Int(a), SsaValueView::Int(b))) == Some(
            b < a || a == b,
        ),
        plan_bool(binop_plan(crate::ir::ssa_binop(crate::ast::BinOp::Eq), SsaValueView::Int(a), SsaValueView::Int(b))) == Some(
            a == b,
        ),
        plan_bool(binop_plan(crate::ir::ssa_binop(crate::ast::BinOp::Neq), SsaValueView::Int(a), SsaValueView::Int(b))) == Some(
            a != b,
        ),
{
    crate::ir::lemma_ssa_binop_names();
    lemma_int_comparisons_fold(a, b);
    lemma_int_comparisons_fold(b, a);
}

/// Folding a unary operation on a constant: negating an integer gives its negation where
/// that fits in `i64` and leaves the operation where it does not; `!` on a boolean gives
/// the other truth value; negating a float asks the float arithmetic.
pub proof fn lemma_unary_folds(a: i64, b: bool, t: Seq<char>)
    ensures
        a != i64::MIN ==> plan_int(unary_plan(SsaUnaryOp::Neg, SsaValueView::Int(a))) == Some((0 - a as int) as i64),
        a == i64::MIN ==> unary_plan(SsaUnaryOp::Neg, SsaValueView::Int(a)) == FoldPlan::Keep,
        plan_bool(unary_plan(SsaUnaryOp::Not, SsaValueView::Bool(b))) == Some(if b { false } else { true }),
        unary_plan(SsaUnaryOp::Neg, SsaValueView::Float(t)) == FoldPlan::Ask(FloatOp::Neg, t, t),
{
}

/// Folding two boolean constants computes conjunction, disjunction, equality and
/// inequality of the truth values.
pub proof fn lemma_bool_folds(a: bool, b: bool)
    ensures
        plan_bool(binop_plan(SsaBinOp::And, SsaValueView::Bool(a), SsaValueView::Bool(b))) == Some(
            if a { b } else { false },
        ),
        plan_bool(binop_plan(SsaBinOp::Or, SsaValueView::Bool(a), SsaValueView::Bool(b))) == Some(
            if a { true } else { b },
        ),
        plan_bool(binop_plan(SsaBinOp::Eq, SsaValueView::Bool(a), SsaValueView::Bool(b))) == Some(a == b),
        plan_bool(binop_plan(SsaBinOp::Neq, SsaValueView::Bool(a), SsaValueView::Bool(b))) == Some(a != b),
{
}

pub open spec fn unary_plan(op: SsaUnaryOp, v: SsaValueView) -> FoldPlan {
    match (v, op) {
        (SsaValueView::Int(i), SsaUnaryOp::Neg) => fold_opt(0i64.checked_sub(i)),
        (SsaValueView::Float(t), SsaUnaryOp::Neg) => FoldPlan::Ask(FloatOp::Neg, t, t),
        (SsaValueView::Bool(b), SsaUnaryOp::Not) => FoldPlan::Fold(SsaValueView::Bool(!b)),
        _ => FoldPlan::Keep,
    }
}

/// The plan for an instruction, given the constants known.
pub open spec fn instr_plan(map: Map<usize, SsaValueView>, i: InstrView) -> FoldPlan {
    match i {
        InstrView::BinOp { op, left, right, .. } => if map.contains_key(left) && map.contains_key(right) {
            binop_plan(op, map[left], map[right])
        } else {
            FoldPlan::Keep
        },
        InstrView::UnaryOp { op, operand, .. } => if map.contains_key(operand) {
            unary_plan(op, map[operand])
        } else {
            FoldPlan::Keep
        },
        _ => FoldPlan::Keep,
    }
}

/// The float arithmetic, asked `op` on texts `a` and `b`, may answer `r`.
pub open spec fn float_answer<F: Fn(FloatOp, &String, &String) -> Option<String>>(
    f: F,
    op: FloatOp,
    a: Seq<char>,
    b: Seq<char>,
    r: Option<Seq<char>>,
) -> bool {
    exists|sa: String, sb: String, sr: Option<String>|
        #![trigger call_ensures(f, (op, &sa, &sb), sr)]
        sa@ == a && sb@ == b && call_ensures(f, (op, &sa, &sb), sr) && match sr {
            Some(x) => r == Some(x@),
            None => r is None,
        }
}

/// Whether `r` is what the plan gives: its constant, nothing, or what the float arithmetic
/// answered.
pub open spec fn plan_result_ok<F: Fn(FloatOp, &String, &String) -> Option<String>>(f: F, plan: FoldPlan, r: Option<SsaValueView>) -> bool {
    match plan {
        FoldPlan::Fold(v) => r == Some(v),
        FoldPlan::Keep => r is None,
        FoldPlan::Ask(op, a, b) => match r {
            None => float_answer(f, op, a, b, None),
            Some(x) => x matches SsaValueView::Float(t) && float_answer(f, op, a, b, Some(t)),
        },
    }
}

pub open spec fn folded_dest(i: InstrView) -> usize {
    match i {
        InstrView::BinOp { dest, .. } => dest,
        InstrView::UnaryOp { dest, .. } => dest,
        _ => 0,
    }
}

/// The constant an instruction was folded to, read off what it became.
pub open spec fn fold_value(i: InstrView, out: InstrView) -> Option<SsaValueView> {
    if i is BinOp || i is UnaryOp {
        match out {
            InstrView::Const { value, .. } => Some(value),
            _ => None,
        }
    } else {
        None
    }
}

/// An instruction became `out`: a constant where it folds, itself otherwise.
pub open spec fn step_ok<F: Fn(FloatOp, &String, &String) -> Option<String>>(
    f: F,
    map: Map<usize, SsaValueView>,
    i: InstrView,
    out: InstrView,
) -> bool {
    let r = fold_value(i, out);
    &&& plan_result_ok(f, instr_plan(map, i), r)
    &&& match r {
        Some(v) => out == InstrView::Const { dest: folded_dest(i), value: v },
        None => out == i,
    }
}

/// The constants known after an instruction.
pub open spec fn map_step(map: Map<usize, SsaValueView>, i: InstrView, out: InstrView) -> Map<usize, SsaValueView> {
    match fold_value(i, out) {
        Some(v) => map.insert(folded_dest(i), v),
        None => map,
    }
}

/// The constants known after a block's instructions became `outs`.
pub open spec fn block_map(map: Map<usize, SsaValueView>, ins: Seq<InstrView>, outs: Seq<InstrView>) -> Map<usize, SsaValueView>
    decreases ins.len(),
{
    if ins.len() == 0 {
        map
    } else {
        map_step(block_map(map, ins.drop_last(), outs.drop_last()), ins.last(), outs.last())
    }
}

/// Each instruction of the block became the corresponding one of `outs`.
pub open spec fn block_fold_ok<F: Fn(FloatOp, &String, &String) -> Option<String>>(
    f: F,
    map: Map<usize, SsaValueView>,
    ins: Seq<InstrView>,
    outs: Seq<InstrView>,
) -> bool
    decreases ins.len(),
{
    &&& ins.len() == outs.len()
    &&& ins.len() > 0 ==> {
        &&& block_fold_ok(f, map, ins.drop_last(), outs.drop_last())
        &&& step_ok(f, block_map(map, ins.drop_last(), outs.drop_last()), ins.last(), outs.last())
    }
}

pub open spec fn block_fold_count(ins: Seq<InstrView>, outs: Seq<InstrView>) -> nat
    decreases ins.len(),
{
    if ins.len() == 0 {
        0
    } else {
        block_fold_count(ins.drop_last(), outs.drop_last()) + if fold_value(ins.last(), outs.last()) is Some {
            1nat
        } else {
            0nat
        }
    }
}

/// The constants defined by a block's instructions, later ones replacing earlier ones.
pub open spec fn block_consts(map: Map<usize, SsaValueView>, s: Seq<InstrView>) -> Map<usize, SsaValueView>
    decreases s.len(),
{
    if s.len() == 0 {
        map
    } else {
        let m = block_consts(map, s.drop_last());
        match s.last() {
            InstrView::Const { dest, value } => m.insert(dest, value),
            _ => m,
        }
    }
}

/// The constants defined in blocks `0..n`.
pub open spec fn func_consts(blocks: Seq<BlockView>, n: int) -> Map<usize, SsaValueView>
    decreases n,
{
    if n <= 0 {
        Map::empty()
    } else {
        block_consts(func_consts(blocks, n - 1), blocks[n - 1].instructions)
    }
}

/// The constants known after blocks `0..n` were folded into `news`.
pub open spec fn fold_map(map0: Map<usize, SsaValueView>, olds: Seq<BlockView>, news: Seq<BlockView>, n: int) -> Map<
    usize,
    SsaValueView,
>
    decreases n,
{
    if n <= 0 {
        map0
    } else {
        block_map(fold_map(map0, olds, news, n - 1), olds[n - 1].instructions, news[n - 1].instructions)
    }
}

/// Blocks `0..n` were folded into `news`, each instruction with the constants known before it.
pub open spec fn fold_ok<F: Fn(FloatOp, &String, &String) -> Option<String>>(
    f: F,
    map0: Map<usize, SsaValueView>,
    olds: Seq<BlockView>,
    news: Seq<BlockView>,
    n: int,
) -> bool
    decreases n,
{
    n > 0 ==> {
        &&& fold_ok(f, map0, olds, news, n - 1)
        &&& block_fold_ok(f, fold_map(map0, olds, news, n - 1), olds[n - 1].instructions, news[n - 1].instructions)
    }
}

pub open spec fn fold_count(olds: Seq<BlockView>, news: Seq<BlockView>, n: int) -> nat
    decreases n,
{
    if n <= 0 {
        0
    } else {
        fold_count(olds, news, n - 1) + block_fold_count(olds[n - 1].instructions, news[n - 1].instructions)
    }
}

/// What constant folding did to a function: the same function, each instruction folded in
/// order with the constants defined anywhere in it and those folded before; `count` folds.
pub open spec fn folded<F: Fn(FloatOp, &String, &String) -> Option<String>>(f: F, old: FuncView, new: FuncView, count: nat) -> bool {
    let n = old.blocks.len() as int;
    &&& new.name == old.name
    &&& new.params == old.params
    &&& new.entry == old.entry
    &&& new.next_value == old.next_value
    &&& new.blocks.len() == old.blocks.len()
    &&& forall|b: int|
        0 <= b < n ==> {
            &&& (#[trigger] new.blocks[b]).id == old.blocks[b].id
            &&& new.blocks[b].label == old.blocks[b].label
            &&& new.blocks[b].predecessors == old.blocks[b].predecessors
            &&& new.blocks[b].successors == old.blocks[b].successors
        }
    &&& fold_ok(f, func_consts(old.blocks, n), old.blocks, new.blocks, n)
    &&& count == fold_count(old.blocks, new.blocks, n)
}

/// Integer operations whose result does not fit in `i64`: sums, differences and products
/// out of range, and the quotient or remainder of the smallest value by -1.
pub open spec fn int_overflows(op: SsaBinOp, a: i64, b: i64) -> bool {
    match op {
        SsaBinOp::Add => a.checked_add(b) is None,
        SsaBinOp::Sub => a.checked_sub(b) is None,
        SsaBinOp::Mul => a.checked_mul(b) is None,
        SsaBinOp::Div => b != 0 && a.checked_div(b) is None,
        SsaBinOp::Mod => b != 0 && a.checked_rem(b) is None,
        _ => false,
    }
}

/// Folding the instruction with the constants known would compute an integer that does
/// not fit in `i64`.
pub open spec fn fold_overflows(map: Map<usize, SsaValueView>, i: InstrView) -> bool {
    match i {
        InstrView::BinOp { op, left, right, .. } => map.contains_key(left) && map.contains_key(right) && match (
            map[left],
            map[right],
        ) {
            (SsaValueView::Int(a), SsaValueView::Int(b)) => int_overflows(op, a, b),
            _ => false,
        },
        InstrView::UnaryOp { op, operand, .. } => map.contains_key(operand) && op == SsaUnaryOp::Neg
            && map[operand] == SsaValueView::Int(i64::MIN),
        _ => false,
    }
}

/// Folding the function, whatever the float arithmetic answers, never meets an integer
/// operation whose result does not fit in `i64`.
pub open spec fn fold_fits<F: Fn(FloatOp, &String, &String) -> Option<String>>(f: F, func: FuncView) -> bool {
    let olds = func.blocks;
    let n = olds.len() as int;
    let m0 = func_consts(olds, n);
    forall|news: Seq<BlockView>, b: int, k: int, outs: Seq<InstrView>|
        #![trigger fold_ok(f, m0, olds, news, b), block_fold_ok(f, fold_map(m0, olds, news, b), olds[b].instructions.take(k), outs)]
        0 <= b < n && 0 <= k < olds[b].instructions.len() && fold_ok(f, m0, olds, news, b) && block_fold_ok(
            f,
            fold_map(m0, olds, news, b),
            olds[b].instructions.take(k),
            outs,
        ) ==> !fold_overflows(
            block_map(fold_map(m0, olds, news, b), olds[b].instructions.take(k), outs),
            olds[b].instructions[k],
        )
}

pub open spec fn cmap(m: Map<usize, SsaValue>) -> Map<usize, SsaValueView> {
    Map::new(|k: usize| m.contains_key(k), |k: usize| m[k]@)
}

pub open spec fn opt_value_view(r: Option<SsaValue>) -> Option<SsaValueView> {
    match r {
        Some(v) => Some(v@),
        None => None,
    }
}

pub open spec fn binop_instr_plan(m: Map<usize, SsaValueView>, op: SsaBinOp, left: usize, right: usize) -> FoldPlan {
    if m.contains_key(left) && m.contains_key(right) {
        binop_plan(op, m[left], m[right])
    } else {
        FoldPlan::Keep
    }
}

pub open spec fn unary_instr_plan(m: Map<usize, SsaValueView>, op: SsaUnaryOp, operand: usize) -> FoldPlan {
    if m.contains_key(operand) {
        unary_plan(op, m[operand])
    } else {
        FoldPlan::Keep
    }
}

fn some_int(r: Option<i64>) -> (v: Option<SsaValue>)
    ensures
        match fold_opt(r) {
            FoldPlan::Fold(x) => opt_value_view(v) == Some(x),
            _ => v is None,
        },
{
    match r {
        Some(x) => Some(SsaValue::Int(x)),
        None => None,
    }
}

/// The number of instructions of the function, where it fits in `usize`.
pub fn instruction_count(func: &SsaFunction) -> (r: Option<usize>)
    ensures
        r matches Some(n) ==> n == total_instrs(func@),
        r is None ==> total_instrs(func@) > usize::MAX,
{
    let ghost blocks = func@.blocks;
    let mut total: usize = 0;
    let mut b: usize = 0;
    while b < func.blocks.len()
        invariant
            0 <= b <= func.blocks.len(),
            blocks == func@.blocks,
            total == instr_count(blocks, b as int),
        decreases func.blocks.len() - b,
    {
        assert(blocks[b as int] == func.blocks@[b as int]@);
        match total.checked_add(func.blocks[b].instructions.len()) {
            Some(t) => total = t,
            None => {
                proof {
                    lemma_instr_count_mono(blocks, b + 1, blocks.len() as int);
                }
                return None;
            },
        }
        b = b + 1;
    }
    Some(total)
}

/// Whether folding the instruction with the constants known would compute an integer that
/// does not fit in `i64`.
fn fold_overflows_exec(i: &SsaInstruction, const_map: &HashMap<ValueId, SsaValue>) -> (r: bool)
    ensures
        r == fold_overflows(cmap(const_map@), i@),
{
    match i {
        SsaInstruction::BinOp { op, left, right, .. } => {
            match (const_map.get(left), const_map.get(right)) {
                (Some(SsaValue::Int(a)), Some(SsaValue::Int(b))) => match op {
                    SsaBinOp::Add => a.checked_add(*b).is_none(),
                    SsaBinOp::Sub => a.checked_sub(*b).is_none(),
                    SsaBinOp::Mul => a.checked_mul(*b).is_none(),
                    SsaBinOp::Div => *b != 0 && a.checked_div(*b).is_none(),
                    SsaBinOp::Mod => *b != 0 && a.checked_rem(*b).is_none(),
                    _ => false,
                },
                _ => false,
            }
        },
        SsaInstruction::UnaryOp { op, operand, .. } => {
            match const_map.get(operand) {
                Some(SsaValue::Int(a)) => *op == SsaUnaryOp::Neg && *a == i64::MIN,
                _ => false,
            }
        },
        _ => false,
    }
}

/// Constant folding optimization pass.
pub struct ConstantFolding;

impl ConstantFolding {
    /// Ask the float arithmetic, and keep its answer as a float constant.
    fn ask_float<F: Fn(FloatOp, &String, &String) -> Option<String>>(float_fold: &F, op: FloatOp, a: &String, b: &String) -> (r: Option<SsaValue>)
        requires
            forall|o: FloatOp, x: &String, y: &String| call_requires(*float_fold, (o, x, y)),
        ensures
            plan_result_ok(*float_fold, FoldPlan::Ask(op, a@, b@), opt_value_view(r)),
    {
        let res = float_fold(op, a, b);
        proof {
            assert(call_ensures(*float_fold, (op, a, b), res));
            if res is Some {
                assert(float_answer(*float_fold, op, a@, b@, Some(res->0@)));
            } else {
                assert(float_answer(*float_fold, op, a@, b@, None));
            }
        }
        match res {
            Some(s) => Some(SsaValue::Float(s)),
            None => None,
        }
    }

    fn try_fold_binop_with_map<F: Fn(FloatOp, &String, &String) -> Option<String>>(
        op: SsaBinOp,
        left: ValueId,
        right: ValueId,
        const_map: &HashMap<ValueId, SsaValue>,
        float_fold: &F,
    ) -> (r: Option<SsaValue>)
        requires
            forall|o: FloatOp, x: &String, y: &String| call_requires(*float_fold, (o, x, y)),
        ensures
            plan_result_ok(*float_fold, binop_instr_plan(cmap(const_map@), op, left, right), opt_value_view(r)),
    {
        let lv = match const_map.get(&left) {
            Some(v) => v,
            None => return None,
        };
        let rv = match const_map.get(&right) {
            Some(v) => v,
            None => return None,
        };
        match (lv, rv) {
            (SsaValue::Int(l), SsaValue::Int(r)) => match op {
                SsaBinOp::Add => some_int(l.checked_add(*r)),
                SsaBinOp::Sub => some_int(l.checked_sub(*r)),
                SsaBinOp::Mul => some_int(l.checked_mul(*r)),
                SsaBinOp::Div => some_int(l.checked_div(*r)),
                SsaBinOp::Mod => some_int(l.checked_rem(*r)),
                SsaBinOp::Eq => Some(SsaValue::Bool(*l == *r)),
                SsaBinOp::Neq => Some(SsaValue::Bool(*l != *r)),
                SsaBinOp::Lt => Some(SsaValue::Bool(*l < *r)),
                SsaBinOp::Lte => Some(SsaValue::Bool(*l <= *r)),
                SsaBinOp::Gt => Some(SsaValue::Bool(*l > *r)),
                SsaBinOp::Gte => Some(SsaValue::Bool(*l >= *r)),
                _ => None,
            },
            (SsaValue::Float(l), SsaValue::Float(r)) => match op {
                SsaBinOp::Add => Self::ask_float(float_fold, FloatOp::Add, l, r),
                SsaBinOp::Sub => Self::ask_float(float_fold, FloatOp::Sub, l, r),
                SsaBinOp::Mul => Self::ask_float(float_fold, FloatOp::Mul, l, r),
                SsaBinOp::Div => Self::ask_float(float_fold, FloatOp::Div, l, r),
                _ => None,
            },
            (SsaValue::Bool(l), SsaValue::Bool(r)) => match op {
                SsaBinOp::And => Some(SsaValue::Bool(*l && *r)),
                SsaBinOp::Or => Some(SsaValue::Bool(*l || *r)),
                SsaBinOp::Eq => Some(SsaValue::Bool(*l == *r)),
                SsaBinOp::Neq => Some(SsaValue::Bool(*l != *r)),
                _ => None,
            },
            _ => None,
        }
    }

    fn try_fold_unary_with_map<F: Fn(FloatOp, &String, &String) -> Option<String>>(
        op: SsaUnaryOp,
        operand: ValueId,
        const_map: &HashMap<ValueId, SsaValue>,
        float_fold: &F,
    ) -> (r: Option<SsaValue>)
        requires
            forall|o: FloatOp, x: &String, y: &String| call_requires(*float_fold, (o, x, y)),
        ensures
            plan_result_ok(*float_fold, unary_instr_plan(cmap(const_map@), op, operand), opt_value_view(r)),
    {
        let v = match const_map.get(&operand) {
            Some(v) => v,
            None => return None,
        };
        match (v, op) {
            (SsaValue::Int(i), SsaUnaryOp::Neg) => some_int(0i64.checked_sub(*i)),
            (SsaValue::Float(t), SsaUnaryOp::Neg) => Self::ask_float(float_fold, FloatOp::Neg, t, t),
            (SsaValue::Bool(b), SsaUnaryOp::Not) => Some(SsaValue::Bool(!*b)),
            _ => None,
        }
    }
}

proof fn lemma_cmap_insert(m: Map<usize, SsaValue>, k: usize, v: SsaValue)
    ensures
        cmap(m.insert(k, v)) == cmap(m).insert(k, v@),
{
    assert(cmap(m.insert(k, v)) =~= cmap(m).insert(k, v@));
}

/// Folding state of blocks `0..n` depends on those blocks only.
proof fn lemma_fold_frame<F: Fn(FloatOp, &String, &String) -> Option<String>>(
    f: F,
    map0: Map<usize, SsaValueView>,
    olds: Seq<BlockView>,
    a: Seq<BlockView>,
    b: Seq<BlockView>,
    n: int,
)
    requires
        0 <= n <= a.len(),
        n <= b.len(),
        forall|j: int| 0 <= j < n ==> #[trigger] a[j] == b[j],
    ensures
        fold_map(map0, olds, a, n) == fold_map(map0, olds, b, n),
        fold_ok(f, map0, olds, a, n) == fold_ok(f, map0, olds, b, n),
        fold_count(olds, a, n) == fold_count(olds, b, n),
    decreases n,
{
    if n > 0 {
        lemma_fold_frame(f, map0, olds, a, b, n - 1);
        assert(a[n - 1] == b[n - 1]);
    }
}

proof fn lemma_block_fold_count_le(ins: Seq<InstrView>, outs: Seq<InstrView>)
    ensures
        block_fold_count(ins, outs) <= ins.len(),
    decreases ins.len(),
{
    if ins.len() > 0 {
        lemma_block_fold_count_le(ins.drop_last(), outs.drop_last());
    }
}

impl ConstantFolding {
    /// Fold constants in a single function; the number of folds performed.  Float
    /// arithmetic is `float_fold`'s: it is asked an operation on the texts of two float
    /// constants (for negation, both are the operand) and answers the text of the result,
    /// or nothing where it does not fold.
    pub fn optimize<F: Fn(FloatOp, &String, &String) -> Option<String>>(func: &mut SsaFunction, float_fold: &F) -> (folds: usize)
        requires
            forall|o: FloatOp, x: &String, y: &String| call_requires(*float_fold, (o, x, y)),
            total_instrs(old(func)@) <= usize::MAX,
            fold_fits(*float_fold, old(func)@),
        ensures
            folded(*float_fold, old(func)@, final(func)@, folds as nat),
    {
        match Self::fold_pass(func, float_fold) {
            Some(folds) => folds,
            None => 0,
        }
    }

    /// Like `optimize`, for any function: where the fold meets an integer operation whose
    /// result does not fit in `i64` (where `optimize` asks `fold_fits`), or the number of
    /// instructions does not fit in `usize`, nothing, with the function left as it was.
    pub fn try_optimize<F: Fn(FloatOp, &String, &String) -> Option<String>>(func: &mut SsaFunction, float_fold: &F) -> (r: Option<usize>)
        requires
            forall|o: FloatOp, x: &String, y: &String| call_requires(*float_fold, (o, x, y)),
        ensures
            r matches Some(folds) ==> total_instrs(old(func)@) <= usize::MAX && folded(
                *float_fold,
                old(func)@,
                final(func)@,
                folds as nat,
            ),
            r is None ==> (total_instrs(old(func)@) > usize::MAX || !fold_fits(*float_fold, old(func)@))
                && final(func)@ == old(func)@,
    {
        if instruction_count(func).is_none() {
            return None;
        }
        let mut work = func.clone();
        match Self::fold_pass(&mut work, float_fold) {
            Some(folds) => {
                *func = work;
                Some(folds)
            },
            None => None,
        }
    }

    /// The fold itself; it stops with nothing where it meets an integer overflow.
    #[verifier::loop_isolation(false)]
    fn fold_pass<F: Fn(FloatOp, &String, &String) -> Option<String>>(func: &mut SsaFunction, float_fold: &F) -> (r: Option<usize>)
        requires
            forall|o: FloatOp, x: &String, y: &String| call_requires(*float_fold, (o, x, y)),
            total_instrs(old(func)@) <= usize::MAX,
        ensures
            r matches Some(folds) ==> folded(*float_fold, old(func)@, final(func)@, folds as nat),
            r is None ==> !fold_fits(*float_fold, old(func)@),
    {
        let ghost olds = func@.blocks;
        let ghost n = olds.len() as int;
        let ghost f = *float_fold;
        // First pass: collect all constant values.
        let mut const_map: HashMap<ValueId, SsaValue> = HashMap::new();
        assert(cmap(const_map@) =~= Map::<usize, SsaValueView>::empty());
        let mut b: usize = 0;
        while b < func.blocks.len()
            invariant
                func@.blocks == olds,
                0 <= b <= func.blocks.len(),
                cmap(const_map@) == func_consts(olds, b as int),
            decreases func.blocks.len() - b,
        {
            let ghost ins = olds[b as int].instructions;
            assert(func@.blocks[b as int] == func.blocks@[b as int]@);
            assert(ins.take(0) =~= Seq::<InstrView>::empty());
            let mut k: usize = 0;
            while k < func.blocks[b].instructions.len()
                invariant
                    func@.blocks == olds,
                    0 <= b < func.blocks.len(),
                    0 <= k <= ins.len(),
                    ins.len() == func.blocks@[b as int].instructions@.len(),
                    cmap(const_map@) == block_consts(func_consts(olds, b as int), ins.take(k as int)),
                decreases ins.len() - k,
            {
                assert(func.blocks@[b as int].instructions@[k as int]@ == ins[k as int]);
                assert(ins.take(k + 1).drop_last() =~= ins.take(k as int));
                match &func.blocks[b].instructions[k] {
                    SsaInstruction::Const { dest, value } => {
                        let c = value.clone();
                        proof {
                            lemma_cmap_insert(const_map@, *dest, c);
                        }
                        const_map.insert(*dest, c);
                    },
                    _ => {},
                }
                k = k + 1;
            }
            assert(ins.take(ins.len() as int) =~= ins);
            b = b + 1;
        }
        let ghost map0 = func_consts(olds, n);
        // Second pass: fold each operation on known constants, in order.
        let mut folds: usize = 0;
        let mut b: usize = 0;
        while b < func.blocks.len()
            invariant
                0 <= b <= func.blocks.len(),
                func.blocks.len() == n,
                func@.name == old(func)@.name,
                func@.params == old(func)@.params,
                func@.entry == old(func)@.entry,
                func@.next_value == old(func)@.next_value,
                forall|j: int|
                    0 <= j < n ==> {
                        &&& (#[trigger] func@.blocks[j]).id == olds[j].id
                        &&& func@.blocks[j].label == olds[j].label
                        &&& func@.blocks[j].predecessors == olds[j].predecessors
                        &&& func@.blocks[j].successors == olds[j].successors
                    },
                forall|j: int| b <= j < n ==> #[trigger] func@.blocks[j] == olds[j],
                fold_ok(f, map0, olds, func@.blocks, b as int),
                cmap(const_map@) == fold_map(map0, olds, func@.blocks, b as int),
                folds == fold_count(olds, func@.blocks, b as int),
                folds <= instr_count(olds, b as int),
                instr_count(olds, n) <= usize::MAX,
            decreases func.blocks.len() - b,
        {
            let ghost sb = func@.blocks;
            let ghost mb = fold_map(map0, olds, sb, b as int);
            let ghost cb = fold_count(olds, sb, b as int);
            let ghost ins = olds[b as int].instructions;
            assert(func@.blocks[b as int] == func.blocks@[b as int]@);
            assert(ins.take(0) =~= Seq::<InstrView>::empty());
            proof {
                lemma_instr_count_mono(olds, b + 1, n);
            }
            let mut k: usize = 0;
            while k < func.blocks[b].instructions.len()
                invariant
                    0 <= b < func.blocks.len(),
                    func.blocks.len() == n,
                    0 <= k <= ins.len(),
                    ins.len() == func.blocks@[b as int].instructions@.len(),
                    func@.name == old(func)@.name,
                    func@.params == old(func)@.params,
                    func@.entry == old(func)@.entry,
                    func@.next_value == old(func)@.next_value,
                    forall|j: int| 0 <= j < n && j != b ==> #[trigger] func@.blocks[j] == sb[j],
                    func@.blocks[b as int].id == olds[b as int].id,
                    func@.blocks[b as int].label == olds[b as int].label,
                    func@.blocks[b as int].predecessors == olds[b as int].predecessors,
                    func@.blocks[b as int].successors == olds[b as int].successors,
                    func@.blocks[b as int].instructions.len() == ins.len(),
                    forall|kk: int| k <= kk < ins.len() ==> #[trigger] func@.blocks[b as int].instructions[kk] == ins[kk],
                    block_fold_ok(f, mb, ins.take(k as int), func@.blocks[b as int].instructions.take(k as int)),
                    cmap(const_map@) == block_map(mb, ins.take(k as int), func@.blocks[b as int].instructions.take(k as int)),
                    folds == cb + block_fold_count(ins.take(k as int), func@.blocks[b as int].instructions.take(k as int)),
                    cb <= instr_count(olds, b as int),
                decreases ins.len() - k,
            {
                let ghost cur = func@.blocks[b as int].instructions;
                let ghost i = ins[k as int];
                assert(func@.blocks[b as int] == func.blocks@[b as int]@);
                assert(func@.blocks[b as int].instructions[k as int] == i);
                assert(func.blocks@[b as int].instructions@[k as int]@ == i);
                let ghost m = cmap(const_map@);
                if fold_overflows_exec(&func.blocks[b].instructions[k], &const_map) {
                    proof {
                        assert(olds[b as int].instructions.take(k as int) == ins.take(k as int));
                        assert(fold_ok(f, func_consts(olds, n), olds, sb, b as int));
                        assert(block_fold_ok(
                            f,
                            fold_map(func_consts(olds, n), olds, sb, b as int),
                            olds[b as int].instructions.take(k as int),
                            cur.take(k as int),
                        ));
                        assert(fold_overflows(
                            block_map(
                                fold_map(func_consts(olds, n), olds, sb, b as int),
                                olds[b as int].instructions.take(k as int),
                                cur.take(k as int),
                            ),
                            olds[b as int].instructions[k as int],
                        ));
                    }
                    return None;
                }
                let (result, dest) = match &func.blocks[b].instructions[k] {
                    SsaInstruction::BinOp { dest, op, left, right } => (
                        Self::try_fold_binop_with_map(*op, *left, *right, &const_map, float_fold),
                        *dest,
                    ),
                    SsaInstruction::UnaryOp { dest, op, operand } => (
                        Self::try_fold_unary_with_map(*op, *operand, &const_map, float_fold),
                        *dest,
                    ),
                    _ => (None, 0),
                };
                let ghost before = func@;
                let ghost out: InstrView = if result is Some {
                    InstrView::Const { dest, value: result->0@ }
                } else {
                    i
                };
                proof {
                    lemma_block_fold_count_le(ins.take(k as int), cur.take(k as int));
                }
                match result {
                    Some(value) => {
                        let c = value.clone();
                        proof {
                            lemma_cmap_insert(const_map@, dest, c);
                        }
                        const_map.insert(dest, c);
                        let ni = SsaInstruction::Const { dest, value };
                        let ghost old_block = func.blocks@[b as int];
                        func.blocks[b].instructions.set(k, ni);
                        proof {
                            assert(instrs_view(old_block.instructions@.update(k as int, ni)) =~= instrs_view(
                                old_block.instructions@,
                            ).update(k as int, ni@));
                            assert(func@.blocks =~= before.blocks.update(
                                b as int,
                                BlockView { instructions: before.blocks[b as int].instructions.update(k as int, out), ..before.blocks[b as int] },
                            ));
                        }
                        folds = folds + 1;
                    },
                    None => {},
                }
                proof {
                    let now = func@.blocks[b as int].instructions;
                    assert(now.take(k + 1).drop_last() =~= cur.take(k as int));
                    assert(ins.take(k + 1).drop_last() =~= ins.take(k as int));
                    assert(now[k as int] == out);
                }
                k = k + 1;
            }
            proof {
                let now = func@.blocks;
                assert(ins.take(ins.len() as int) =~= ins);
                assert(now[b as int].instructions.take(ins.len() as int) =~= now[b as int].instructions);
                lemma_fold_frame(f, map0, olds, sb, now, b as int);
                lemma_block_fold_count_le(ins, now[b as int].instructions);
            }
            b = b + 1;
        }
        Some(folds)
    }
}

proof fn lemma_fold_keeps_lengths<F: Fn(FloatOp, &String, &String) -> Option<String>>(
    f: F,
    map0: Map<usize, SsaValueView>,
    olds: Seq<BlockView>,
    news: Seq<BlockView>,
    n: int,
)
    requires
        fold_ok(f, map0, olds, news, n),
    ensures
        forall|j: int| 0 <= j < n ==> #[trigger] olds[j].instructions.len() == news[j].instructions.len(),
    decreases n,
{
    if n > 0 {
        lemma_fold_keeps_lengths(f, map0, olds, news, n - 1);
    }
}

/// Run all optimization passes on a function: constant folding, then dead code
/// elimination on what folding left.
pub fn optimize<F: Fn(FloatOp, &String, &String) -> Option<String>>(func: &mut SsaFunction, float_fold: &F) -> (r: OptResult)
    requires
        forall|o: FloatOp, x: &String, y: &String| call_requires(*float_fold, (o, x, y)),
        total_instrs(old(func)@) <= usize::MAX,
        fold_fits(*float_fold, old(func)@),
    ensures
        exists|mid: FuncView|
            {
                &&& folded(*float_fold, old(func)@, mid, r.constants_folded as nat)
                &&& final(func)@ == eliminate_dead(mid)
                &&& r.instructions_removed == total_instrs(mid) - total_instrs(final(func)@)
            },
{
    let ghost before = func@;
    let constants_folded = ConstantFolding::optimize(func, float_fold);
    let ghost mid = func@;
    proof {
        let n = before.blocks.len() as int;
        lemma_fold_keeps_lengths(*float_fold, func_consts(before.blocks, n), before.blocks, mid.blocks, n);
        lemma_instr_count_frame(before.blocks, mid.blocks, n);
    }
    let instructions_removed = DeadCodeElimination::optimize(func);
    OptResult { instructions_removed, constants_folded }
}

/// `optimize` for any function: where folding meets an integer operation whose result
/// does not fit in `i64` (which `optimize` rules out by `fold_fits`), or the number of
/// instructions does not fit in `usize`, nothing, with the function left as it was.
pub fn try_optimize<F: Fn(FloatOp, &String, &String) -> Option<String>>(func: &mut SsaFunction, float_fold: &F) -> (r: Option<OptResult>)
    requires
        forall|o: FloatOp, x: &String, y: &String| call_requires(*float_fold, (o, x, y)),
    ensures
        r is Some ==> total_instrs(old(func)@) <= usize::MAX,
        r matches Some(res) ==> exists|mid: FuncView|
            {
                &&& folded(*float_fold, old(func)@, mid, res.constants_folded as nat)
                &&& final(func)@ == eliminate_dead(mid)
                &&& res.instructions_removed == total_instrs(mid) - total_instrs(final(func)@)
            },
        r is None ==> (total_instrs(old(func)@) > usize::MAX || !fold_fits(*float_fold, old(func)@))
            && final(func)@ == old(func)@,
{
    let ghost before = func@;
    let constants_folded = match ConstantFolding::try_optimize(func, float_fold) {
        Some(c) => c,
        None => return None,
    };
    let ghost mid = func@;
    proof {
        let n = before.blocks.len() as int;
        lemma_fold_keeps_lengths(*float_fold, func_consts(before.blocks, n), before.blocks, mid.blocks, n);
        lemma_instr_count_frame(before.blocks, mid.blocks, n);
    }
    let instructions_removed = DeadCodeElimination::optimize(func);
    Some(OptResult { instructions_removed, constants_folded })
}

} // verus!
