// SSA form: basic blocks, phi functions, dominance.
use vstd::prelude::*;
use std::collections::HashMap;
use std::collections::HashSet;
use crate::text::{nat_decimal, int_decimal, u64_text, i64_text, concat2, concat3};

verus! {

broadcast use vstd::std_specs::hash::group_hash_axioms;

/// SSA value (virtual register).
pub type ValueId = usize;

/// A phi function in SSA form.
#[derive(Debug)]
pub struct PhiFunction {
    pub dest: ValueId,
    /// (block id, value id)
    pub sources: Vec<(usize, ValueId)>,
}

/// SSA constant values.  A float constant keeps the decimal text of its value.
#[derive(Debug)]
pub enum SsaValue {
    Int(i64),
    Float(String),
    Bool(bool),
    Null,
}

/// SSA binary operators.
#[derive(Debug, Clone, Copy, PartialEq, Eq, Structural)]
pub enum SsaBinOp {
    Add,
    Sub,
    Mul,
    Div,
    Mod,
    Eq,
    Neq,
    Lt,
    Lte,
    Gt,
    Gte,
    And,
    Or,
}

/// SSA unary operators.
#[derive(Debug, Clone, Copy, PartialEq, Eq, Structural)]
pub enum SsaUnaryOp {
    Neg,
    Not,
}

/// An instruction in SSA form.
#[derive(Debug)]
pub enum SsaInstruction {
    /// Constant value: dest = const
    Const { dest: ValueId, value: SsaValue },
    /// Binary operation: dest = left op right
    BinOp { dest: ValueId, op: SsaBinOp, left: ValueId, right: ValueId },
    /// Unary operation: dest = op operand
    UnaryOp { dest: ValueId, op: SsaUnaryOp, operand: ValueId },
    /// Copy: dest = source
    Copy { dest: ValueId, source: ValueId },
    /// Function call: dest = call func(args...)
    Call { dest: Option<ValueId>, func: String, args: Vec<ValueId> },
    /// Load from memory/address
    Load { dest: ValueId, addr: ValueId },
    /// Store to memory/address
    Store { addr: ValueId, value: ValueId },
    /// Phi function
    Phi(PhiFunction),
    /// Branch conditionally
    Branch { cond: ValueId, true_block: usize, false_block: usize },
    /// Jump unconditionally
    Jump(usize),
    /// Return a value
    Return(Option<ValueId>),
}

/// The mathematical value of a constant.
pub enum SsaValueView {
    Int(i64),
    Float(Seq<char>),
    Bool(bool),
    Null,
}

/// The mathematical value of an instruction.
pub enum InstrView {
    Const { dest: ValueId, value: SsaValueView },
    BinOp { dest: ValueId, op: SsaBinOp, left: ValueId, right: ValueId },
    UnaryOp { dest: ValueId, op: SsaUnaryOp, operand: ValueId },
    Copy { dest: ValueId, source: ValueId },
    Call { dest: Option<ValueId>, func: Seq<char>, args: Seq<ValueId> },
    Load { dest: ValueId, addr: ValueId },
    Store { addr: ValueId, value: ValueId },
    Phi { dest: ValueId, sources: Seq<(usize, ValueId)> },
    Branch { cond: ValueId, true_block: usize, false_block: usize },
    Jump(usize),
    Return(Option<ValueId>),
}

impl View for SsaValue {
    type V = SsaValueView;

    open spec fn view(&self) -> SsaValueView {
        match self {
            SsaValue::Int(i) => SsaValueView::Int(*i),
            SsaValue::Float(s) => SsaValueView::Float(s@),
            SsaValue::Bool(b) => SsaValueView::Bool(*b),
            SsaValue::Null => SsaValueView::Null,
        }
    }
}

impl View for SsaInstruction {
    type V = InstrView;

    open spec fn view(&self) -> InstrView {
        match self {
            SsaInstruction::Const { dest, value } => InstrView::Const { dest: *dest, value: value@ },
            SsaInstruction::BinOp { dest, op, left, right } => InstrView::BinOp {
                dest: *dest,
                op: *op,
                left: *left,
                right: *right,
            },
            SsaInstruction::UnaryOp { dest, op, operand } => InstrView::UnaryOp {
                dest: *dest,
                op: *op,
                operand: *operand,
            },
            SsaInstruction::Copy { dest, source } => InstrView::Copy { dest: *dest, source: *source },
            SsaInstruction::Call { dest, func, args } => InstrView::Call { dest: *dest, func: func@, args: args@ },
            SsaInstruction::Load { dest, addr } => InstrView::Load { dest: *dest, addr: *addr },
            SsaInstruction::Store { addr, value } => InstrView::Store { addr: *addr, value: *value },
            SsaInstruction::Phi(phi) => InstrView::Phi { dest: phi.dest, sources: phi.sources@ },
            SsaInstruction::Branch { cond, true_block, false_block } => InstrView::Branch {
                cond: *cond,
                true_block: *true_block,
                false_block: *false_block,
            },
            SsaInstruction::Jump(b) => InstrView::Jump(*b),
            SsaInstruction::Return(v) => InstrView::Return(*v),
        }
    }
}

impl Clone for SsaValue {
    fn clone(&self) -> (r: SsaValue)
        ensures
            r@ == self@,
    {
        match self {
            SsaValue::Int(i) => SsaValue::Int(*i),
            SsaValue::Float(s) => SsaValue::Float(s.clone()),
            SsaValue::Bool(b) => SsaValue::Bool(*b),
            SsaValue::Null => SsaValue::Null,
        }
    }
}

fn clone_ids(v: &Vec<usize>) -> (r: Vec<usize>)
    ensures
        r@ == v@,
{
    let mut out: Vec<usize> = Vec::new();
    let mut i: usize = 0;
    while i < v.len()
        invariant
            0 <= i <= v.len(),
            out@ == v@.take(i as int),
        decreases v.len() - i,
    {
        out.push(v[i]);
        i = i + 1;
        assert(out@ =~= v@.take(i as int));
    }
    assert(v@.take(v.len() as int) =~= v@);
    out
}

fn clone_pairs(v: &Vec<(usize, ValueId)>) -> (r: Vec<(usize, ValueId)>)
    ensures
        r@ == v@,
{
    let mut out: Vec<(usize, ValueId)> = Vec::new();
    let mut i: usize = 0;
    while i < v.len()
        invariant
            0 <= i <= v.len(),
            out@ == v@.take(i as int),
        decreases v.len() - i,
    {
        out.push(v[i]);
        i = i + 1;
        assert(out@ =~= v@.take(i as int));
    }
    assert(v@.take(v.len() as int) =~= v@);
    out
}

impl Clone for SsaInstruction {
    fn clone(&self) -> (r: SsaInstruction)
        ensures
            r@ == self@,
    {
        match self {
            SsaInstruction::Const { dest, value } => SsaInstruction::Const { dest: *dest, value: value.clone() },
            SsaInstruction::BinOp { dest, op, left, right } => SsaInstruction::BinOp {
                dest: *dest,
                op: *op,
                left: *left,
                right: *right,
            },
            SsaInstruction::UnaryOp { dest, op, operand } => SsaInstruction::UnaryOp {
                dest: *dest,
                op: *op,
                operand: *operand,
            },
            SsaInstruction::Copy { dest, source } => SsaInstruction::Copy { dest: *dest, source: *source },
            SsaInstruction::Call { dest, func, args } => SsaInstruction::Call {
                dest: *dest,
                func: func.clone(),
                args: clone_ids(args),
            },
            SsaInstruction::Load { dest, addr } => SsaInstruction::Load { dest: *dest, addr: *addr },
            SsaInstruction::Store { addr, value } => SsaInstruction::Store { addr: *addr, value: *value },
            SsaInstruction::Phi(phi) => SsaInstruction::Phi(
                PhiFunction { dest: phi.dest, sources: clone_pairs(&phi.sources) },
            ),
            SsaInstruction::Branch { cond, true_block, false_block } => SsaInstruction::Branch {
                cond: *cond,
                true_block: *true_block,
                false_block: *false_block,
            },
            SsaInstruction::Jump(b) => SsaInstruction::Jump(*b),
            SsaInstruction::Return(v) => SsaInstruction::Return(*v),
        }
    }
}

/// A basic block in SSA form.
#[derive(Debug)]
pub struct BasicBlock {
    pub id: usize,
    pub label: String,
    pub instructions: Vec<SsaInstruction>,
    pub predecessors: Vec<usize>,
    pub successors: Vec<usize>,
}

/// The mathematical value of a basic block.
pub struct BlockView {
    pub id: usize,
    pub label: Seq<char>,
    pub instructions: Seq<InstrView>,
    pub predecessors: Seq<usize>,
    pub successors: Seq<usize>,
}

pub open spec fn instrs_view(s: Seq<SsaInstruction>) -> Seq<InstrView> {
    Seq::new(s.len(), |i: int| s[i]@)
}

impl View for BasicBlock {
    type V = BlockView;

    open spec fn view(&self) -> BlockView {
        BlockView {
            id: self.id,
            label: self.label@,
            instructions: instrs_view(self.instructions@),
            predecessors: self.predecessors@,
            successors: self.successors@,
        }
    }
}

impl BlockView {
    pub open spec fn new_block(id: usize, label: Seq<char>) -> BlockView {
        BlockView {
            id,
            label,
            instructions: Seq::empty(),
            predecessors: Seq::empty(),
            successors: Seq::empty(),
        }
    }

    pub open spec fn with_instr(self, i: InstrView) -> BlockView {
        BlockView { instructions: self.instructions.push(i), ..self }
    }

    pub open spec fn with_pred(self, p: usize) -> BlockView {
        BlockView { predecessors: self.predecessors.push(p), ..self }
    }

    pub open spec fn with_succ(self, s: usize) -> BlockView {
        BlockView { successors: self.successors.push(s), ..self }
    }

    /// The last instruction, if any.
    pub open spec fn terminator(self) -> Option<InstrView> {
        if self.instructions.len() == 0 {
            None
        } else {
            Some(self.instructions.last())
        }
    }
}

fn clone_instrs(v: &Vec<SsaInstruction>) -> (r: Vec<SsaInstruction>)
    ensures
        instrs_view(r@) == instrs_view(v@),
{
    let mut out: Vec<SsaInstruction> = Vec::new();
    let mut i: usize = 0;
    while i < v.len()
        invariant
            0 <= i <= v.len(),
            out.len() == i,
            forall|j: int| 0 <= j < i ==> (#[trigger] out@[j])@ == v@[j]@,
        decreases v.len() - i,
    {
        out.push(v[i].clone());
        i = i + 1;
    }
    assert(instrs_view(out@) =~= instrs_view(v@));
    out
}

impl Clone for BasicBlock {
    fn clone(&self) -> (r: BasicBlock)
        ensures
            r@ == self@,
    {
        BasicBlock {
            id: self.id,
            label: self.label.clone(),
            instructions: clone_instrs(&self.instructions),
            predecessors: clone_ids(&self.predecessors),
            successors: clone_ids(&self.successors),
        }
    }
}

impl BasicBlock {
    pub fn new(id: usize, label: String) -> (b: BasicBlock)
        ensures
            b@ == BlockView::new_block(id, label@),
    {
        let b = BasicBlock {
            id,
            label,
            instructions: Vec::new(),
            predecessors: Vec::new(),
            successors: Vec::new(),
        };
        assert(b@.instructions =~= Seq::<InstrView>::empty());
        b
    }

    pub fn is_empty(&self) -> (r: bool)
        ensures
            r == (self@.instructions.len() == 0),
    {
        self.instructions.len() == 0
    }

    pub fn terminator(&self) -> (r: Option<&SsaInstruction>)
        ensures
            match r {
                Some(i) => self@.terminator() == Some(i@),
                None => self@.terminator() is None,
            },
    {
        if self.instructions.len() == 0 {
            None
        } else {
            Some(&self.instructions[self.instructions.len() - 1])
        }
    }
}

/// A function in SSA form.
#[derive(Debug)]
pub struct SsaFunction {
    pub name: String,
    pub params: Vec<ValueId>,
    pub blocks: Vec<BasicBlock>,
    pub entry: usize,
    pub next_value: ValueId,
}

/// The mathematical value of a function.
pub struct FuncView {
    pub name: Seq<char>,
    pub params: Seq<ValueId>,
    pub blocks: Seq<BlockView>,
    pub entry: usize,
    pub next_value: nat,
}

pub open spec fn blocks_view(s: Seq<BasicBlock>) -> Seq<BlockView> {
    Seq::new(s.len(), |i: int| s[i]@)
}

impl View for SsaFunction {
    type V = FuncView;

    open spec fn view(&self) -> FuncView {
        FuncView {
            name: self.name@,
            params: self.params@,
            blocks: blocks_view(self.blocks@),
            entry: self.entry,
            next_value: self.next_value as nat,
        }
    }
}

impl FuncView {
    /// A new function: parameters are the first values, one block named `entry`.
    pub open spec fn new_func(name: Seq<char>, param_count: nat) -> FuncView {
        FuncView {
            name,
            params: Seq::new(param_count, |i: int| i as usize),
            blocks: seq![BlockView::new_block(0, "entry"@)],
            entry: 0,
            next_value: param_count,
        }
    }

    /// A new empty block at the end, whose id is its index.
    pub open spec fn add_block(self, label: Seq<char>) -> FuncView {
        FuncView { blocks: self.blocks.push(BlockView::new_block(self.blocks.len() as usize, label)), ..self }
    }

    pub open spec fn fresh(self) -> FuncView {
        FuncView { next_value: self.next_value + 1, ..self }
    }

    /// An instruction appended to the last block.
    pub open spec fn push_instr(self, i: InstrView) -> FuncView {
        FuncView {
            blocks: self.blocks.update(self.blocks.len() - 1, self.blocks.last().with_instr(i)),
            ..self
        }
    }

    pub open spec fn update_block(self, b: int, f: BlockView) -> FuncView {
        FuncView { blocks: self.blocks.update(b, f), ..self }
    }
}

impl Clone for SsaFunction {
    fn clone(&self) -> (r: SsaFunction)
        ensures
            r@ == self@,
    {
        let mut blocks: Vec<BasicBlock> = Vec::new();
        let mut i: usize = 0;
        while i < self.blocks.len()
            invariant
                0 <= i <= self.blocks.len(),
                blocks.len() == i,
                forall|j: int| 0 <= j < i ==> (#[trigger] blocks@[j])@ == self.blocks@[j]@,
            decreases self.blocks.len() - i,
        {
            blocks.push(self.blocks[i].clone());
            i = i + 1;
        }
        let r = SsaFunction {
            name: self.name.clone(),
            params: clone_ids(&self.params),
            blocks,
            entry: self.entry,
            next_value: self.next_value,
        };
        assert(r@.blocks =~= self@.blocks);
        r
    }
}

impl SsaFunction {
    pub fn new(name: String, param_count: usize) -> (f: SsaFunction)
        ensures
            f@ == FuncView::new_func(name@, param_count as nat),
            func_wf(f@),
    {
        let mut params: Vec<ValueId> = Vec::new();
        let mut i: usize = 0;
        while i < param_count
            invariant
                0 <= i <= param_count,
                params@ == Seq::new(i as nat, |j: int| j as usize),
            decreases param_count - i,
        {
            params.push(i);
            i = i + 1;
            assert(params@ =~= Seq::new(i as nat, |j: int| j as usize));
        }
        let mut func = SsaFunction { name, params, blocks: Vec::new(), entry: 0, next_value: param_count };
        proof {
            reveal_strlit("entry");
        }
        func.add_block(String::from_str("entry"));
        assert(func@.blocks =~= seq![BlockView::new_block(0, "entry"@)]);
        func
    }

    pub fn add_block(&mut self, label: String) -> (id: usize)
        requires
            old(self).blocks.len() < usize::MAX,
        ensures
            final(self)@ == old(self)@.add_block(label@),
            id == old(self).blocks.len(),
            func_wf(old(self)@) && old(self)@.blocks.len() > 0 ==> func_wf(final(self)@),
    {
        let id = self.blocks.len();
        self.blocks.push(BasicBlock::new(id, label));
        assert(blocks_view(self.blocks@) =~= blocks_view(old(self).blocks@).push(
            BlockView::new_block(id, label@),
        ));
        proof {
            let f = self@;
            if func_wf(old(self)@) && old(self)@.blocks.len() > 0 {
                assert forall|i: int| 0 <= i < f.blocks.len() implies #[trigger] f.blocks[i].id == i by {
                    if i < id {
                        assert(f.blocks[i] == old(self)@.blocks[i]);
                    } else {
                        assert(f.blocks[i] == BlockView::new_block(id, label@));
                    }
                }
            }
        }
        id
    }

    pub fn fresh_value(&mut self) -> (v: ValueId)
        requires
            old(self).next_value < usize::MAX,
        ensures
            final(self)@ == old(self)@.fresh(),
            v == old(self).next_value,
    {
        let v = self.next_value;
        self.next_value = self.next_value + 1;
        v
    }

    /// The last block.
    pub fn current_block(&mut self) -> (b: &mut BasicBlock)
        requires
            old(self).blocks.len() > 0,
        ensures
            *b == old(self).blocks@.last(),
            final(self).blocks@ == old(self).blocks@.update(old(self).blocks@.len() - 1, *final(b)),
            final(self).name == old(self).name,
            final(self).params == old(self).params,
            final(self).entry == old(self).entry,
            final(self).next_value == old(self).next_value,
    {
        let n = self.blocks.len();
        &mut self.blocks[n - 1]
    }

    /// Append an instruction to the last block.
    pub fn push_instr(&mut self, instr: SsaInstruction)
        requires
            old(self).blocks.len() > 0,
        ensures
            final(self)@ == old(self)@.push_instr(instr@),
    {
        let ghost old_view = self@;
        let ghost iv = instr@;
        let ghost ins = instr;
        let n = self.blocks.len();
        let ghost old_block = self.blocks@[n - 1];
        self.blocks[n - 1].instructions.push(instr);
        proof {
            assert(self.blocks@[n - 1].instructions@ == old_block.instructions@.push(ins));
            assert(instrs_view(old_block.instructions@.push(ins)) =~= instrs_view(old_block.instructions@).push(iv));
            assert(self.blocks@[n - 1]@ == old_block@.with_instr(iv));
            assert(self@.blocks =~= old_view.push_instr(iv).blocks);
        }
    }
}

impl SsaFunction {
    /// Append an instruction to block `b`.
    pub(crate) fn add_instr_to(&mut self, b: usize, instr: SsaInstruction)
        requires
            b < old(self).blocks.len(),
        ensures
            final(self)@ == old(self)@.update_block(b as int, old(self)@.blocks[b as int].with_instr(instr@)),
    {
        let ghost old_view = self@;
        let ghost iv = instr@;
        let ghost ins = instr;
        let ghost old_block = self.blocks@[b as int];
        self.blocks[b].instructions.push(instr);
        proof {
            assert(self.blocks@[b as int].instructions@ == old_block.instructions@.push(ins));
            assert(instrs_view(old_block.instructions@.push(ins)) =~= instrs_view(old_block.instructions@).push(iv));
            assert(self.blocks@[b as int]@ == old_block@.with_instr(iv));
            assert(self@.blocks =~= old_view.blocks.update(b as int, old_view.blocks[b as int].with_instr(iv)));
        }
    }

    /// Record `s` as a successor of block `b`.
    pub(crate) fn add_succ(&mut self, b: usize, s: usize)
        requires
            b < old(self).blocks.len(),
        ensures
            final(self)@ == old(self)@.update_block(b as int, old(self)@.blocks[b as int].with_succ(s)),
    {
        let ghost old_view = self@;
        self.blocks[b].successors.push(s);
        assert(self@.blocks =~= old_view.blocks.update(b as int, old_view.blocks[b as int].with_succ(s)));
    }

    /// Record `p` as a predecessor of block `b`.
    pub(crate) fn add_pred(&mut self, b: usize, p: usize)
        requires
            b < old(self).blocks.len(),
        ensures
            final(self)@ == old(self)@.update_block(b as int, old(self)@.blocks[b as int].with_pred(p)),
    {
        let ghost old_view = self@;
        self.blocks[b].predecessors.push(p);
        assert(self@.blocks =~= old_view.blocks.update(b as int, old_view.blocks[b as int].with_pred(p)));
    }
}

// ---- Dominators ----

/// Block ids are their indices, and the entry is a block when there are blocks.
pub open spec fn func_wf(f: FuncView) -> bool {
    &&& forall|i: int| 0 <= i < f.blocks.len() ==> #[trigger] f.blocks[i].id == i
    &&& f.blocks.len() > 0 ==> f.entry < f.blocks.len()
}

pub open spec fn all_ids(n: nat) -> Set<usize> {
    Set::new(|i: usize| i < n)
}

/// The predecessors that are blocks, in order.
pub open spec fn valid_preds(ps: Seq<usize>, n: nat) -> Seq<usize>
    decreases ps.len(),
{
    if ps.len() == 0 {
        ps
    } else if ps.last() < n {
        valid_preds(ps.drop_last(), n).push(ps.last())
    } else {
        valid_preds(ps.drop_last(), n)
    }
}

/// The blocks in the sets of all the given blocks.
pub open spec fn meet(d: Map<usize, Set<usize>>, ps: Seq<usize>, n: nat) -> Set<usize>
    decreases ps.len(),
{
    if ps.len() == 0 {
        all_ids(n)
    } else {
        meet(d, ps.drop_last(), n).intersect(d[ps.last()])
    }
}

/// The dominator equation of block `b`: the entry is dominated by itself; a block with
/// predecessors by itself and what dominates all of them; any other block by every block.
pub open spec fn dom_step(f: FuncView, d: Map<usize, Set<usize>>, b: usize) -> Set<usize> {
    let n = f.blocks.len();
    let vp = valid_preds(f.blocks[b as int].predecessors, n);
    if b == f.entry {
        set![b]
    } else if vp.len() == 0 {
        all_ids(n)
    } else {
        meet(d, vp, n).insert(b)
    }
}

/// A solution of the dominator equations, one set per block.
pub open spec fn is_dom_solution(f: FuncView, d: Map<usize, Set<usize>>) -> bool {
    &&& d.dom() == all_ids(f.blocks.len())
    &&& forall|b: usize| b < f.blocks.len() ==> #[trigger] d[b] == dom_step(f, d, b)
}

/// The greatest solution: every solution's set of a block is within it.
pub open spec fn is_greatest_dom(f: FuncView, d: Map<usize, Set<usize>>) -> bool {
    &&& is_dom_solution(f, d)
    &&& forall|s: Map<usize, Set<usize>>|
        #[trigger] is_dom_solution(f, s) ==> forall|b: usize| b < f.blocks.len() ==> (#[trigger] s[b]).subset_of(d[b])
}

/// The dominators of each block: the greatest solution of the dominator equations.
pub open spec fn dominator_sets(f: FuncView) -> Map<usize, Set<usize>> {
    choose|d: Map<usize, Set<usize>>| is_greatest_dom(f, d)
}

pub open spec fn dom_map_view(m: HashMap<usize, HashSet<usize>>) -> Map<usize, Set<usize>> {
    Map::new(|k: usize| m@.contains_key(k), |k: usize| m@[k]@)
}

pub open spec fn row_set(r: Seq<bool>) -> Set<usize> {
    Set::new(|i: usize| i < r.len() && r[i as int])
}

pub open spec fn rows_map(rows: Seq<Vec<bool>>) -> Map<usize, Set<usize>> {
    Map::new(|b: usize| b < rows.len(), |b: usize| row_set(rows[b as int]@))
}

pub open spec fn row_count(r: Seq<bool>) -> nat
    decreases r.len(),
{
    if r.len() == 0 {
        0
    } else {
        row_count(r.drop_last()) + if r.last() {
            1nat
        } else {
            0nat
        }
    }
}

pub open spec fn rows_count(rows: Seq<Vec<bool>>, k: int) -> nat
    decreases k,
{
    if k <= 0 {
        0
    } else {
        rows_count(rows, k - 1) + row_count(rows[k - 1]@)
    }
}

proof fn lemma_row_count_lt(a: Seq<bool>, b: Seq<bool>)
    requires
        a.len() == b.len(),
        forall|i: int| 0 <= i < a.len() && a[i] ==> b[i],
    ensures
        row_count(a) <= row_count(b),
        a != b ==> row_count(a) < row_count(b),
    decreases a.len(),
{
    if a.len() == 0 {
        assert(a =~= b);
    } else {
        let (a0, b0) = (a.drop_last(), b.drop_last());
        assert forall|i: int| 0 <= i < a0.len() && a0[i] implies b0[i] by {
            assert(a[i]);
        }
        lemma_row_count_lt(a0, b0);
        assert(a.last() ==> b.last()) by {
            assert(a[a.len() - 1] ==> b[a.len() - 1]);
        }
        if a0 == b0 && a.last() == b.last() {
            assert forall|i: int| 0 <= i < a.len() implies a[i] == b[i] by {
                if i < a.len() - 1 {
                    assert(a[i] == a0[i]);
                    assert(b[i] == b0[i]);
                }
            }
            assert(a =~= b);
        }
    }
}

proof fn lemma_rows_count_update(rows: Seq<Vec<bool>>, j: int, r: Vec<bool>, k: int)
    requires
        0 <= j < rows.len(),
        0 <= k <= rows.len(),
    ensures
        rows_count(rows.update(j, r), k) + (if j < k { row_count(rows[j]@) } else { 0 }) == rows_count(rows, k) + (
        if j < k {
            row_count(r@)
        } else {
            0
        }),
    decreases k,
{
    if k > 0 {
        lemma_rows_count_update(rows, j, r, k - 1);
    }
}

proof fn lemma_meet_mono(d1: Map<usize, Set<usize>>, d2: Map<usize, Set<usize>>, ps: Seq<usize>, n: nat)
    requires
        forall|p: usize| p < n ==> (#[trigger] d1[p]).subset_of(d2[p]),
        forall|i: int| 0 <= i < ps.len() ==> ps[i] < n,
    ensures
        meet(d1, ps, n).subset_of(meet(d2, ps, n)),
    decreases ps.len(),
{
    if ps.len() > 0 {
        lemma_meet_mono(d1, d2, ps.drop_last(), n);
        assert(d1[ps.last()].subset_of(d2[ps.last()]));
    }
}

proof fn lemma_valid_preds(ps: Seq<usize>, n: nat)
    ensures
        forall|i: int| 0 <= i < valid_preds(ps, n).len() ==> #[trigger] valid_preds(ps, n)[i] < n,
    decreases ps.len(),
{
    if ps.len() > 0 {
        let v0 = valid_preds(ps.drop_last(), n);
        lemma_valid_preds(ps.drop_last(), n);
        assert forall|i: int| 0 <= i < valid_preds(ps, n).len() implies #[trigger] valid_preds(ps, n)[i] < n by {
            if i < v0.len() {
                assert(v0[i] < n);
            }
        }
    }
}

proof fn lemma_meet_bounded(d: Map<usize, Set<usize>>, ps: Seq<usize>, n: nat)
    ensures
        meet(d, ps, n).subset_of(all_ids(n)),
    decreases ps.len(),
{
    if ps.len() > 0 {
        lemma_meet_bounded(d, ps.drop_last(), n);
    }
}

/// Two greatest solutions are the same.
proof fn lemma_greatest_unique(f: FuncView, d1: Map<usize, Set<usize>>, d2: Map<usize, Set<usize>>)
    requires
        is_greatest_dom(f, d1),
        is_greatest_dom(f, d2),
    ensures
        d1 == d2,
{
    assert forall|b: usize| #[trigger] d1.contains_key(b) implies d1[b] == d2[b] by {
        assert(d1[b].subset_of(d2[b]));
        assert(d2[b].subset_of(d1[b]));
        assert(d1[b] =~= d2[b]);
    }
    assert(d1 =~= d2);
}

/// A greatest solution is the one that `dominator_sets` names.
proof fn lemma_dominator_sets(f: FuncView, d: Map<usize, Set<usize>>)
    requires
        is_greatest_dom(f, d),
    ensures
        dominator_sets(f) == d,
{
    assert(is_greatest_dom(f, dominator_sets(f)));
    lemma_greatest_unique(f, d, dominator_sets(f));
}

/// What the dominator iteration keeps: one row of `n` flags per block, the entry's row is
/// the entry alone, every equation's right side is within its row, and every solution of
/// the equations is within the rows.
pub open spec fn dom_inv(f: FuncView, rows: Seq<Vec<bool>>) -> bool {
    let n = f.blocks.len();
    let d = rows_map(rows);
    &&& rows.len() == n
    &&& forall|j: int| 0 <= j < n ==> (#[trigger] rows[j])@.len() == n
    &&& f.entry < n
    &&& d[f.entry] == set![f.entry]
    &&& forall|c: usize| c < n ==> (#[trigger] dom_step(f, d, c)).subset_of(d[c])
    &&& forall|c: usize| c < n ==> (#[trigger] d[c]).subset_of(all_ids(n))
    &&& forall|s: Map<usize, Set<usize>>|
        #[trigger] is_dom_solution(f, s) ==> forall|c: usize| c < n ==> (#[trigger] s[c]).subset_of(d[c])
}

proof fn lemma_and_row_set(a: Seq<bool>, b: Seq<bool>, c: Seq<bool>)
    requires
        a.len() == b.len(),
        c.len() == a.len(),
        forall|k: int| 0 <= k < a.len() ==> #[trigger] c[k] == (a[k] && b[k]),
    ensures
        row_set(c) == row_set(a).intersect(row_set(b)),
{
    assert forall|k: usize| #[trigger] row_set(c).contains(k) <==> row_set(a).intersect(row_set(b)).contains(k) by {
        if k < a.len() {
            assert(c[k as int] == (a[k as int] && b[k as int]));
        }
    }
    assert(row_set(c) =~= row_set(a).intersect(row_set(b)));
}

/// The starting rows keep the invariant.
proof fn lemma_dom_inv_init(f: FuncView, rows: Seq<Vec<bool>>)
    requires
        rows.len() == f.blocks.len(),
        f.entry < f.blocks.len(),
        forall|j: int| 0 <= j < rows.len() ==> (#[trigger] rows[j])@.len() == rows.len(),
        forall|j: int| 0 <= j < rows.len() && j != f.entry ==> row_set(#[trigger] rows[j]@) == all_ids(rows.len()),
        row_set(rows[f.entry as int]@) == set![f.entry],
    ensures
        dom_inv(f, rows),
{
    let n = f.blocks.len();
    let d = rows_map(rows);
    assert forall|c: usize| c < n implies (#[trigger] dom_step(f, d, c)).subset_of(d[c]) && (#[trigger] d[c]).subset_of(
        all_ids(n),
    ) by {
        lemma_meet_bounded(d, valid_preds(f.blocks[c as int].predecessors, n), n);
        assert(d[c] == row_set(rows[c as int]@));
    }
    assert forall|s: Map<usize, Set<usize>>| #[trigger] is_dom_solution(f, s) implies forall|c: usize|
        c < n ==> (#[trigger] s[c]).subset_of(d[c]) by {
        assert forall|c: usize| c < n implies (#[trigger] s[c]).subset_of(d[c]) by {
            lemma_meet_bounded(s, valid_preds(f.blocks[c as int].predecessors, n), n);
            assert(s[c] == dom_step(f, s, c));
            assert(d[c] == row_set(rows[c as int]@));
        }
    }
}

/// Replacing a row by the right side of its equation, where that differs from the row,
/// keeps the invariant and lowers the count of set flags.
proof fn lemma_dom_inv_update(f: FuncView, rows: Seq<Vec<bool>>, b: usize, nr: Vec<bool>)
    requires
        dom_inv(f, rows),
        b < f.blocks.len(),
        f.blocks.len() <= usize::MAX,
        b != f.entry,
        nr@.len() == f.blocks.len(),
        row_set(nr@) == dom_step(f, rows_map(rows), b),
        nr@ != rows[b as int]@,
    ensures
        dom_inv(f, rows.update(b as int, nr)),
        rows_count(rows.update(b as int, nr), f.blocks.len() as int) < rows_count(rows, f.blocks.len() as int),
{
    let n = f.blocks.len();
    let d = rows_map(rows);
    let rows2 = rows.update(b as int, nr);
    let d2 = rows_map(rows2);
    let ps = f.blocks[b as int].predecessors;
    assert(d[b] == row_set(rows[b as int]@));
    assert forall|k: int| 0 <= k < nr@.len() && nr@[k] implies rows[b as int]@[k] by {
        assert(row_set(nr@).contains(k as usize));
        assert(d[b].contains(k as usize));
    }
    lemma_row_count_lt(nr@, rows[b as int]@);
    lemma_rows_count_update(rows, b as int, nr, n as int);
    assert forall|c: usize| c < n implies (#[trigger] d2[c]).subset_of(d[c]) by {
        if c == b {
            assert(d2[c] == row_set(nr@));
        } else {
            assert(d2[c] == row_set(rows[c as int]@));
            assert(d[c] == row_set(rows[c as int]@));
        }
    }
    assert(d2[f.entry] == d[f.entry]) by {
        assert(d2[f.entry] == row_set(rows[f.entry as int]@));
    }
    assert forall|c: usize| c < n implies (#[trigger] dom_step(f, d2, c)).subset_of(d2[c]) by {
        lemma_valid_preds(f.blocks[c as int].predecessors, n);
        lemma_meet_mono(d2, d, valid_preds(f.blocks[c as int].predecessors, n), n);
        assert(dom_step(f, d, c).subset_of(d[c]));
        assert(dom_step(f, d2, c).subset_of(dom_step(f, d, c)));
        if c == b {
            assert(d2[c] == row_set(nr@));
        } else {
            assert(d2[c] == row_set(rows[c as int]@));
            assert(d[c] == row_set(rows[c as int]@));
        }
    }
    assert forall|c: usize| c < n implies (#[trigger] d2[c]).subset_of(all_ids(n)) by {
        assert(d2[c].subset_of(d[c]));
    }
    assert forall|s: Map<usize, Set<usize>>| #[trigger] is_dom_solution(f, s) implies forall|c: usize|
        c < n ==> (#[trigger] s[c]).subset_of(d2[c]) by {
        assert forall|c: usize| c < n implies (#[trigger] s[c]).subset_of(d2[c]) by {
            if c == b {
                lemma_valid_preds(ps, n);
                lemma_meet_mono(s, d, valid_preds(ps, n), n);
                assert(s[c] == dom_step(f, s, c));
                assert(d2[c] == row_set(nr@));
            } else {
                assert(d2[c] == row_set(rows[c as int]@));
                assert(d[c] == row_set(rows[c as int]@));
            }
        }
    }
    assert forall|j: int| 0 <= j < n implies (#[trigger] rows2[j])@.len() == n by {
        if j != b {
            assert(rows2[j] == rows[j]);
        }
    }
}

/// `n` flags: all set, or only the one at `entry`.
fn init_row(n: usize, all: bool, entry: usize) -> (r: Vec<bool>)
    ensures
        r@.len() == n,
        forall|k: int| 0 <= k < n ==> r@[k] == (all || k == entry),
{
    let mut row: Vec<bool> = Vec::new();
    let mut i: usize = 0;
    while i < n
        invariant
            0 <= i <= n,
            row@.len() == i,
            forall|k: int| 0 <= k < i ==> row@[k] == (all || k == entry),
        decreases n - i,
    {
        row.push(all || i == entry);
        i = i + 1;
    }
    row
}

/// Clear in `acc` every flag that `row` does not have.
fn and_row(acc: &mut Vec<bool>, row: &Vec<bool>)
    requires
        old(acc)@.len() == row@.len(),
    ensures
        final(acc)@.len() == row@.len(),
        forall|k: int| 0 <= k < row@.len() ==> #[trigger] final(acc)@[k] == (old(acc)@[k] && row@[k]),
{
    let ghost before = acc@;
    let mut i: usize = 0;
    while i < row.len()
        invariant
            0 <= i <= row@.len(),
            acc@.len() == row@.len(),
            before == old(acc)@,
            before.len() == row@.len(),
            forall|k: int| 0 <= k < i ==> #[trigger] acc@[k] == (before[k] && row@[k]),
            forall|k: int| i <= k < row@.len() ==> #[trigger] acc@[k] == before[k],
        decreases row@.len() - i,
    {
        let x = acc[i];
        let y = row[i];
        acc.set(i, x && y);
        i = i + 1;
    }
}

/// Whether two rows of one length are equal.
fn same_row(a: &Vec<bool>, b: &Vec<bool>) -> (r: bool)
    requires
        a@.len() == b@.len(),
    ensures
        r == (a@ == b@),
{
    let mut i: usize = 0;
    while i < a.len()
        invariant
            0 <= i <= a@.len(),
            a@.len() == b@.len(),
            forall|k: int| 0 <= k < i ==> a@[k] == b@[k],
        decreases a@.len() - i,
    {
        if a[i] != b[i] {
            return false;
        }
        i = i + 1;
    }
    assert(a@ =~= b@);
    true
}

/// The set of the indices whose flag is set.
fn row_to_set(r: &Vec<bool>) -> (set: HashSet<usize>)
    ensures
        set@ == row_set(r@),
{
    let mut set: HashSet<usize> = HashSet::new();
    let mut i: usize = 0;
    while i < r.len()
        invariant
            0 <= i <= r@.len(),
            set@ == Set::new(|k: usize| k < i && r@[k as int]),
        decreases r@.len() - i,
    {
        if r[i] {
            set.insert(i);
        }
        i = i + 1;
        assert(set@ =~= Set::new(|k: usize| k < i && r@[k as int]));
    }
    assert(set@ =~= row_set(r@));
    set
}

impl SsaFunction {
    /// The meet of the rows of `b`'s predecessors that are blocks, and whether there is one.
    fn meet_row(&self, rows: &Vec<Vec<bool>>, b: usize) -> (res: (Vec<bool>, bool))
        requires
            b < self@.blocks.len(),
            rows@.len() == self@.blocks.len(),
            forall|j: int| 0 <= j < rows@.len() ==> (#[trigger] rows@[j])@.len() == rows@.len(),
        ensures
            res.0@.len() == rows@.len(),
            res.1 == (valid_preds(self@.blocks[b as int].predecessors, rows@.len() as nat).len() > 0),
            row_set(res.0@) == meet(
                rows_map(rows@),
                valid_preds(self@.blocks[b as int].predecessors, rows@.len() as nat),
                rows@.len() as nat,
            ),
    {
        let n = rows.len();
        let ghost d = rows_map(rows@);
        let preds = &self.blocks[b].predecessors;
        let ghost ps = self@.blocks[b as int].predecessors;
        assert(preds@ == ps);
        let mut acc = init_row(n, true, 0);
        assert(row_set(acc@) =~= all_ids(n as nat));
        assert(ps.take(0) =~= Seq::<usize>::empty());
        let mut any = false;
        let mut j: usize = 0;
        while j < preds.len()
            invariant
                0 <= j <= preds@.len(),
                preds@ == ps,
                n == rows@.len(),
                d == rows_map(rows@),
                forall|i: int| 0 <= i < rows@.len() ==> (#[trigger] rows@[i])@.len() == rows@.len(),
                acc@.len() == n,
                any == (valid_preds(ps.take(j as int), n as nat).len() > 0),
                row_set(acc@) == meet(d, valid_preds(ps.take(j as int), n as nat), n as nat),
            decreases preds@.len() - j,
        {
            let p = preds[j];
            proof {
                let vp = valid_preds(ps.take(j as int), n as nat);
                assert(ps.take(j + 1).drop_last() =~= ps.take(j as int));
                assert(ps.take(j + 1).last() == p);
                assert(vp.push(p).drop_last() =~= vp);
            }
            if p < n {
                let ghost before = acc@;
                and_row(&mut acc, &rows[p]);
                any = true;
                proof {
                    lemma_and_row_set(before, rows@[p as int]@, acc@);
                    assert(d[p] == row_set(rows@[p as int]@));
                }
            }
            j = j + 1;
        }
        assert(ps.take(ps.len() as int) =~= ps);
        (acc, any)
    }

    /// Build the dominator sets with the iterative algorithm: every block starts dominated
    /// by all blocks, the entry by itself, and each equation is applied in block order
    /// until none changes.  Blocks are numbered by position (`func_wf`), as `new` and
    /// `add_block` number them: the sets are keyed by block id, and the frontier and phi
    /// placement that read them find a block by its id.  Where two blocks shared an id,
    /// their sets would overwrite each other in the map.
    pub fn compute_dominators(&self) -> (dom: HashMap<usize, HashSet<usize>>)
        requires
            func_wf(self@),
        ensures
            is_greatest_dom(self@, dom_map_view(dom)),
            dom_map_view(dom) == dominator_sets(self@),
    {
        let ghost f = self@;
        let n = self.blocks.len();
        if n == 0 {
            let dom: HashMap<usize, HashSet<usize>> = HashMap::new();
            proof {
                assert(dom_map_view(dom) =~= Map::<usize, Set<usize>>::empty());
                assert(all_ids(0) =~= Set::<usize>::empty());
                assert(is_dom_solution(f, dom_map_view(dom)));
                lemma_dominator_sets(f, dom_map_view(dom));
            }
            return dom;
        }
        let entry = self.entry;
        // Initialize: the entry is dominated by itself only, every other block by all blocks.
        let mut rows: Vec<Vec<bool>> = Vec::new();
        let mut b: usize = 0;
        while b < n
            invariant
                0 <= b <= n,
                n == f.blocks.len(),
                entry == f.entry,
                rows@.len() == b,
                forall|j: int| 0 <= j < b ==> (#[trigger] rows@[j])@.len() == n,
                forall|j: int| 0 <= j < b && j != entry ==> row_set(#[trigger] rows@[j]@) == all_ids(n as nat),
                entry < b ==> row_set(rows@[entry as int]@) == set![entry],
            decreases n - b,
        {
            let row = init_row(n, b != entry, entry);
            proof {
                if b == entry {
                    assert(row_set(row@) =~= set![entry]);
                } else {
                    assert(row_set(row@) =~= all_ids(n as nat));
                }
            }
            rows.push(row);
            b = b + 1;
        }
        proof {
            lemma_dom_inv_init(f, rows@);
        }
        // Apply the equations until none changes a row.
        loop
            invariant
                n == f.blocks.len(),
                entry == f.entry,
                f == self@,
                dom_inv(f, rows@),
            ensures
                dom_inv(f, rows@),
                forall|c: usize| c < n ==> #[trigger] rows_map(rows@)[c] == dom_step(f, rows_map(rows@), c),
            decreases rows_count(rows@, n as int),
        {
            let mut changed = false;
            let ghost start = rows@;
            let mut b: usize = 0;
            while b < n
                invariant
                    0 <= b <= n,
                    n == f.blocks.len(),
                    entry == f.entry,
                    f == self@,
                    dom_inv(f, rows@),
                    !changed ==> rows@ == start,
                    changed ==> rows_count(rows@, n as int) < rows_count(start, n as int),
                    !changed ==> forall|c: usize| c < b ==> #[trigger] rows_map(rows@)[c] == dom_step(
                        f,
                        rows_map(rows@),
                        c,
                    ),
                decreases n - b,
            {
                let ghost d = rows_map(rows@);
                if b == entry {
                    assert(d[b] =~= dom_step(f, d, b));
                } else {
                    let (mut new_row, any) = self.meet_row(&rows, b);
                    if !any {
                        assert(d[b] == row_set(rows@[b as int]@));
                        assert(dom_step(f, d, b) == all_ids(n as nat));
                        assert(dom_step(f, d, b).subset_of(d[b]));
                        assert(d[b].subset_of(all_ids(n as nat)));
                        assert(d[b] =~= all_ids(n as nat));
                    } else {
                        new_row.set(b, true);
                        proof {
                            let vp = valid_preds(f.blocks[b as int].predecessors, n as nat);
                            lemma_meet_bounded(d, vp, n as nat);
                            let m = meet(d, vp, n as nat);
                            assert forall|k: usize| #[trigger] row_set(new_row@).contains(k) <==> m.insert(b).contains(k) by {
                                if k < n && k != b {
                                    assert(row_set(new_row@).contains(k) == m.contains(k));
                                }
                            }
                            assert(row_set(new_row@) =~= dom_step(f, d, b));
                        }
                        if same_row(&new_row, &rows[b]) {
                            assert(d[b] == row_set(rows@[b as int]@));
                        } else {
                            proof {
                                lemma_dom_inv_update(f, rows@, b, new_row);
                            }
                            rows.set(b, new_row);
                            changed = true;
                        }
                    }
                }
                b = b + 1;
            }
            if !changed {
                break;
            }
        }
        let ghost d = rows_map(rows@);
        proof {
            assert(d.dom() =~= all_ids(n as nat));
            assert(is_dom_solution(f, d));
            assert(is_greatest_dom(f, d));
        }
        // The sets, one per block.
        let mut dom: HashMap<usize, HashSet<usize>> = HashMap::new();
        let mut b: usize = 0;
        while b < n
            invariant
                0 <= b <= n,
                rows@.len() == n,
                d == rows_map(rows@),
                forall|k: usize| #[trigger] dom@.contains_key(k) <==> k < b,
                forall|k: usize| k < b ==> (#[trigger] dom@[k])@ == d[k],
            decreases n - b,
        {
            let set = row_to_set(&rows[b]);
            dom.insert(b, set);
            b = b + 1;
        }
        proof {
            assert(dom_map_view(dom) =~= d);
            lemma_dominator_sets(f, d);
        }
        dom
    }

    /// Whether block `dominator` dominates `block`.
    pub fn dominates(&self, dominator: usize, block: usize) -> (r: bool)
        requires
            func_wf(self@),
        ensures
            r == (dominator_sets(self@).contains_key(block) && dominator_sets(self@)[block].contains(dominator)),
    {
        let dom = self.compute_dominators();
        match dom.get(&block) {
            Some(d) => d.contains(&dominator),
            None => false,
        }
    }
}


// ---- Dominators and paths ----

/// An edge of the flow graph: `p` and `b` are blocks and `p` is a predecessor of `b`.
pub open spec fn cfg_edge(f: FuncView, p: usize, b: usize) -> bool {
    &&& p < f.blocks.len()
    &&& b < f.blocks.len()
    &&& f.blocks[b as int].predecessors.contains(p)
}

/// A path of the flow graph that starts at the entry: each block after the first is reached
/// from the one before it by an edge.
pub open spec fn path_ok(f: FuncView, path: Seq<usize>) -> bool
    decreases path.len(),
{
    if path.len() == 0 {
        false
    } else if path.len() == 1 {
        path[0] == f.entry && f.entry < f.blocks.len()
    } else {
        path_ok(f, path.drop_last()) && cfg_edge(f, path[path.len() - 2], path.last())
    }
}

/// `path` leads from the entry to `b`.
pub open spec fn reaches(f: FuncView, path: Seq<usize>, b: usize) -> bool {
    path_ok(f, path) && path.last() == b
}

/// Some path leads from the entry to `b`.
pub open spec fn reachable(f: FuncView, b: usize) -> bool {
    exists|path: Seq<usize>| #[trigger] reaches(f, path, b)
}

/// `x` lies on every path from the entry to `b`.
pub open spec fn on_every_path(f: FuncView, x: usize, b: usize) -> bool {
    forall|path: Seq<usize>| #[trigger] reaches(f, path, b) ==> path.contains(x)
}

/// Dominance by paths: a block that the entry reaches is dominated by the blocks on every
/// path to it; a block that it does not reach, by every block.
pub open spec fn path_doms(f: FuncView) -> Map<usize, Set<usize>> {
    Map::new(
        |b: usize| b < f.blocks.len(),
        |b: usize|
            if reachable(f, b) {
                Set::new(|x: usize| on_every_path(f, x, b))
            } else {
                all_ids(f.blocks.len())
            },
    )
}

proof fn lemma_path_blocks(f: FuncView, path: Seq<usize>)
    requires
        path_ok(f, path),
    ensures
        path[0] == f.entry,
        forall|k: int| 0 <= k < path.len() ==> #[trigger] path[k] < f.blocks.len(),
    decreases path.len(),
{
    if path.len() > 1 {
        let pre = path.drop_last();
        lemma_path_blocks(f, pre);
        assert(path[0] == pre[0]);
        assert forall|k: int| 0 <= k < path.len() implies #[trigger] path[k] < f.blocks.len() by {
            if k < path.len() - 1 {
                assert(path[k] == pre[k]);
            }
        }
    }
}

proof fn lemma_path_extend(f: FuncView, path: Seq<usize>, b: usize)
    requires
        path_ok(f, path),
        cfg_edge(f, path.last(), b),
    ensures
        reaches(f, path.push(b), b),
{
    assert(path.push(b).drop_last() =~= path);
}

/// A path of two blocks or more ends with an edge from a block that its prefix reaches.
proof fn lemma_path_last_edge(f: FuncView, path: Seq<usize>)
    requires
        path_ok(f, path),
        path.len() > 1,
    ensures
        reaches(f, path.drop_last(), path[path.len() - 2]),
        cfg_edge(f, path[path.len() - 2], path.last()),
        path =~= path.drop_last().push(path.last()),
{
}

proof fn lemma_meet_contains(d: Map<usize, Set<usize>>, ps: Seq<usize>, n: nat, x: usize)
    ensures
        meet(d, ps, n).contains(x) <==> (x < n && forall|i: int| 0 <= i < ps.len() ==> #[trigger] d[ps[i]].contains(x)),
    decreases ps.len(),
{
    if ps.len() > 0 {
        let rest = ps.drop_last();
        lemma_meet_contains(d, rest, n, x);
        if meet(d, ps, n).contains(x) {
            assert forall|i: int| 0 <= i < ps.len() implies #[trigger] d[ps[i]].contains(x) by {
                if i < ps.len() - 1 {
                    assert(ps[i] == rest[i]);
                }
            }
        }
        if x < n && forall|i: int| 0 <= i < ps.len() ==> #[trigger] d[ps[i]].contains(x) {
            assert forall|i: int| 0 <= i < rest.len() implies #[trigger] d[rest[i]].contains(x) by {
                assert(rest[i] == ps[i]);
            }
            assert(d[ps[ps.len() - 1]].contains(x));
        }
    }
}

proof fn lemma_valid_preds_members(ps: Seq<usize>, n: nat, q: usize)
    ensures
        valid_preds(ps, n).contains(q) <==> (ps.contains(q) && q < n),
    decreases ps.len(),
{
    if ps.len() > 0 {
        let rest = ps.drop_last();
        lemma_valid_preds_members(rest, n, q);
        assert(ps =~= rest.push(ps.last()));
        vstd::seq_lib::lemma_seq_contains_after_push(rest, ps.last(), q);
        if ps.last() < n {
            vstd::seq_lib::lemma_seq_contains_after_push(valid_preds(rest, n), ps.last(), q);
        }
    }
}

/// Meeting over predecessors: `x` is in the meet of `d` over the block predecessors of `b`
/// exactly when it is a block in the set of each of them.
proof fn lemma_meet_preds(f: FuncView, d: Map<usize, Set<usize>>, b: usize, x: usize)
    requires
        b < f.blocks.len(),
    ensures
        meet(d, valid_preds(f.blocks[b as int].predecessors, f.blocks.len()), f.blocks.len()).contains(x) <==> (x
            < f.blocks.len() && forall|q: usize| #[trigger] cfg_edge(f, q, b) ==> d[q].contains(x)),
{
    let n = f.blocks.len();
    let vp = valid_preds(f.blocks[b as int].predecessors, n);
    lemma_meet_contains(d, vp, n, x);
    if meet(d, vp, n).contains(x) {
        assert forall|q: usize| #[trigger] cfg_edge(f, q, b) implies d[q].contains(x) by {
            lemma_valid_preds_members(f.blocks[b as int].predecessors, n, q);
            let i = choose|i: int| 0 <= i < vp.len() && vp[i] == q;
            assert(d[vp[i]].contains(x));
        }
    }
    if x < n && forall|q: usize| #[trigger] cfg_edge(f, q, b) ==> d[q].contains(x) {
        assert forall|i: int| 0 <= i < vp.len() implies #[trigger] d[vp[i]].contains(x) by {
            assert(vp.contains(vp[i]));
            lemma_valid_preds_members(f.blocks[b as int].predecessors, n, vp[i]);
            assert(cfg_edge(f, vp[i], b));
        }
    }
}

/// A block has block predecessors exactly when some edge leads to it.
proof fn lemma_valid_preds_empty(f: FuncView, b: usize, q: usize)
    requires
        b < f.blocks.len(),
        cfg_edge(f, q, b),
    ensures
        valid_preds(f.blocks[b as int].predecessors, f.blocks.len()).len() > 0,
{
    lemma_valid_preds_members(f.blocks[b as int].predecessors, f.blocks.len(), q);
}

/// Every solution's set of a block holds blocks only.
proof fn lemma_solution_bounded(f: FuncView, d: Map<usize, Set<usize>>, b: usize)
    requires
        is_dom_solution(f, d),
        b < f.blocks.len(),
    ensures
        d[b].subset_of(all_ids(f.blocks.len())),
{
    assert(d[b] == dom_step(f, d, b));
    lemma_meet_bounded(d, valid_preds(f.blocks[b as int].predecessors, f.blocks.len()), f.blocks.len());
}

/// In every solution, what a block's set holds lies on every path from the entry to it.
proof fn lemma_solution_on_path(f: FuncView, d: Map<usize, Set<usize>>, path: Seq<usize>, x: usize)
    requires
        is_dom_solution(f, d),
        path_ok(f, path),
        d[path.last()].contains(x),
    ensures
        path.contains(x),
    decreases path.len(),
{
    let n = f.blocks.len();
    let b = path.last();
    lemma_path_blocks(f, path);
    assert(b < n);
    assert(d[b] == dom_step(f, d, b));
    if path.len() == 1 {
        assert(path[0] == x);
    } else if x == b {
        assert(path[path.len() - 1] == x);
    } else if b == f.entry {
        assert(path[0] == x);
    } else {
        lemma_path_last_edge(f, path);
        let p = path[path.len() - 2];
        lemma_valid_preds_empty(f, b, p);
        lemma_meet_preds(f, d, b, x);
        assert(d[p].contains(x));
        lemma_solution_on_path(f, d, path.drop_last(), x);
        vstd::seq_lib::lemma_seq_contains_after_push(path.drop_last(), b, x);
    }
}

/// The entry reaches itself, and lies on every path; nothing else lies on the path that is
/// the entry alone.
proof fn lemma_entry_paths(f: FuncView, x: usize)
    requires
        func_wf(f),
        f.blocks.len() > 0,
    ensures
        reachable(f, f.entry),
        on_every_path(f, x, f.entry) <==> x == f.entry,
{
    let one = seq![f.entry];
    assert(reaches(f, one, f.entry));
    if x == f.entry {
        assert forall|path: Seq<usize>| #[trigger] reaches(f, path, f.entry) implies path.contains(x) by {
            lemma_path_blocks(f, path);
            assert(path[0] == x);
        }
    }
    if on_every_path(f, x, f.entry) {
        assert(one.contains(x));
    }
}

/// The sets of `path_doms` solve the dominator equations.
proof fn lemma_path_doms_solution(f: FuncView)
    requires
        func_wf(f),
    ensures
        is_dom_solution(f, path_doms(f)),
{
    let n = f.blocks.len();
    let s = path_doms(f);
    assert(s.dom() =~= all_ids(n));
    assert forall|b: usize| b < n implies #[trigger] s[b] == dom_step(f, s, b) by {
        let vp = valid_preds(f.blocks[b as int].predecessors, n);
        if b == f.entry {
            lemma_entry_paths(f, b);
            assert forall|x: usize| s[b].contains(x) <==> set![b].contains(x) by {
                lemma_entry_paths(f, x);
            }
            assert(s[b] =~= set![b]);
        } else if !reachable(f, b) {
            if vp.len() > 0 {
                assert forall|x: usize| meet(s, vp, n).insert(b).contains(x) <==> all_ids(n).contains(x) by {
                    lemma_meet_preds(f, s, b, x);
                    assert forall|q: usize| #[trigger] cfg_edge(f, q, b) implies s[q].contains(x) || x >= n by {
                        if reachable(f, q) {
                            let path = choose|path: Seq<usize>| #[trigger] reaches(f, path, q);
                            lemma_path_extend(f, path, b);
                        }
                    }
                }
                assert(meet(s, vp, n).insert(b) =~= all_ids(n));
            }
        } else {
            let w = choose|path: Seq<usize>| #[trigger] reaches(f, path, b);
            lemma_path_blocks(f, w);
            lemma_path_last_edge(f, w);
            lemma_valid_preds_empty(f, b, w[w.len() - 2]);
            assert forall|x: usize| #[trigger] s[b].contains(x) <==> meet(s, vp, n).insert(b).contains(x) by {
                lemma_meet_preds(f, s, b, x);
                if s[b].contains(x) && x != b {
                    // x lies on the witness path, so it is a block.
                    assert(w.contains(x));
                    let k = choose|k: int| 0 <= k < w.len() && w[k] == x;
                    assert(w[k] < n);
                    assert forall|q: usize| #[trigger] cfg_edge(f, q, b) implies s[q].contains(x) by {
                        if reachable(f, q) {
                            assert forall|path: Seq<usize>| #[trigger] reaches(f, path, q) implies path.contains(x) by {
                                lemma_path_extend(f, path, b);
                                assert(path.push(b).contains(x));
                                vstd::seq_lib::lemma_seq_contains_after_push(path, b, x);
                            }
                        }
                    }
                }
                if meet(s, vp, n).insert(b).contains(x) {
                    assert forall|path: Seq<usize>| #[trigger] reaches(f, path, b) implies path.contains(x) by {
                        if x == b {
                            assert(path[path.len() - 1] == x);
                        } else {
                            if path.len() == 1 {
                                lemma_path_blocks(f, path);
                            }
                            lemma_path_last_edge(f, path);
                            let p = path[path.len() - 2];
                            assert(cfg_edge(f, p, b));
                            assert(s[p].contains(x));
                            assert(reachable(f, p));
                            assert(reaches(f, path.drop_last(), p));
                            vstd::seq_lib::lemma_seq_contains_after_push(path.drop_last(), b, x);
                        }
                    }
                }
            }
            assert(s[b] =~= meet(s, vp, n).insert(b));
        }
    }
}

/// Dominators are path dominators: the dominator sets (the greatest solution of the
/// dominator equations) give a block that the entry reaches exactly the blocks that lie on
/// every path from the entry to it, and a block that the entry does not reach every block.
pub proof fn lemma_dominators_are_path_dominators(f: FuncView)
    requires
        func_wf(f),
    ensures
        is_greatest_dom(f, path_doms(f)),
        dominator_sets(f) == path_doms(f),
        forall|b: usize, x: usize|
            b < f.blocks.len() && reachable(f, b) ==> (#[trigger] dominator_sets(f)[b].contains(x) <==> on_every_path(
                f,
                x,
                b,
            )),
{
    let n = f.blocks.len();
    let s = path_doms(f);
    lemma_path_doms_solution(f);
    assert forall|d: Map<usize, Set<usize>>| #[trigger] is_dom_solution(f, d) implies forall|b: usize|
        b < n ==> (#[trigger] d[b]).subset_of(s[b]) by {
        assert forall|b: usize| b < n implies (#[trigger] d[b]).subset_of(s[b]) by {
            lemma_solution_bounded(f, d, b);
            if reachable(f, b) {
                assert forall|x: usize| d[b].contains(x) implies s[b].contains(x) by {
                    assert forall|path: Seq<usize>| #[trigger] reaches(f, path, b) implies path.contains(x) by {
                        lemma_solution_on_path(f, d, path, x);
                    }
                }
            }
        }
    }
    lemma_dominator_sets(f, s);
}

// ---- Dominance frontiers ----

/// Predecessor `p` of `y` puts `y` in the frontier of `x`: `p` is a block, `x` dominates
/// `p`, and `x` does not strictly dominate `y`.
pub open spec fn frontier_edge(f: FuncView, y: usize, p: usize, x: usize) -> bool {
    let d = dominator_sets(f);
    &&& p < f.blocks.len()
    &&& d[p].contains(x)
    &&& !(d[y].contains(x) && x != y)
}

/// One of the first `j` predecessors of `y` puts `y` in the frontier of `x`.
pub open spec fn frontier_hits(f: FuncView, y: usize, j: int, x: usize) -> bool {
    exists|i: int| 0 <= i < j && #[trigger] frontier_edge(f, y, f.blocks[y as int].predecessors[i], x)
}

/// `y` is in the dominance frontier of `x`: `x` dominates a predecessor of `y` and does not
/// strictly dominate `y`.
pub open spec fn in_frontier(f: FuncView, x: usize, y: usize) -> bool {
    &&& y < f.blocks.len()
    &&& frontier_hits(f, y, f.blocks[y as int].predecessors.len() as int, x)
}

/// The dominance frontier of each block.
pub open spec fn dominance_frontier(f: FuncView) -> Map<usize, Set<usize>> {
    Map::new(|x: usize| x < f.blocks.len(), |x: usize| Set::new(|y: usize| in_frontier(f, x, y)))
}

/// What the frontier computation needs: a well-formed function whose join blocks (two
/// predecessors or more) have only blocks for predecessors.
pub open spec fn frontier_ready(f: FuncView) -> bool {
    &&& func_wf(f)
    &&& forall|y: usize|
        y < f.blocks.len() && #[trigger] f.blocks[y as int].predecessors.len() >= 2 ==> forall|i: int|
            0 <= i < f.blocks[y as int].predecessors.len() ==> f.blocks[y as int].predecessors[i] < f.blocks.len()
}

/// In any solution of the dominator equations, the entry is dominated by itself alone and
/// every block is among its own dominators.
pub proof fn lemma_dominates_itself(f: FuncView, d: Map<usize, Set<usize>>, b: usize)
    requires
        func_wf(f),
        is_dom_solution(f, d),
        b < f.blocks.len(),
    ensures
        d[b].contains(b),
        d[f.entry] == set![f.entry],
{
    assert(d[b] == dom_step(f, d, b));
    assert(d[f.entry] == dom_step(f, d, f.entry));
}

impl SsaFunction {
    /// The dominance frontier of every block: for each predecessor `p` of each block `y`,
    /// `y` joins the frontier of every dominator of `p` that does not strictly dominate `y`.
    pub fn compute_dominance_frontier(&self) -> (df: HashMap<usize, HashSet<usize>>)
        requires
            frontier_ready(self@),
        ensures
            dom_map_view(df) == dominance_frontier(self@),
    {
        let ghost f = self@;
        let dom = self.compute_dominators();
        let ghost d = dom_map_view(dom);
        let n = self.blocks.len();
        proof {
            assert forall|k: usize| #[trigger] dom@.contains_key(k) <==> k < n by {
                assert(d.contains_key(k) == dom@.contains_key(k));
            }
        }
        let mut fr: Vec<HashSet<usize>> = Vec::new();
        let mut x: usize = 0;
        while x < n
            invariant
                0 <= x <= n,
                fr@.len() == x,
                forall|k: int| 0 <= k < x ==> (#[trigger] fr@[k])@ == Set::<usize>::empty(),
            decreases n - x,
        {
            fr.push(HashSet::new());
            x = x + 1;
        }
        let mut y: usize = 0;
        while y < n
            invariant
                0 <= y <= n,
                n == f.blocks.len(),
                f == self@,
                d == dominator_sets(f),
                d == dom_map_view(dom),
                forall|k: usize| #[trigger] dom@.contains_key(k) <==> k < n,
                fr@.len() == n,
                forall|k: int| 0 <= k < n ==> (#[trigger] fr@[k])@ == Set::new(|z: usize| z < y && in_frontier(f, k as usize, z)),
            decreases n - y,
        {
            let preds = &self.blocks[y].predecessors;
            let ghost ps = f.blocks[y as int].predecessors;
            assert(preds@ == ps);
            let mut j: usize = 0;
            while j < preds.len()
                invariant
                    0 <= j <= preds@.len(),
                    preds@ == ps,
                    ps == f.blocks[y as int].predecessors,
                    y < n,
                    n == f.blocks.len(),
                    d == dominator_sets(f),
                    d == dom_map_view(dom),
                    forall|k: usize| #[trigger] dom@.contains_key(k) <==> k < n,
                    fr@.len() == n,
                    forall|k: int| 0 <= k < n ==> (#[trigger] fr@[k])@ == Set::new(
                        |z: usize| (z < y && in_frontier(f, k as usize, z)) || (z == y && frontier_hits(f, y, j as int, k as usize)),
                    ),
                decreases preds@.len() - j,
            {
                let p = preds[j];
                let ghost frozen = fr@;
                if p < n {
                    let dp = dom.get(&p).unwrap();
                    let dy = dom.get(&y).unwrap();
                    let mut x: usize = 0;
                    while x < n
                        invariant
                            0 <= x <= n,
                            y < n,
                            p < n,
                            p == ps[j as int],
                            0 <= j < ps.len(),
                            n == f.blocks.len(),
                            d == dominator_sets(f),
                            dp@ == d[p],
                            dy@ == d[y],
                            fr@.len() == n,
                            forall|k: int| 0 <= k < n ==> (#[trigger] fr@[k])@ == if k < x && frontier_edge(f, y, p, k as usize) {
                                frozen[k]@.insert(y)
                            } else {
                                frozen[k]@
                            },
                        decreases n - x,
                    {
                        if dp.contains(&x) && !(dy.contains(&x) && x != y) {
                            let ghost fr0 = fr@;
                            let mut set = HashSet::new();
                            std::mem::swap(&mut set, &mut fr[x]);
                            set.insert(y);
                            fr.set(x, set);
                            proof {
                                assert forall|k: int| 0 <= k < n implies (#[trigger] fr@[k])@ == if k < x + 1
                                    && frontier_edge(f, y, p, k as usize) {
                                    frozen[k]@.insert(y)
                                } else {
                                    frozen[k]@
                                } by {
                                    if k != x {
                                        assert(fr@[k] == fr0[k]);
                                    }
                                }
                            }
                        }
                        x = x + 1;
                    }
                }
                proof {
                    assert forall|k: int| 0 <= k < n implies (#[trigger] fr@[k])@ == Set::new(
                        |z: usize| (z < y && in_frontier(f, k as usize, z)) || (z == y && frontier_hits(f, y, j + 1, k as usize)),
                    ) by {
                        let x = k as usize;
                        if frontier_hits(f, y, j + 1, x) && !frontier_hits(f, y, j as int, x) {
                            let i = choose|i: int| 0 <= i < j + 1 && #[trigger] frontier_edge(f, y, ps[i], x);
                            assert(i == j);
                        }
                        if frontier_edge(f, y, ps[j as int], x) {
                            assert(frontier_hits(f, y, j + 1, x));
                        }
                        assert(fr@[k]@ =~= Set::new(
                            |z: usize| (z < y && in_frontier(f, x, z)) || (z == y && frontier_hits(f, y, j + 1, x)),
                        ));
                    }
                }
                j = j + 1;
            }
            proof {
                assert forall|k: int| 0 <= k < n implies (#[trigger] fr@[k])@ == Set::new(
                    |z: usize| z < y + 1 && in_frontier(f, k as usize, z),
                ) by {
                    assert(fr@[k]@ =~= Set::new(|z: usize| z < y + 1 && in_frontier(f, k as usize, z)));
                }
            }
            y = y + 1;
        }
        // One entry per block.
        let mut df: HashMap<usize, HashSet<usize>> = HashMap::new();
        let mut fr = fr;
        let mut x: usize = n;
        while x > 0
            invariant
                0 <= x <= n,
                fr@.len() == x,
                forall|k: int| 0 <= k < x ==> (#[trigger] fr@[k])@ == Set::new(|z: usize| in_frontier(f, k as usize, z)),
                forall|k: usize| #[trigger] df@.contains_key(k) <==> x <= k < n,
                forall|k: usize| x <= k < n ==> (#[trigger] df@[k])@ == Set::new(|z: usize| in_frontier(f, k, z)),
            decreases x,
        {
            x = x - 1;
            let set = fr.pop().unwrap();
            df.insert(x, set);
        }
        proof {
            assert(dom_map_view(df) =~= dominance_frontier(f));
        }
        df
    }
}

// ---- Phi placement ----

/// `p` is closed for the defining blocks `s`: the frontier of each block of `s` or of `p`
/// lies in `p`.
pub open spec fn phi_closed(f: FuncView, s: Set<usize>, p: Set<usize>) -> bool {
    forall|x: usize|
        (s.contains(x) || p.contains(x)) && x < f.blocks.len() ==> #[trigger] dominance_frontier(f)[x].subset_of(p)
}

/// The blocks that need a phi for a variable defined in the blocks `s`: the iterated
/// dominance frontier, the smallest closed set.
pub open spec fn phi_blocks(f: FuncView, s: Set<usize>) -> Set<usize> {
    Set::new(|y: usize| forall|q: Set<usize>| #[trigger] phi_closed(f, s, q) ==> q.contains(y))
}

/// `f` with a phi for a fresh value at the front of block `b`, one source per predecessor.
pub open spec fn phi_at(f: FuncView, b: usize) -> FuncView {
    let blk = f.blocks[b as int];
    let dest = f.next_value as usize;
    let phi = InstrView::Phi {
        dest,
        sources: Seq::new(blk.predecessors.len(), |i: int| (blk.predecessors[i], dest)),
    };
    FuncView {
        blocks: f.blocks.update(b as int, BlockView { instructions: blk.instructions.insert(0, phi), ..blk }),
        next_value: f.next_value + 1,
        ..f
    }
}

/// `f` with phis placed at the blocks of `order`, in that order.
pub open spec fn place_phis(f: FuncView, order: Seq<usize>) -> FuncView
    decreases order.len(),
{
    if order.len() == 0 {
        f
    } else {
        phi_at(place_phis(f, order.drop_last()), order.last())
    }
}

proof fn lemma_all_ids_finite(n: nat)
    requires
        n <= usize::MAX,
    ensures
        all_ids(n).finite(),
        all_ids(n).len() == n,
    decreases n,
{
    if n == 0 {
        assert(all_ids(0) =~= Set::<usize>::empty());
    } else {
        lemma_all_ids_finite((n - 1) as nat);
        assert(!all_ids((n - 1) as nat).contains((n - 1) as usize));
        assert(all_ids(n) =~= all_ids((n - 1) as nat).insert((n - 1) as usize));
    }
}

/// The phi blocks are closed under dominance frontiers (the frontier of each defining
/// block, and of each phi block, holds only phi blocks), and they are blocks.
pub proof fn lemma_phi_blocks(f: FuncView, s: Set<usize>)
    requires
        f.blocks.len() <= usize::MAX,
    ensures
        phi_closed(f, s, phi_blocks(f, s)),
        phi_blocks(f, s).subset_of(all_ids(f.blocks.len())),
        phi_blocks(f, s).finite(),
{
    let p = phi_blocks(f, s);
    let n = f.blocks.len();
    assert forall|x: usize| (s.contains(x) || p.contains(x)) && x < n implies #[trigger] dominance_frontier(
        f,
    )[x].subset_of(p) by {
        assert forall|y: usize| dominance_frontier(f)[x].contains(y) implies p.contains(y) by {
            assert forall|q: Set<usize>| #[trigger] phi_closed(f, s, q) implies q.contains(y) by {
                assert(dominance_frontier(f)[x].subset_of(q));
            }
        }
    }
    assert(phi_closed(f, s, all_ids(n)));
    lemma_all_ids_finite(n);
    vstd::set_lib::lemma_len_subset(p, all_ids(n));
}

impl SsaFunction {
    /// Put a phi for a fresh value at the front of block `b`, one source per predecessor.
    fn place_phi(&mut self, b: usize)
        requires
            b < old(self).blocks.len(),
            old(self).next_value < usize::MAX,
        ensures
            final(self)@ == phi_at(old(self)@, b),
    {
        let ghost old_view = self@;
        let dest = self.fresh_value();
        let ghost preds = self.blocks@[b as int].predecessors@;
        assert(self@.blocks.len() == self.blocks@.len());
        let mut sources: Vec<(usize, ValueId)> = Vec::new();
        let mut i: usize = 0;
        while i < self.blocks[b].predecessors.len()
            invariant
                b < self.blocks.len(),
                self.blocks@[b as int].predecessors@ == preds,
                0 <= i <= preds.len(),
                sources@ == Seq::new(i as nat, |k: int| (preds[k], dest)),
            decreases preds.len() - i,
        {
            let p = self.blocks[b].predecessors[i];
            sources.push((p, dest));
            i = i + 1;
            assert(sources@ =~= Seq::new(i as nat, |k: int| (preds[k], dest)));
        }
        let ghost mid = self@;
        let ghost old_block = self.blocks@[b as int];
        let phi = SsaInstruction::Phi(PhiFunction { dest, sources });
        let ghost ins = phi;
        self.blocks[b].instructions.insert(0, phi);
        proof {
            assert(self.blocks@[b as int].instructions@ == old_block.instructions@.insert(0, ins));
            assert(instrs_view(old_block.instructions@.insert(0, ins)) =~= instrs_view(old_block.instructions@).insert(
                0,
                ins@,
            ));
            assert(self@.blocks =~= phi_at(old_view, b).blocks);
        }
    }

    /// Place phi functions for a variable defined in the blocks `def_blocks`: every block of
    /// the iterated dominance frontier gets one, for a fresh value, at its front.
    pub fn insert_phi_functions(&mut self, _var_name: &str, def_blocks: &HashSet<usize>)
        requires
            frontier_ready(old(self)@),
            old(self).next_value + phi_blocks(old(self)@, def_blocks@).len() <= usize::MAX,
        ensures
            exists|order: Seq<usize>|
                {
                    &&& order.no_duplicates()
                    &&& order.to_set() == phi_blocks(old(self)@, def_blocks@)
                    &&& final(self)@ == place_phis(old(self)@, order)
                },
    {
        let ghost f0 = self@;
        let ghost s = def_blocks@;
        let df = self.compute_dominance_frontier();
        let n = self.blocks.len();
        proof {
            lemma_phi_blocks(f0, s);
            lemma_all_ids_finite(n as nat);
            assert forall|k: usize| #[trigger] df@.contains_key(k) <==> k < n by {
                assert(dom_map_view(df).contains_key(k) == df@.contains_key(k));
            }
        }
        let ghost phi = phi_blocks(f0, s);
        // The defining blocks, in block order, start the worklist.
        let mut worklist: Vec<usize> = Vec::new();
        let mut visited: Vec<bool> = Vec::new();
        let mut placed: Vec<bool> = Vec::new();
        let mut b: usize = 0;
        while b < n
            invariant
                0 <= b <= n,
                s == def_blocks@,
                worklist@.len() <= b,
                visited@.len() == b,
                placed@.len() == b,
                forall|k: int| 0 <= k < b ==> !(#[trigger] visited@[k]),
                forall|k: int| 0 <= k < b ==> !(#[trigger] placed@[k]),
                forall|k: int| 0 <= k < worklist@.len() ==> #[trigger] worklist@[k] < n && s.contains(worklist@[k]),
                forall|x: usize| x < b && s.contains(x) ==> worklist@.contains(x),
            decreases n - b,
        {
            let ghost wl = worklist@;
            if def_blocks.contains(&b) {
                worklist.push(b);
                assert(worklist@[worklist@.len() - 1] == b);
            }
            assert forall|x: usize| x < b + 1 && s.contains(x) implies worklist@.contains(x) by {
                if x < b {
                    let k = choose|k: int| 0 <= k < wl.len() && wl[k] == x;
                    assert(worklist@[k] == x);
                }
            }
            visited.push(false);
            placed.push(false);
            b = b + 1;
        }
        let ghost mut order: Seq<usize> = Seq::empty();
        let ghost mut pset: Set<usize> = Set::empty();
        let ghost mut vset: Set<usize> = Set::empty();
        let mut head: usize = 0;
        while head < worklist.len()
            invariant
                n == f0.blocks.len(),
                n == self.blocks.len(),
                s == def_blocks@,
                frontier_ready(f0),
                phi == phi_blocks(f0, s),
                phi_closed(f0, s, phi),
                phi.subset_of(all_ids(n as nat)),
                phi.finite(),
                all_ids(n as nat).finite(),
                all_ids(n as nat).len() == n,
                f0.next_value + phi.len() <= usize::MAX,
                dom_map_view(df) == dominance_frontier(f0),
                forall|k: usize| #[trigger] df@.contains_key(k) <==> k < n,
                self@ == place_phis(f0, order),
                self.next_value == f0.next_value + order.len(),
                order.no_duplicates(),
                order.to_set() == pset,
                pset.subset_of(phi),
                pset.finite(),
                pset.len() == order.len(),
                vset.subset_of(all_ids(n as nat)),
                vset.finite(),
                placed@.len() == n,
                visited@.len() == n,
                forall|x: usize| x < n ==> (#[trigger] placed@[x as int] <==> pset.contains(x)),
                forall|x: usize| x < n ==> (#[trigger] visited@[x as int] <==> vset.contains(x)),
                forall|x: usize| #[trigger] pset.contains(x) ==> vset.contains(x),
                forall|x: usize| #[trigger] vset.contains(x) ==> worklist@.contains(x),
                forall|k: int| 0 <= k < worklist@.len() ==> #[trigger] worklist@[k] < n && (s.contains(worklist@[k]) || pset.contains(worklist@[k])),
                forall|x: usize| x < n && s.contains(x) ==> worklist@.contains(x),
                forall|k: int| 0 <= k < head ==> dominance_frontier(f0)[#[trigger] worklist@[k]].subset_of(pset),
                head <= worklist@.len(),
                worklist@.len() <= n + vset.len(),
            decreases 2 * n - head,
        {
            proof {
                vstd::set_lib::lemma_len_subset(vset, all_ids(n as nat));
            }
            let x = worklist[head];
            let frontier = df.get(&x).unwrap();
            let ghost fx = dominance_frontier(f0)[x];
            assert(frontier@ == fx);
            let mut fid: usize = 0;
            while fid < n
                invariant
                    n == f0.blocks.len(),
                    n == self.blocks.len(),
                    s == def_blocks@,
                    x < n,
                    s.contains(x) || pset.contains(x),
                    frontier@ == fx,
                    fx == dominance_frontier(f0)[x],
                    0 <= fid <= n,
                    phi == phi_blocks(f0, s),
                    phi_closed(f0, s, phi),
                    phi.subset_of(all_ids(n as nat)),
                    phi.finite(),
                    all_ids(n as nat).finite(),
                    all_ids(n as nat).len() == n,
                    f0.next_value + phi.len() <= usize::MAX,
                    self@ == place_phis(f0, order),
                    self.next_value == f0.next_value + order.len(),
                    order.no_duplicates(),
                    order.to_set() == pset,
                    pset.subset_of(phi),
                    pset.finite(),
                    pset.len() == order.len(),
                    vset.subset_of(all_ids(n as nat)),
                    vset.finite(),
                    placed@.len() == n,
                    visited@.len() == n,
                    forall|z: usize| z < n ==> (#[trigger] placed@[z as int] <==> pset.contains(z)),
                    forall|z: usize| z < n ==> (#[trigger] visited@[z as int] <==> vset.contains(z)),
                    forall|z: usize| #[trigger] pset.contains(z) ==> vset.contains(z),
                    forall|z: usize| #[trigger] vset.contains(z) ==> worklist@.contains(z),
                    forall|k: int| 0 <= k < worklist@.len() ==> #[trigger] worklist@[k] < n && (s.contains(worklist@[k]) || pset.contains(worklist@[k])),
                    forall|z: usize| z < n && s.contains(z) ==> worklist@.contains(z),
                    forall|k: int| 0 <= k < head ==> dominance_frontier(f0)[#[trigger] worklist@[k]].subset_of(pset),
                    head < worklist@.len(),
                    worklist@[head as int] == x,
                    worklist@.len() <= n + vset.len(),
                    forall|z: usize| z < fid && fx.contains(z) ==> pset.contains(z),
                decreases n - fid,
            {
                if frontier.contains(&fid) {
                    if !placed[fid] {
                        proof {
                            assert(dominance_frontier(f0)[x].subset_of(phi));
                            assert(phi.contains(fid));
                            assert(!pset.contains(fid));
                            assert(pset.insert(fid).subset_of(phi));
                            vstd::set_lib::lemma_len_subset(pset.insert(fid), phi);
                        }
                        placed.set(fid, true);
                        self.place_phi(fid);
                        proof {
                            assert(self@.blocks.len() == self.blocks@.len());
                            let old_order = order;
                            order = order.push(fid);
                            pset = pset.insert(fid);
                            assert(order.drop_last() =~= old_order);
                            assert(order.to_set() =~= pset) by {
                                assert forall|z: usize| #[trigger] order.to_set().contains(z) <==> pset.contains(z) by {
                                    if z == fid {
                                        assert(order[old_order.len() as int] == fid);
                                    }
                                    if old_order.contains(z) {
                                        let k = choose|k: int| 0 <= k < old_order.len() && old_order[k] == z;
                                        assert(order[k] == z);
                                    }
                                    if order.contains(z) && z != fid {
                                        let k = choose|k: int| 0 <= k < order.len() && order[k] == z;
                                        assert(old_order[k] == z);
                                    }
                                }
                            }
                            assert(order.no_duplicates()) by {
                                assert forall|i: int, j: int| 0 <= i < order.len() && 0 <= j < order.len() && i != j implies order[i]
                                    != order[j] by {
                                    if j == old_order.len() {
                                        assert(old_order.to_set().contains(order[i]) ==> old_order.contains(order[i]));
                                        assert(old_order.contains(order[i]));
                                    } else if i == old_order.len() {
                                        assert(old_order.contains(order[j]));
                                    }
                                }
                            }
                        }
                    }
                    if !visited[fid] {
                        let ghost wl = worklist@;
                        visited.set(fid, true);
                        worklist.push(fid);
                        proof {
                            vset = vset.insert(fid);
                            assert(worklist@[worklist@.len() - 1] == fid);
                            assert forall|z: usize| #[trigger] vset.contains(z) implies worklist@.contains(z) by {
                                if z != fid {
                                    let k = choose|k: int| 0 <= k < wl.len() && wl[k] == z;
                                    assert(worklist@[k] == z);
                                }
                            }
                            assert forall|z: usize| z < n && s.contains(z) implies worklist@.contains(z) by {
                                let k = choose|k: int| 0 <= k < wl.len() && wl[k] == z;
                                assert(worklist@[k] == z);
                            }
                        }
                    }
                }
                fid = fid + 1;
            }
            head = head + 1;
        }
        proof {
            assert(phi_closed(f0, s, pset)) by {
                assert forall|z: usize| (s.contains(z) || pset.contains(z)) && z < n implies #[trigger] dominance_frontier(
                    f0,
                )[z].subset_of(pset) by {
                    assert(worklist@.contains(z));
                    let k = choose|k: int| 0 <= k < worklist@.len() && worklist@[k] == z;
                    assert(dominance_frontier(f0)[worklist@[k]].subset_of(pset));
                }
            }
            assert(phi.subset_of(pset));
            assert(pset =~= phi);
        }
    }
}

} // verus!
