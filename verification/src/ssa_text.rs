// The text form of SSA functions: one line per instruction, blocks by label.
use vstd::prelude::*;
use crate::ssa::{
    BasicBlock, BlockView, FuncView, InstrView, SsaBinOp, SsaFunction, SsaInstruction, SsaUnaryOp, SsaValue,
    SsaValueView,
};
use crate::text::{nat_decimal, int_decimal, u64_text, i64_text, text_eq};

verus! {

/// The name of a binary operator.
pub open spec fn binop_name(op: SsaBinOp) -> Seq<char> {
    match op {
        SsaBinOp::Add => "Add"@,
        SsaBinOp::Sub => "Sub"@,
        SsaBinOp::Mul => "Mul"@,
        SsaBinOp::Div => "Div"@,
        SsaBinOp::Mod => "Mod"@,
        SsaBinOp::Eq => "Eq"@,
        SsaBinOp::Neq => "Neq"@,
        SsaBinOp::Lt => "Lt"@,
        SsaBinOp::Lte => "Lte"@,
        SsaBinOp::Gt => "Gt"@,
        SsaBinOp::Gte => "Gte"@,
        SsaBinOp::And => "And"@,
        SsaBinOp::Or => "Or"@,
    }
}

/// The name of a unary operator.
pub open spec fn unop_name(op: SsaUnaryOp) -> Seq<char> {
    match op {
        SsaUnaryOp::Neg => "Neg"@,
        SsaUnaryOp::Not => "Not"@,
    }
}

/// A value register: `v` and its number.
pub open spec fn reg(v: usize) -> Seq<char> {
    "v"@ + nat_decimal(v as nat)
}

/// A block reference: `bb` and its number.
pub open spec fn block_ref(b: usize) -> Seq<char> {
    "bb"@ + nat_decimal(b as nat)
}

/// Registers separated by `, `.
pub open spec fn regs_text(vs: Seq<usize>) -> Seq<char>
    decreases vs.len(),
{
    if vs.len() == 0 {
        Seq::empty()
    } else if vs.len() == 1 {
        reg(vs[0])
    } else {
        regs_text(vs.drop_last()) + ", "@ + reg(vs.last())
    }
}

/// Phi sources `bbB:vV` separated by `, `.
pub open spec fn sources_text(ss: Seq<(usize, usize)>) -> Seq<char>
    decreases ss.len(),
{
    if ss.len() == 0 {
        Seq::empty()
    } else if ss.len() == 1 {
        block_ref(ss[0].0) + ":"@ + reg(ss[0].1)
    } else {
        sources_text(ss.drop_last()) + ", "@ + block_ref(ss.last().0) + ":"@ + reg(ss.last().1)
    }
}

/// How a float constant is written: the rendering paired with its text, the first such
/// pair; the text itself where no pair has it.
pub open spec fn float_render(renders: Seq<(Seq<char>, Seq<char>)>, t: Seq<char>) -> Seq<char>
    decreases renders.len(),
{
    if renders.len() == 0 {
        t
    } else if renders[0].0 == t {
        renders[0].1
    } else {
        float_render(renders.drop_first(), t)
    }
}

/// The text of a constant.
pub open spec fn value_text(v: SsaValueView, renders: Seq<(Seq<char>, Seq<char>)>) -> Seq<char> {
    match v {
        SsaValueView::Int(i) => int_decimal(i as int),
        SsaValueView::Float(t) => float_render(renders, t),
        SsaValueView::Bool(b) => if b {
            "true"@
        } else {
            "false"@
        },
        SsaValueView::Null => "null"@,
    }
}

/// The text of an instruction.
pub open spec fn instr_text(i: InstrView, renders: Seq<(Seq<char>, Seq<char>)>) -> Seq<char> {
    match i {
        InstrView::Const { dest, value } => reg(dest) + " = "@ + value_text(value, renders),
        InstrView::BinOp { dest, op, left, right } => reg(dest) + " = "@ + reg(left) + " "@ + binop_name(op) + " "@
            + reg(right),
        InstrView::UnaryOp { dest, op, operand } => reg(dest) + " = "@ + unop_name(op) + " "@ + reg(operand),
        InstrView::Copy { dest, source } => reg(dest) + " = "@ + reg(source),
        InstrView::Call { dest, func, args } => match dest {
            Some(d) => reg(d) + " = "@ + func + "("@ + regs_text(args) + ")"@,
            None => "call "@ + func + "("@ + regs_text(args) + ")"@,
        },
        InstrView::Load { dest, addr } => reg(dest) + " = load "@ + reg(addr),
        InstrView::Store { addr, value } => "store "@ + reg(addr) + ", "@ + reg(value),
        InstrView::Phi { dest, sources } => reg(dest) + " = phi("@ + sources_text(sources) + ")"@,
        InstrView::Branch { cond, true_block, false_block } => "branch "@ + reg(cond) + ", "@ + block_ref(true_block)
            + ", "@ + block_ref(false_block),
        InstrView::Jump(b) => "jump "@ + block_ref(b),
        InstrView::Return(v) => match v {
            Some(x) => "return "@ + reg(x),
            None => "return"@,
        },
    }
}

/// One line per instruction, indented by four spaces.
pub open spec fn instrs_text(is: Seq<InstrView>, renders: Seq<(Seq<char>, Seq<char>)>) -> Seq<char>
    decreases is.len(),
{
    if is.len() == 0 {
        Seq::empty()
    } else {
        instrs_text(is.drop_last(), renders) + "    "@ + instr_text(is.last(), renders) + "\n"@
    }
}

/// A block: its label line, then its instructions.
pub open spec fn block_text(b: BlockView, renders: Seq<(Seq<char>, Seq<char>)>) -> Seq<char> {
    "  "@ + b.label + ":\n"@ + instrs_text(b.instructions, renders)
}

pub open spec fn blocks_text(bs: Seq<BlockView>, renders: Seq<(Seq<char>, Seq<char>)>) -> Seq<char>
    decreases bs.len(),
{
    if bs.len() == 0 {
        Seq::empty()
    } else {
        blocks_text(bs.drop_last(), renders) + block_text(bs.last(), renders)
    }
}

/// A function: a header line with its name and parameter count, then its blocks.
pub open spec fn func_text(f: FuncView, renders: Seq<(Seq<char>, Seq<char>)>) -> Seq<char> {
    "fn "@ + f.name + "("@ + nat_decimal(f.params.len()) + "):\n"@ + blocks_text(f.blocks, renders)
}

pub open spec fn renders_view(rs: Seq<(String, String)>) -> Seq<(Seq<char>, Seq<char>)> {
    Seq::new(rs.len(), |i: int| (rs[i].0@, rs[i].1@))
}

/// The float constants of a list of instructions, in order.
pub open spec fn instr_floats(is: Seq<InstrView>) -> Seq<Seq<char>>
    decreases is.len(),
{
    if is.len() == 0 {
        Seq::empty()
    } else {
        instr_floats(is.drop_last()) + match is.last() {
            InstrView::Const { value: SsaValueView::Float(t), .. } => seq![t],
            _ => Seq::empty(),
        }
    }
}

/// The float constants of a function, block by block.
pub open spec fn block_floats(bs: Seq<BlockView>) -> Seq<Seq<char>>
    decreases bs.len(),
{
    if bs.len() == 0 {
        Seq::empty()
    } else {
        block_floats(bs.drop_last()) + instr_floats(bs.last().instructions)
    }
}

fn reg_string(v: usize) -> (r: String)
    ensures
        r@ == reg(v),
{
    let mut s = String::from_str("v");
    let d = u64_text(v as u64);
    s.append(d.as_str());
    s
}

fn block_string(b: usize) -> (r: String)
    ensures
        r@ == block_ref(b),
{
    let mut s = String::from_str("bb");
    let d = u64_text(b as u64);
    s.append(d.as_str());
    s
}

fn regs_string(vs: &Vec<usize>) -> (r: String)
    ensures
        r@ == regs_text(vs@),
{
    let mut s = String::new();
    let mut i: usize = 0;
    while i < vs.len()
        invariant
            0 <= i <= vs@.len(),
            s@ == regs_text(vs@.take(i as int)),
        decreases vs@.len() - i,
    {
        let t = reg_string(vs[i]);
        proof {
            assert(vs@.take(i + 1).drop_last() =~= vs@.take(i as int));
            reveal_strlit(", ");
        }
        if i > 0 {
            s.append(", ");
        }
        s.append(t.as_str());
        i = i + 1;
    }
    assert(vs@.take(vs@.len() as int) =~= vs@);
    s
}

fn sources_string(ss: &Vec<(usize, usize)>) -> (r: String)
    ensures
        r@ == sources_text(ss@),
{
    let mut s = String::new();
    let mut i: usize = 0;
    while i < ss.len()
        invariant
            0 <= i <= ss@.len(),
            s@ == sources_text(ss@.take(i as int)),
        decreases ss@.len() - i,
    {
        let b = block_string(ss[i].0);
        let v = reg_string(ss[i].1);
        proof {
            assert(ss@.take(i + 1).drop_last() =~= ss@.take(i as int));
        }
        if i > 0 {
            s.append(", ");
        }
        s.append(b.as_str());
        s.append(":");
        s.append(v.as_str());
        i = i + 1;
    }
    assert(ss@.take(ss@.len() as int) =~= ss@);
    s
}

/// How the float with text `t` is written: its rendering among `renders`, or `t` itself.
pub fn float_text(renders: &Vec<(String, String)>, t: &String) -> (r: String)
    ensures
        r@ == float_render(renders_view(renders@), t@),
{
    let ghost rv = renders_view(renders@);
    assert(rv.skip(0) =~= rv);
    let mut i: usize = 0;
    while i < renders.len()
        invariant
            0 <= i <= renders@.len(),
            rv == renders_view(renders@),
            float_render(rv, t@) == float_render(rv.skip(i as int), t@),
        decreases renders@.len() - i,
    {
        assert(rv.skip(i as int).drop_first() =~= rv.skip(i + 1));
        if text_eq(renders[i].0.as_str(), t.as_str()) {
            return renders[i].1.clone();
        }
        i = i + 1;
    }
    t.clone()
}

impl SsaValue {
    /// The text of a constant; a float as its rendering among `renders`.
    pub fn text_with(&self, renders: &Vec<(String, String)>) -> (r: String)
        ensures
            r@ == value_text(self@, renders_view(renders@)),
    {
        match self {
            SsaValue::Int(i) => i64_text(*i),
            SsaValue::Float(t) => float_text(renders, t),
            SsaValue::Bool(b) => if *b {
                String::from_str("true")
            } else {
                String::from_str("false")
            },
            SsaValue::Null => String::from_str("null"),
        }
    }
}

impl SsaBinOp {
    /// The operator's name.
    pub fn name(&self) -> (r: &'static str)
        ensures
            r@ == binop_name(*self),
    {
        match self {
            SsaBinOp::Add => "Add",
            SsaBinOp::Sub => "Sub",
            SsaBinOp::Mul => "Mul",
            SsaBinOp::Div => "Div",
            SsaBinOp::Mod => "Mod",
            SsaBinOp::Eq => "Eq",
            SsaBinOp::Neq => "Neq",
            SsaBinOp::Lt => "Lt",
            SsaBinOp::Lte => "Lte",
            SsaBinOp::Gt => "Gt",
            SsaBinOp::Gte => "Gte",
            SsaBinOp::And => "And",
            SsaBinOp::Or => "Or",
        }
    }
}

impl SsaUnaryOp {
    /// The operator's name.
    pub fn name(&self) -> (r: &'static str)
        ensures
            r@ == unop_name(*self),
    {
        match self {
            SsaUnaryOp::Neg => "Neg",
            SsaUnaryOp::Not => "Not",
        }
    }
}

impl SsaInstruction {
    /// The text of the instruction; float constants as their renderings among `renders`.
    pub fn text_with(&self, renders: &Vec<(String, String)>) -> (r: String)
        ensures
            r@ == instr_text(self@, renders_view(renders@)),
    {
        match self {
            SsaInstruction::Const { dest, value } => {
                let mut s = reg_string(*dest);
                s.append(" = ");
                let v = value.text_with(renders);
                s.append(v.as_str());
                s
            },
            SsaInstruction::BinOp { dest, op, left, right } => {
                let mut s = reg_string(*dest);
                s.append(" = ");
                s.append(reg_string(*left).as_str());
                s.append(" ");
                s.append(op.name());
                s.append(" ");
                s.append(reg_string(*right).as_str());
                s
            },
            SsaInstruction::UnaryOp { dest, op, operand } => {
                let mut s = reg_string(*dest);
                s.append(" = ");
                s.append(op.name());
                s.append(" ");
                s.append(reg_string(*operand).as_str());
                s
            },
            SsaInstruction::Copy { dest, source } => {
                let mut s = reg_string(*dest);
                s.append(" = ");
                s.append(reg_string(*source).as_str());
                s
            },
            SsaInstruction::Call { dest, func, args } => {
                let mut s = match dest {
                    Some(d) => {
                        let mut h = reg_string(*d);
                        h.append(" = ");
                        h
                    },
                    None => String::from_str("call "),
                };
                s.append(func.as_str());
                s.append("(");
                s.append(regs_string(args).as_str());
                s.append(")");
                s
            },
            SsaInstruction::Load { dest, addr } => {
                let mut s = reg_string(*dest);
                s.append(" = load ");
                s.append(reg_string(*addr).as_str());
                s
            },
            SsaInstruction::Store { addr, value } => {
                let mut s = String::from_str("store ");
                s.append(reg_string(*addr).as_str());
                s.append(", ");
                s.append(reg_string(*value).as_str());
                s
            },
            SsaInstruction::Phi(phi) => {
                let mut s = reg_string(phi.dest);
                s.append(" = phi(");
                s.append(sources_string(&phi.sources).as_str());
                s.append(")");
                s
            },
            SsaInstruction::Branch { cond, true_block, false_block } => {
                let mut s = String::from_str("branch ");
                s.append(reg_string(*cond).as_str());
                s.append(", ");
                s.append(block_string(*true_block).as_str());
                s.append(", ");
                s.append(block_string(*false_block).as_str());
                s
            },
            SsaInstruction::Jump(b) => {
                let mut s = String::from_str("jump ");
                s.append(block_string(*b).as_str());
                s
            },
            SsaInstruction::Return(v) => match v {
                Some(x) => {
                    let mut s = String::from_str("return ");
                    s.append(reg_string(*x).as_str());
                    s
                },
                None => String::from_str("return"),
            },
        }
    }
}

fn block_string_with(b: &BasicBlock, renders: &Vec<(String, String)>) -> (r: String)
    ensures
        r@ == block_text(b@, renders_view(renders@)),
{
    let ghost is = b@.instructions;
    let mut s = String::from_str("  ");
    s.append(b.label.as_str());
    s.append(":\n");
    let ghost head = s@;
    let mut i: usize = 0;
    while i < b.instructions.len()
        invariant
            0 <= i <= b.instructions@.len(),
            is == b@.instructions,
            s@ == head + instrs_text(is.take(i as int), renders_view(renders@)),
        decreases b.instructions@.len() - i,
    {
        let t = b.instructions[i].text_with(renders);
        proof {
            assert(is[i as int] == b.instructions@[i as int]@);
            assert(is.take(i + 1).drop_last() =~= is.take(i as int));
        }
        s.append("    ");
        s.append(t.as_str());
        s.append("\n");
        i = i + 1;
    }
    assert(is.take(is.len() as int) =~= is);
    s
}

impl SsaFunction {
    /// The float constants, in the order the text shows them.
    pub fn float_constants(&self) -> (r: Vec<String>)
        ensures
            r@.map_values(|t: String| t@) == block_floats(self@.blocks),
    {
        let ghost bs = self@.blocks;
        let mut out: Vec<String> = Vec::new();
        let mut b: usize = 0;
        while b < self.blocks.len()
            invariant
                0 <= b <= self.blocks@.len(),
                bs == self@.blocks,
                out@.map_values(|t: String| t@) == block_floats(bs.take(b as int)),
            decreases self.blocks@.len() - b,
        {
            let ghost is = bs[b as int].instructions;
            let ghost base = out@.map_values(|t: String| t@);
            let mut i: usize = 0;
            while i < self.blocks[b].instructions.len()
                invariant
                    0 <= b < self.blocks@.len(),
                    0 <= i <= self.blocks@[b as int].instructions@.len(),
                    is == self.blocks@[b as int]@.instructions,
                    out@.map_values(|t: String| t@) == base + instr_floats(is.take(i as int)),
                decreases self.blocks@[b as int].instructions@.len() - i,
            {
                proof {
                    assert(is.take(i + 1).drop_last() =~= is.take(i as int));
                    assert(is[i as int] == self.blocks@[b as int].instructions@[i as int]@);
                }
                let ghost before = out@;
                match &self.blocks[b].instructions[i] {
                    SsaInstruction::Const { value: SsaValue::Float(t), .. } => {
                        out.push(t.clone());
                        assert(out@.map_values(|t: String| t@) =~= before.map_values(|t: String| t@).push(t@));
                    },
                    _ => {},
                }
                i = i + 1;
                assert(out@.map_values(|t: String| t@) =~= base + instr_floats(is.take(i as int)));
            }
            proof {
                assert(is.take(is.len() as int) =~= is);
                assert(bs.take(b + 1).drop_last() =~= bs.take(b as int));
            }
            b = b + 1;
        }
        assert(bs.take(bs.len() as int) =~= bs);
        out
    }

    /// The text of the function; float constants as their renderings among `renders`
    /// (pairs of a constant's text and how it is written).
    pub fn to_string_with(&self, renders: &Vec<(String, String)>) -> (r: String)
        ensures
            r@ == func_text(self@, renders_view(renders@)),
    {
        let ghost bs = self@.blocks;
        let mut s = String::from_str("fn ");
        s.append(self.name.as_str());
        s.append("(");
        s.append(u64_text(self.params.len() as u64).as_str());
        s.append("):\n");
        let ghost head = s@;
        let mut b: usize = 0;
        while b < self.blocks.len()
            invariant
                0 <= b <= self.blocks@.len(),
                bs == self@.blocks,
                s@ == head + blocks_text(bs.take(b as int), renders_view(renders@)),
            decreases self.blocks@.len() - b,
        {
            let t = block_string_with(&self.blocks[b], renders);
            proof {
                assert(bs.take(b + 1).drop_last() =~= bs.take(b as int));
            }
            s.append(t.as_str());
            b = b + 1;
        }
        assert(bs.take(bs.len() as int) =~= bs);
        s
    }

    /// The text of the function, float constants as the text they hold.
    pub fn to_string(&self) -> (r: String)
        ensures
            r@ == func_text(self@, Seq::empty()),
    {
        let renders: Vec<(String, String)> = Vec::new();
        assert(renders_view(renders@) =~= Seq::empty());
        self.to_string_with(&renders)
    }
}

} // verus!
