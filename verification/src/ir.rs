use vstd::prelude::*;

verus! {

/// The symbols of the prelinked runtime module.  `InitGlobals` resets the
/// stacks and the variable memory; `Plus`, `Nand`, `Fetch`, `Store`,
/// `RPush` and `RPop` are the zero-argument primitives operating on the
/// global stacks.  `PushOp`, `PopOp` and `PeekOp` are the runtime's
/// `push`/`pop`/`peek` entry points, which take arguments: the compiler
/// emits them only with their operands folded into the instruction
/// (`PushConst`, the conditional's pop, the final peek), but a source word
/// spelled like one of them still resolves to the symbol, so a zero-argument
/// call to one of the three can be emitted; such a call is ill-typed and
/// the execution model rejects it.
#[derive(Clone, Copy, Debug)]
pub enum Prim {
    InitGlobals,
    PushOp,
    PopOp,
    PeekOp,
    Plus,
    Nand,
    Fetch,
    Store,
    RPush,
    RPop,
}

/// The target of an emitted call: a runtime primitive, or the function at
/// the given index of the module's function list.
#[derive(Clone, Copy, Debug)]
pub enum Callee {
    Prim(Prim),
    User(usize),
}

/// A non-terminator instruction.  `PushConst(c)` is a call to
/// `push(&dataStack, c)`; `Call` is a zero-argument call; `Phi` is the
/// structural placeholder emitted at a conditional's merge block, never
/// consumed.
#[derive(Clone, Copy, Debug)]
pub enum Inst {
    PushConst(i64),
    Call(Callee),
    Phi,
}

/// A block terminator.  `Open` marks a block still under construction.
/// `CondBr` is the conditional's compiled test: it pops the data stack,
/// compares the popped value against -1 for equality and branches to
/// `then_bb` on equality, to `else_bb` otherwise.  `RetPeek` is the
/// return of the synthetic `main`: it returns `peek(&dataStack)`.
#[derive(Clone, Copy, Debug)]
pub enum Term {
    Open,
    Br(usize),
    CondBr { then_bb: usize, else_bb: usize },
    RetVoid,
    RetPeek,
}

#[derive(Debug)]
pub struct BlockIr {
    pub insts: Vec<Inst>,
    pub term: Term,
}

pub struct BlockV {
    pub insts: Seq<Inst>,
    pub term: Term,
}

impl View for BlockIr {
    type V = BlockV;

    open spec fn view(&self) -> BlockV {
        BlockV { insts: self.insts@, term: self.term }
    }
}

#[derive(Debug)]
pub struct FuncIr {
    pub name: Vec<u8>,
    pub blocks: Vec<BlockIr>,
}

pub struct FuncV {
    pub name: Seq<u8>,
    pub blocks: Seq<BlockV>,
}

pub open spec fn view_blocks(s: Seq<BlockIr>) -> Seq<BlockV>
    decreases s.len(),
{
    if s.len() == 0 {
        Seq::empty()
    } else {
        view_blocks(s.subrange(0, s.len() - 1)).push(s[s.len() - 1]@)
    }
}

impl View for FuncIr {
    type V = FuncV;

    open spec fn view(&self) -> FuncV {
        FuncV { name: self.name@, blocks: view_blocks(self.blocks@) }
    }
}

/// The generated module: the functions added by the compiler, in order of
/// addition.  Index 0 is the synthetic `main`; the runtime's own symbols
/// are external to the module and are named through `Callee::Prim`.
#[derive(Debug)]
pub struct ModuleIr {
    pub funcs: Vec<FuncIr>,
}

pub struct ModuleV {
    pub funcs: Seq<FuncV>,
}

pub open spec fn view_funcs(s: Seq<FuncIr>) -> Seq<FuncV>
    decreases s.len(),
{
    if s.len() == 0 {
        Seq::empty()
    } else {
        view_funcs(s.subrange(0, s.len() - 1)).push(s[s.len() - 1]@)
    }
}

impl View for ModuleIr {
    type V = ModuleV;

    open spec fn view(&self) -> ModuleV {
        ModuleV { funcs: view_funcs(self.funcs@) }
    }
}

pub broadcast proof fn lemma_view_blocks_len(s: Seq<BlockIr>)
    ensures
        #[trigger] view_blocks(s).len() == s.len(),
    decreases s.len(),
{
    if s.len() > 0 {
        let prefix = s.subrange(0, s.len() - 1);
        lemma_view_blocks_len(prefix);
        assert(view_blocks(s) == view_blocks(prefix).push(s[s.len() - 1]@));
    }
}

pub broadcast proof fn lemma_view_blocks_index(s: Seq<BlockIr>, i: int)
    requires
        0 <= i < s.len(),
    ensures
        #[trigger] view_blocks(s)[i] == s[i]@,
    decreases s.len(),
{
    lemma_view_blocks_len(s);
    if s.len() > 0 {
        let prefix = s.subrange(0, s.len() - 1);
        lemma_view_blocks_len(prefix);
        assert(view_blocks(s) == view_blocks(prefix).push(s[s.len() - 1]@));
        if i < s.len() - 1 {
            lemma_view_blocks_index(prefix, i);
            assert(prefix[i] == s[i]);
        }
    }
}

pub broadcast proof fn lemma_view_funcs_len(s: Seq<FuncIr>)
    ensures
        #[trigger] view_funcs(s).len() == s.len(),
    decreases s.len(),
{
    if s.len() > 0 {
        let prefix = s.subrange(0, s.len() - 1);
        lemma_view_funcs_len(prefix);
        assert(view_funcs(s) == view_funcs(prefix).push(s[s.len() - 1]@));
    }
}

pub broadcast proof fn lemma_view_funcs_index(s: Seq<FuncIr>, i: int)
    requires
        0 <= i < s.len(),
    ensures
        #[trigger] view_funcs(s)[i] == s[i]@,
    decreases s.len(),
{
    lemma_view_funcs_len(s);
    if s.len() > 0 {
        let prefix = s.subrange(0, s.len() - 1);
        lemma_view_funcs_len(prefix);
        assert(view_funcs(s) == view_funcs(prefix).push(s[s.len() - 1]@));
        if i < s.len() - 1 {
            lemma_view_funcs_index(prefix, i);
            assert(prefix[i] == s[i]);
        }
    }
}

pub proof fn lemma_view_funcs_push(s: Seq<FuncIr>, x: FuncIr)
    ensures
        view_funcs(s.push(x)) =~= view_funcs(s).push(x@),
{
    broadcast use lemma_view_funcs_len, lemma_view_funcs_index;

    assert(s.push(x).subrange(0, s.push(x).len() - 1) =~= s);
    assert(view_funcs(s.push(x)) == view_funcs(s).push(s.push(x)[s.len() as int]@));
}

pub proof fn lemma_view_funcs_update(s: Seq<FuncIr>, i: int, x: FuncIr)
    requires
        0 <= i < s.len(),
    ensures
        view_funcs(s.update(i, x)) =~= view_funcs(s).update(i, x@),
{
    broadcast use lemma_view_funcs_len, lemma_view_funcs_index;

    assert forall|j: int| 0 <= j < s.len() implies view_funcs(s.update(i, x))[j] == view_funcs(
        s,
    ).update(i, x@)[j] by {
        lemma_view_funcs_index(s.update(i, x), j);
    }
}

pub proof fn lemma_view_blocks_push(s: Seq<BlockIr>, x: BlockIr)
    ensures
        view_blocks(s.push(x)) =~= view_blocks(s).push(x@),
{
    broadcast use lemma_view_blocks_len, lemma_view_blocks_index;

    assert(s.push(x).subrange(0, s.push(x).len() - 1) =~= s);
    assert(view_blocks(s.push(x)) == view_blocks(s).push(s.push(x)[s.len() as int]@));
}

pub proof fn lemma_view_blocks_update(s: Seq<BlockIr>, i: int, x: BlockIr)
    requires
        0 <= i < s.len(),
    ensures
        view_blocks(s.update(i, x)) =~= view_blocks(s).update(i, x@),
{
    broadcast use lemma_view_blocks_len, lemma_view_blocks_index;

    assert forall|j: int| 0 <= j < s.len() implies view_blocks(s.update(i, x))[j] == view_blocks(
        s,
    ).update(i, x@)[j] by {
        lemma_view_blocks_index(s.update(i, x), j);
    }
}


pub open spec fn view_vars(s: Seq<(Vec<u8>, i64)>) -> Seq<(Seq<u8>, i64)>
    decreases s.len(),
{
    if s.len() == 0 {
        Seq::empty()
    } else {
        view_vars(s.subrange(0, s.len() - 1)).push((s[s.len() - 1].0@, s[s.len() - 1].1))
    }
}

pub broadcast proof fn lemma_view_vars_len(s: Seq<(Vec<u8>, i64)>)
    ensures
        #[trigger] view_vars(s).len() == s.len(),
    decreases s.len(),
{
    if s.len() > 0 {
        let prefix = s.subrange(0, s.len() - 1);
        lemma_view_vars_len(prefix);
        assert(view_vars(s) == view_vars(prefix).push((s[s.len() - 1].0@, s[s.len() - 1].1)));
    }
}

pub broadcast proof fn lemma_view_vars_index(s: Seq<(Vec<u8>, i64)>, i: int)
    requires
        0 <= i < s.len(),
    ensures
        #[trigger] view_vars(s)[i] == (s[i].0@, s[i].1),
    decreases s.len(),
{
    lemma_view_vars_len(s);
    if s.len() > 0 {
        let prefix = s.subrange(0, s.len() - 1);
        lemma_view_vars_len(prefix);
        assert(view_vars(s) == view_vars(prefix).push((s[s.len() - 1].0@, s[s.len() - 1].1)));
        if i < s.len() - 1 {
            lemma_view_vars_index(prefix, i);
            assert(prefix[i] == s[i]);
        }
    }
}

pub proof fn lemma_view_vars_push(s: Seq<(Vec<u8>, i64)>, x: (Vec<u8>, i64))
    ensures
        view_vars(s.push(x)) =~= view_vars(s).push((x.0@, x.1)),
{
    broadcast use lemma_view_vars_len, lemma_view_vars_index;

    assert(s.push(x).subrange(0, s.push(x).len() - 1) =~= s);
    assert(view_vars(s.push(x)) == view_vars(s).push(
        (s.push(x)[s.len() as int].0@, s.push(x)[s.len() as int].1),
    ));
}

} // verus!
