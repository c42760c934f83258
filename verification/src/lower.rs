use vstd::prelude::*;
use crate::ast::{view_ast_seq, Ast, AstV};
use crate::ir::{BlockIr, BlockV, Callee, FuncIr, FuncV, Inst, ModuleIr, ModuleV, Prim, Term};
use crate::ir::{lemma_view_vars_push, view_funcs, view_vars};
use crate::ir::{
    lemma_view_blocks_index, lemma_view_blocks_len, lemma_view_blocks_push,
    lemma_view_blocks_update, lemma_view_funcs_index, lemma_view_funcs_len, lemma_view_funcs_push,
    lemma_view_funcs_update,
};
use crate::names::{bytes_eq, prim_alias, runtime_prim, spec_prim_alias, spec_runtime_prim};

verus! {

broadcast use crate::ir::lemma_view_funcs_len, crate::ir::lemma_view_funcs_index,
    crate::ir::lemma_view_blocks_len, crate::ir::lemma_view_blocks_index,
    crate::ast::lemma_view_ast_seq_len, crate::ast::lemma_view_ast_seq_index,
    crate::ir::lemma_view_vars_len, crate::ir::lemma_view_vars_index;


/// The base from which variable addresses are allocated, one per
/// declaration; lowering a variable reference pushes the address minus
/// this base, translating into the runtime's slot indexing.
pub const VAR_BASE: i64 = 1000;

/// The code generator: the module under construction, the insertion
/// cursor (a function index and a block index within it; the block at
/// the cursor is still open), the variables table and the next variable
/// address.  Function 0 is the synthetic `main`, created at
/// construction with its entry block and the initial `initGlobals` call.
pub struct CodeGen {
    pub module: ModuleIr,
    pub cur_fn: usize,
    pub cur_blk: usize,
    pub vars: Vec<(Vec<u8>, i64)>,
    pub variable_addr: i64,
}

pub struct CodeGenV {
    pub module: ModuleV,
    pub cur_fn: int,
    pub cur_blk: int,
    pub vars: Seq<(Seq<u8>, i64)>,
    pub variable_addr: i64,
}

impl View for CodeGen {
    type V = CodeGenV;

    open spec fn view(&self) -> CodeGenV {
        CodeGenV {
            module: self.module@,
            cur_fn: self.cur_fn as int,
            cur_blk: self.cur_blk as int,
            vars: view_vars(self.vars@),
            variable_addr: self.variable_addr,
        }
    }
}

/// Well-formedness of the generator: the cursor names an open block of
/// an existing function, and every allocated variable address is at or
/// above the allocation base.
pub open spec fn wf(g: CodeGenV) -> bool {
    &&& 0 <= g.cur_fn < g.module.funcs.len()
    &&& 0 <= g.cur_blk < g.module.funcs[g.cur_fn].blocks.len()
    &&& g.module.funcs[g.cur_fn].blocks[g.cur_blk].term is Open
    &&& g.variable_addr >= VAR_BASE
    &&& forall|i: int| 0 <= i < g.vars.len() ==> (#[trigger] g.vars[i]).1 >= VAR_BASE
}

/// Appends one instruction to the block at the cursor.
pub open spec fn emit(g: CodeGenV, inst: Inst) -> CodeGenV {
    let f = g.module.funcs[g.cur_fn];
    let b = f.blocks[g.cur_blk];
    CodeGenV {
        module: ModuleV {
            funcs: g.module.funcs.update(
                g.cur_fn,
                FuncV {
                    blocks: f.blocks.update(
                        g.cur_blk,
                        BlockV { insts: b.insts.push(inst), ..b },
                    ),
                    ..f
                },
            ),
        },
        ..g
    }
}

/// Terminates the block at the cursor.
pub open spec fn seal(g: CodeGenV, t: Term) -> CodeGenV {
    let f = g.module.funcs[g.cur_fn];
    let b = f.blocks[g.cur_blk];
    CodeGenV {
        module: ModuleV {
            funcs: g.module.funcs.update(
                g.cur_fn,
                FuncV { blocks: f.blocks.update(g.cur_blk, BlockV { term: t, ..b }), ..f },
            ),
        },
        ..g
    }
}

/// Moves the cursor.
pub open spec fn set_cursor(g: CodeGenV, f: int, b: int) -> CodeGenV {
    CodeGenV { cur_fn: f, cur_blk: b, ..g }
}

/// Appends a fresh open block to function `f` of the module.
pub open spec fn add_block(g: CodeGenV, f: int) -> CodeGenV {
    let fu = g.module.funcs[f];
    CodeGenV {
        module: ModuleV {
            funcs: g.module.funcs.update(
                f,
                FuncV { blocks: fu.blocks.push(BlockV { insts: Seq::empty(), term: Term::Open }), ..fu },
            ),
        },
        ..g
    }
}

/// Appends a fresh function with one open entry block and moves the
/// cursor to it.
pub open spec fn add_func(g: CodeGenV, name: Seq<u8>) -> CodeGenV {
    CodeGenV {
        module: ModuleV {
            funcs: g.module.funcs.push(
                FuncV {
                    name: name,
                    blocks: seq![BlockV { insts: Seq::empty(), term: Term::Open }],
                },
            ),
        },
        cur_fn: g.module.funcs.len() as int,
        cur_blk: 0,
        ..g
    }
}

/// The index of the first function of the module with the given name,
/// searching from `i`: the module behaves as a symbol table in which the
/// earliest addition of a name wins, as in a backend that renames later
/// functions of an already-taken name.
pub open spec fn lookup_func_from(funcs: Seq<FuncV>, w: Seq<u8>, i: int) -> Option<int>
    decreases funcs.len() - i,
{
    if i < 0 || i >= funcs.len() {
        None
    } else if funcs[i].name == w {
        Some(i)
    } else {
        lookup_func_from(funcs, w, i + 1)
    }
}

/// The address bound to variable `w`: the latest declaration wins, as a
/// map insert overwrites.
pub open spec fn lookup_var(vars: Seq<(Seq<u8>, i64)>, w: Seq<u8>) -> Option<i64>
    decreases vars.len(),
{
    if vars.len() == 0 {
        None
    } else if vars[vars.len() - 1].0 == w {
        Some(vars[vars.len() - 1].1)
    } else {
        lookup_var(vars.subrange(0, vars.len() - 1), w)
    }
}

/// Word resolution, in order: hardcoded primitive aliases, then the
/// module's function symbols (runtime primitives, then user words, the
/// earliest of a name winning), then variables (lowered as a push of the
/// address minus the base).  An unresolved word is silently ignored.
pub open spec fn spec_lower_word(g: CodeGenV, w: Seq<u8>) -> CodeGenV {
    match spec_prim_alias(w) {
        Some(p) => emit(g, Inst::Call(Callee::Prim(p))),
        None => match spec_runtime_prim(w) {
            Some(p) => emit(g, Inst::Call(Callee::Prim(p))),
            None => match lookup_func_from(g.module.funcs, w, 0) {
                Some(fi) => emit(g, Inst::Call(Callee::User(fi as usize))),
                None => match lookup_var(g.vars, w) {
                    Some(addr) => emit(g, Inst::PushConst((addr - VAR_BASE) as i64)),
                    None => g,
                },
            },
        },
    }
}

/// The next variable address, saturating at the machine limit.
pub open spec fn next_var_addr(a: i64) -> i64 {
    if a == i64::MAX {
        a
    } else {
        (a + 1) as i64
    }
}

/// Lowering: the translation of one syntax node into instructions and
/// blocks of the module, at the cursor.
///
/// - `Push(i)` emits a push of `i`.
/// - `Word(w)` resolves as `spec_lower_word` says.
/// - `Phrase` lowers its items in order.
/// - `Conditional` appends three fresh blocks (then, else, merge) to the
///   cursor's function, terminates the cursor block with the pop-and-
///   compare-against-(-1) branch, lowers the consequent into the then
///   block and the alternative (if any) into the else block, terminates
///   both arms with branches to the merge block, and leaves the cursor at
///   the merge block after emitting the placeholder phi.
/// - `Definition` (a phrase whose head is the word naming it) saves the
///   cursor, appends a fresh function, lowers the body into it, seals it
///   with a return and restores the saved cursor.  An ill-formed
///   `Definition` node is ignored, as is a declaration form the parser
///   cannot produce.
/// - `Variable(n)` binds `n` to the next free address and emits nothing.
/// - `DotQuote` and `DoLoop` are deliberate stubs: no code.
pub open spec fn spec_lower(g: CodeGenV, a: AstV) -> CodeGenV
    decreases a, 1nat,
{
    match a {
        AstV::Push(i) => emit(g, Inst::PushConst(i)),
        AstV::Word(w) => spec_lower_word(g, w),
        AstV::Variable(n) => CodeGenV {
            vars: g.vars.push((n, g.variable_addr)),
            variable_addr: next_var_addr(g.variable_addr),
            ..g
        },
        AstV::DotQuote(_) => g,
        AstV::DoLoop(_) => g,
        AstV::Phrase(items) => spec_lower_seq(g, items),
        AstV::Conditional { consequent, alternative } => {
            let f = g.cur_fn;
            let nb = g.module.funcs[f].blocks.len() as int;
            let g1 = add_block(add_block(add_block(g, f), f), f);
            let g2 = seal(
                g1,
                Term::CondBr { then_bb: nb as usize, else_bb: (nb + 1) as usize },
            );
            let g3 = set_cursor(g2, f, nb);
            let g4 = spec_lower(g3, *consequent);
            let g5 = set_cursor(seal(g4, Term::Br((nb + 2) as usize)), f, nb + 1);
            let g6 = match alternative {
                Some(alt) => spec_lower(g5, *alt),
                None => g5,
            };
            let g7 = set_cursor(seal(g6, Term::Br((nb + 2) as usize)), f, nb + 2);
            emit(g7, Inst::Phi)
        },
        AstV::Definition(inner) => {
            match *inner {
                AstV::Phrase(items) => {
                    if items.len() >= 1 {
                        match items[0] {
                            AstV::Word(name) => {
                                let saved_f = g.cur_fn;
                                let saved_b = g.cur_blk;
                                let g1 = add_func(g, name);
                                let g2 = spec_lower_seq(g1, items.skip(1));
                                let g3 = seal(g2, Term::RetVoid);
                                set_cursor(g3, saved_f, saved_b)
                            },
                            _ => g,
                        }
                    } else {
                        g
                    }
                },
                _ => g,
            }
        },
    }
}

/// Lowers a sequence of items in order, as `Phrase` does.
pub open spec fn spec_lower_seq(g: CodeGenV, items: Seq<AstV>) -> CodeGenV
    decreases items, 0nat,
{
    if items.len() == 0 {
        g
    } else {
        spec_lower_seq(spec_lower(g, items[0]), items.skip(1))
    }
}


/// What lowering does to the shape of the generator: well-formedness is
/// kept; the cursor stays in the same function; functions and blocks are
/// only appended; functions other than the cursor's are untouched, as are
/// the cursor function's existing blocks other than the cursor block; and
/// the cursor either stays or moves to a freshly created block.
pub proof fn lemma_lower_wf(g: CodeGenV, a: AstV)
    requires
        wf(g),
    ensures
        wf(spec_lower(g, a)),
        spec_lower(g, a).cur_fn == g.cur_fn,
        spec_lower(g, a).module.funcs.len() >= g.module.funcs.len(),
        forall|fi: int|
            0 <= fi < g.module.funcs.len() && fi != g.cur_fn ==> spec_lower(
                g,
                a,
            ).module.funcs[fi] == g.module.funcs[fi],
        spec_lower(g, a).module.funcs[g.cur_fn].name == g.module.funcs[g.cur_fn].name,
        spec_lower(g, a).module.funcs[g.cur_fn].blocks.len()
            >= g.module.funcs[g.cur_fn].blocks.len(),
        forall|bb: int|
            0 <= bb < g.module.funcs[g.cur_fn].blocks.len() && bb != g.cur_blk ==> spec_lower(
                g,
                a,
            ).module.funcs[g.cur_fn].blocks[bb] == g.module.funcs[g.cur_fn].blocks[bb],
        spec_lower(g, a).cur_blk == g.cur_blk || spec_lower(g, a).cur_blk >= g.module.funcs[
            g.cur_fn
        ].blocks.len(),
    decreases a, 1nat,
{
    let gz = spec_lower(g, a);
    match a {
        AstV::Push(i) => {},
        AstV::Word(w) => {},
        AstV::Variable(n) => {},
        AstV::DotQuote(_) => {},
        AstV::DoLoop(_) => {},
        AstV::Phrase(items) => {
            lemma_lower_seq_wf(g, items);
        },
        AstV::Conditional { consequent, alternative } => {
            let f = g.cur_fn;
            let nb = g.module.funcs[f].blocks.len() as int;
            let g1 = add_block(add_block(add_block(g, f), f), f);
            let g2 = seal(
                g1,
                Term::CondBr { then_bb: nb as usize, else_bb: (nb + 1) as usize },
            );
            let g3 = set_cursor(g2, f, nb);
            assert(wf(g3));
            lemma_lower_wf(g3, *consequent);
            let g4 = spec_lower(g3, *consequent);
            let g5 = set_cursor(seal(g4, Term::Br((nb + 2) as usize)), f, nb + 1);
            assert(g4.module.funcs[f].blocks[nb + 1] == g3.module.funcs[f].blocks[nb + 1]);
            assert(g4.module.funcs[f].blocks[nb + 2] == g3.module.funcs[f].blocks[nb + 2]);
            assert(g3.module.funcs[f].blocks[nb + 1].term is Open);
            assert(g5.module.funcs[f].blocks[nb + 1] == g4.module.funcs[f].blocks[nb + 1]);
            assert(wf(g5));
            let g6 = if alternative is Some {
                lemma_lower_wf(g5, *alternative->0);
                spec_lower(g5, *alternative->0)
            } else {
                g5
            };
            let g7 = set_cursor(seal(g6, Term::Br((nb + 2) as usize)), f, nb + 2);
            assert(g6.module.funcs[f].blocks[nb + 2] == g5.module.funcs[f].blocks[nb + 2]);
            assert(g7.module.funcs[f].blocks[nb + 2] == g6.module.funcs[f].blocks[nb + 2]);
            assert(wf(g7));
            assert(gz == emit(g7, Inst::Phi));
            assert(wf(gz));
            assert forall|fi: int|
                0 <= fi < g.module.funcs.len() && fi != g.cur_fn implies gz.module.funcs[fi]
                == g.module.funcs[fi] by {
                assert(g3.module.funcs[fi] == g.module.funcs[fi]);
                assert(g4.module.funcs[fi] == g3.module.funcs[fi]);
                assert(g5.module.funcs[fi] == g4.module.funcs[fi]);
                assert(g6.module.funcs[fi] == g5.module.funcs[fi]);
                assert(gz.module.funcs[fi] == g6.module.funcs[fi]);
            }
            assert forall|bb: int|
                0 <= bb < g.module.funcs[g.cur_fn].blocks.len() && bb != g.cur_blk
                implies gz.module.funcs[g.cur_fn].blocks[bb] == g.module.funcs[
                g.cur_fn
            ].blocks[bb] by {
                assert(g3.module.funcs[f].blocks[bb] == g.module.funcs[f].blocks[bb]);
                assert(g4.module.funcs[f].blocks[bb] == g3.module.funcs[f].blocks[bb]);
                assert(g5.module.funcs[f].blocks[bb] == g4.module.funcs[f].blocks[bb]);
                assert(g6.module.funcs[f].blocks[bb] == g5.module.funcs[f].blocks[bb]);
                assert(gz.module.funcs[f].blocks[bb] == g6.module.funcs[f].blocks[bb]);
            }
        },
        AstV::Definition(inner) => {
            match *inner {
                AstV::Phrase(items) => {
                    if items.len() >= 1 {
                        match items[0] {
                            AstV::Word(name) => {
                                let g1 = add_func(g, name);
                                assert(wf(g1));
                                lemma_lower_seq_wf(g1, items.skip(1));
                                let g2 = spec_lower_seq(g1, items.skip(1));
                                let g3 = seal(g2, Term::RetVoid);
                                assert(g2.cur_fn == g.module.funcs.len());
                                assert(g1.module.funcs[g.cur_fn] == g.module.funcs[g.cur_fn]);
                                assert(g2.module.funcs[g.cur_fn] == g1.module.funcs[g.cur_fn]);
                                assert(g3.module.funcs[g.cur_fn] == g2.module.funcs[g.cur_fn]);
                                assert(gz == set_cursor(g3, g.cur_fn, g.cur_blk));
                                assert(gz.module.funcs[g.cur_fn] == g.module.funcs[g.cur_fn]);
                                assert(wf(gz));
                                assert forall|fi: int|
                                    0 <= fi < g.module.funcs.len() && fi != g.cur_fn
                                    implies gz.module.funcs[fi] == g.module.funcs[fi] by {
                                    assert(g1.module.funcs[fi] == g.module.funcs[fi]);
                                    assert(fi != g1.cur_fn);
                                    assert(g2.module.funcs[fi] == g1.module.funcs[fi]);
                                    assert(gz.module.funcs[fi] == g2.module.funcs[fi]);
                                }
                            },
                            _ => {},
                        }
                    }
                },
                _ => {},
            }
        },
    }
}

/// `lemma_lower_wf`, for a sequence of items lowered in order.
pub proof fn lemma_lower_seq_wf(g: CodeGenV, items: Seq<AstV>)
    requires
        wf(g),
    ensures
        wf(spec_lower_seq(g, items)),
        spec_lower_seq(g, items).cur_fn == g.cur_fn,
        spec_lower_seq(g, items).module.funcs.len() >= g.module.funcs.len(),
        forall|fi: int|
            0 <= fi < g.module.funcs.len() && fi != g.cur_fn ==> spec_lower_seq(
                g,
                items,
            ).module.funcs[fi] == g.module.funcs[fi],
        spec_lower_seq(g, items).module.funcs[g.cur_fn].name == g.module.funcs[g.cur_fn].name,
        spec_lower_seq(g, items).module.funcs[g.cur_fn].blocks.len()
            >= g.module.funcs[g.cur_fn].blocks.len(),
        forall|bb: int|
            0 <= bb < g.module.funcs[g.cur_fn].blocks.len() && bb != g.cur_blk
                ==> spec_lower_seq(g, items).module.funcs[g.cur_fn].blocks[bb]
                == g.module.funcs[g.cur_fn].blocks[bb],
        spec_lower_seq(g, items).cur_blk == g.cur_blk || spec_lower_seq(g, items).cur_blk
            >= g.module.funcs[g.cur_fn].blocks.len(),
    decreases items, 0nat,
{
    if items.len() > 0 {
        lemma_lower_wf(g, items[0]);
        lemma_lower_seq_wf(spec_lower(g, items[0]), items.skip(1));
    }
}


/// Copies a byte string.
pub fn clone_bytes(v: &Vec<u8>) -> (r: Vec<u8>)
    ensures
        r@ == v@,
{
    let mut r: Vec<u8> = Vec::new();
    let mut i: usize = 0;
    while i < v.len()
        invariant
            i <= v@.len(),
            r@ =~= v@.subrange(0, i as int),
        decreases v@.len() - i,
    {
        r.push(v[i]);
        proof {
            assert(r@ =~= v@.subrange(0, i + 1));
        }
        i = i + 1;
    }
    proof {
        assert(v@.subrange(0, v@.len() as int) =~= v@);
    }
    r
}

/// If every bound address is at or above the base, so is a lookup's result.
proof fn lemma_lookup_var_floor(vars: Seq<(Seq<u8>, i64)>, w: Seq<u8>, floor: i64)
    requires
        forall|i: int| 0 <= i < vars.len() ==> (#[trigger] vars[i]).1 >= floor,
        lookup_var(vars, w) is Some,
    ensures
        lookup_var(vars, w)->0 >= floor,
    decreases vars.len(),
{
    if vars.len() > 0 && vars[vars.len() - 1].0 != w {
        lemma_lookup_var_floor(vars.subrange(0, vars.len() - 1), w, floor);
    }
}

/// The index of the first function of the module named `w`, if any.
fn find_func(funcs: &Vec<FuncIr>, w: &[u8]) -> (r: Option<usize>)
    ensures
        match r {
            Some(i) => lookup_func_from(view_funcs(funcs@), w@, 0) == Some(i as int),
            None => lookup_func_from(view_funcs(funcs@), w@, 0) is None,
        },
{
    let mut i: usize = 0;
    while i < funcs.len()
        invariant
            i <= funcs@.len(),
            lookup_func_from(view_funcs(funcs@), w@, 0) == lookup_func_from(
                view_funcs(funcs@),
                w@,
                i as int,
            ),
        decreases funcs@.len() - i,
    {
        if bytes_eq(funcs[i].name.as_slice(), w) {
            return Some(i);
        }
        i = i + 1;
    }
    None
}

/// The address bound to `w`, if any: the latest declaration wins.
fn find_var(vars: &Vec<(Vec<u8>, i64)>, w: &[u8]) -> (r: Option<i64>)
    ensures
        r == lookup_var(view_vars(vars@), w@),
{
    let mut i: usize = vars.len();
    proof {
        assert(view_vars(vars@).subrange(0, view_vars(vars@).len() as int) =~= view_vars(vars@));
    }
    while i > 0
        invariant
            i <= vars@.len(),
            lookup_var(view_vars(vars@), w@) == lookup_var(
                view_vars(vars@).subrange(0, i as int),
                w@,
            ),
        decreases i,
    {
        let entry = &vars[i - 1];
        proof {
            assert(view_vars(vars@).subrange(0, i as int)[i - 1] == view_vars(vars@)[i - 1]);
        }
        if bytes_eq(entry.0.as_slice(), w) {
            return Some(entry.1);
        }
        proof {
            assert(view_vars(vars@).subrange(0, i as int).subrange(0, i - 1) =~= view_vars(
                vars@,
            ).subrange(0, i - 1));
        }
        i = i - 1;
    }
    proof {
        assert(view_vars(vars@).subrange(0, 0) =~= Seq::<(Seq<u8>, i64)>::empty());
    }
    None
}

impl CodeGen {
    /// A fresh generator: a module holding the synthetic `main` with its
    /// open entry block and the initial `initGlobals` call, the cursor on
    /// that block, no variables.
    pub fn new() -> (r: CodeGen)
        ensures
            r@ == init_codegen(),
    {
        let mut insts: Vec<Inst> = Vec::new();
        insts.push(Inst::Call(Callee::Prim(Prim::InitGlobals)));
        let mut blocks: Vec<BlockIr> = Vec::new();
        blocks.push(BlockIr { insts, term: Term::Open });
        let mut name: Vec<u8> = Vec::new();
        name.push('m' as u8);
        name.push('a' as u8);
        name.push('i' as u8);
        name.push('n' as u8);
        let mut funcs: Vec<FuncIr> = Vec::new();
        funcs.push(FuncIr { name, blocks });
        let r = CodeGen {
            module: ModuleIr { funcs },
            cur_fn: 0,
            cur_blk: 0,
            vars: Vec::new(),
            variable_addr: VAR_BASE,
        };
        proof {
            assert(r@.module.funcs =~= init_codegen().module.funcs) by {
                assert(r.module.funcs@.subrange(0, 0) =~= Seq::<FuncIr>::empty());
                assert(r@.module.funcs == view_funcs(r.module.funcs@));
                assert(view_funcs(r.module.funcs@) == Seq::<FuncV>::empty().push(
                    r.module.funcs@[0]@,
                ));
                assert(r.module.funcs@[0].blocks@.subrange(0, 0) =~= Seq::<BlockIr>::empty());
                assert(r.module.funcs@[0]@.blocks == Seq::<BlockV>::empty().push(
                    r.module.funcs@[0].blocks@[0]@,
                ));
                assert(r.module.funcs@[0].blocks@[0]@.insts =~= seq![
                    Inst::Call(Callee::Prim(Prim::InitGlobals)),
                ]);
                assert(r.module.funcs@[0]@.name =~= seq![
                    'm' as u8,
                    'a' as u8,
                    'i' as u8,
                    'n' as u8,
                ]);
                assert(init_codegen().module.funcs[0].blocks =~= r.module.funcs@[0]@.blocks);
                assert(init_codegen().module.funcs[0] == r.module.funcs@[0]@);
            }
            assert(r@.vars =~= init_codegen().vars);
            assert(r@ == init_codegen());
        }
        r
    }

    fn emit_inst(&mut self, inst: Inst)
        requires
            0 <= old(self)@.cur_fn < old(self)@.module.funcs.len(),
            0 <= old(self)@.cur_blk < old(self)@.module.funcs[old(self)@.cur_fn].blocks.len(),
        ensures
            final(self)@ == emit(old(self)@, inst),
    {
        let ghost gv0 = self@;
        let ghost fs0 = self.module.funcs@;
        let ghost bs0 = self.module.funcs@[self.cur_fn as int].blocks@;
        let f = self.cur_fn;
        let b = self.cur_blk;
        self.module.funcs[f].blocks[b].insts.push(inst);
        proof {
            let fs1 = self.module.funcs@;
            let bs1 = fs1[f as int].blocks@;
            assert(fs1 == fs0.update(f as int, fs1[f as int]));
            assert(bs1 == bs0.update(b as int, bs1[b as int]));
            lemma_view_blocks_update(bs0, b as int, bs1[b as int]);
            lemma_view_funcs_update(fs0, f as int, fs1[f as int]);
            assert(self@.module.funcs =~= emit(gv0, inst).module.funcs);
            assert(self@ == emit(gv0, inst));
        }
    }

    /// Terminates the block at the cursor; `compile_module` uses it for
    /// the final peek-and-return of `main`.
    pub fn seal_main(&mut self, t: Term)
        requires
            0 <= old(self)@.cur_fn < old(self)@.module.funcs.len(),
            0 <= old(self)@.cur_blk < old(self)@.module.funcs[old(self)@.cur_fn].blocks.len(),
        ensures
            final(self)@ == seal(old(self)@, t),
    {
        self.seal_cursor(t)
    }

    fn seal_cursor(&mut self, t: Term)
        requires
            0 <= old(self)@.cur_fn < old(self)@.module.funcs.len(),
            0 <= old(self)@.cur_blk < old(self)@.module.funcs[old(self)@.cur_fn].blocks.len(),
        ensures
            final(self)@ == seal(old(self)@, t),
    {
        let ghost gv0 = self@;
        let ghost fs0 = self.module.funcs@;
        let ghost bs0 = self.module.funcs@[self.cur_fn as int].blocks@;
        let f = self.cur_fn;
        let b = self.cur_blk;
        self.module.funcs[f].blocks[b].term = t;
        proof {
            let fs1 = self.module.funcs@;
            let bs1 = fs1[f as int].blocks@;
            assert(fs1 == fs0.update(f as int, fs1[f as int]));
            assert(bs1 == bs0.update(b as int, bs1[b as int]));
            lemma_view_blocks_update(bs0, b as int, bs1[b as int]);
            lemma_view_funcs_update(fs0, f as int, fs1[f as int]);
            assert(self@.module.funcs =~= seal(gv0, t).module.funcs);
            assert(self@ == seal(gv0, t));
        }
    }

    /// Appends a fresh open block to the cursor's function and returns
    /// its index.
    fn add_block_here(&mut self) -> (nb: usize)
        requires
            0 <= old(self)@.cur_fn < old(self)@.module.funcs.len(),
        ensures
            final(self)@ == add_block(old(self)@, old(self)@.cur_fn),
            nb == old(self)@.module.funcs[old(self)@.cur_fn].blocks.len(),
    {
        let ghost gv0 = self@;
        let ghost fs0 = self.module.funcs@;
        let ghost bs0 = self.module.funcs@[self.cur_fn as int].blocks@;
        let f = self.cur_fn;
        let nb = self.module.funcs[f].blocks.len();
        self.module.funcs[f].blocks.push(BlockIr { insts: Vec::new(), term: Term::Open });
        proof {
            let fs1 = self.module.funcs@;
            let bs1 = fs1[f as int].blocks@;
            assert(fs1 == fs0.update(f as int, fs1[f as int]));
            assert(bs1 == bs0.push(bs1[bs1.len() - 1]));
            lemma_view_blocks_push(bs0, bs1[bs1.len() - 1]);
            lemma_view_funcs_update(fs0, f as int, fs1[f as int]);
            assert(bs1[bs1.len() - 1]@.insts =~= Seq::<Inst>::empty());
            assert(self@.module.funcs =~= add_block(gv0, f as int).module.funcs);
            assert(self@ == add_block(gv0, f as int));
        }
        nb
    }

    /// Appends a fresh function with one open entry block and moves the
    /// cursor to it.
    fn add_func_named(&mut self, name: Vec<u8>)
        ensures
            final(self)@ == add_func(old(self)@, name@),
    {
        let ghost gv0 = self@;
        let ghost fs0 = self.module.funcs@;
        let fi = self.module.funcs.len();
        let mut blocks: Vec<BlockIr> = Vec::new();
        blocks.push(BlockIr { insts: Vec::new(), term: Term::Open });
        let ghost nmv = name@;
        self.module.funcs.push(FuncIr { name, blocks });
        self.cur_fn = fi;
        self.cur_blk = 0;
        proof {
            let fs1 = self.module.funcs@;
            assert(fs1 == fs0.push(fs1[fs1.len() - 1]));
            lemma_view_funcs_push(fs0, fs1[fs1.len() - 1]);
            let nf = fs1[fs1.len() - 1]@;
            assert(fs1[fs1.len() - 1].blocks@.subrange(0, 0) =~= Seq::<BlockIr>::empty());
            assert(nf.blocks == Seq::<BlockV>::empty().push(
                fs1[fs1.len() - 1].blocks@[0]@,
            ));
            assert(fs1[fs1.len() - 1].blocks@[0]@.insts =~= Seq::<Inst>::empty());
            assert(nf.blocks =~= add_func(gv0, nmv).module.funcs[gv0.module.funcs.len() as int].blocks);
            assert(nf == add_func(gv0, nmv).module.funcs[gv0.module.funcs.len() as int]);
            assert(self@.module.funcs =~= add_func(gv0, nmv).module.funcs);
            assert(self@ == add_func(gv0, nmv));
        }
    }

    /// Lowers one word reference, per `spec_lower_word`.
    fn lower_word(&mut self, w: &Vec<u8>)
        requires
            wf(old(self)@),
        ensures
            final(self)@ == spec_lower_word(old(self)@, w@),
    {
        match prim_alias(w.as_slice()) {
            Some(p) => self.emit_inst(Inst::Call(Callee::Prim(p))),
            None => {
                match runtime_prim(w.as_slice()) {
                    Some(p) => self.emit_inst(Inst::Call(Callee::Prim(p))),
                    None => {
                        let fi = find_func(&self.module.funcs, w.as_slice());
                        match fi {
                            Some(i) => {
                                proof {
                                    lemma_lookup_func_range(
                                        view_funcs(self.module.funcs@),
                                        w@,
                                        0,
                                    );
                                }
                                self.emit_inst(Inst::Call(Callee::User(i)));
                            },
                            None => {
                                let va = find_var(&self.vars, w.as_slice());
                                match va {
                                    Some(addr) => {
                                        proof {
                                            assert(view_vars(self.vars@) == old(self)@.vars);
                                            lemma_lookup_var_floor(
                                                old(self)@.vars,
                                                w@,
                                                VAR_BASE,
                                            );
                                        }
                                        self.emit_inst(Inst::PushConst(addr - VAR_BASE));
                                    },
                                    None => {},
                                }
                            },
                        }
                    },
                }
            },
        }
    }
}

/// A found function index lies within the function list.
proof fn lemma_lookup_func_range(funcs: Seq<FuncV>, w: Seq<u8>, i: int)
    requires
        lookup_func_from(funcs, w, i) is Some,
    ensures
        0 <= lookup_func_from(funcs, w, i)->0 < funcs.len(),
    decreases funcs.len() - i,
{
    if !(i < 0 || i >= funcs.len()) && funcs[i].name != w {
        lemma_lookup_func_range(funcs, w, i + 1);
    }
}

/// The state of a fresh generator.
pub open spec fn init_codegen() -> CodeGenV {
    CodeGenV {
        module: ModuleV {
            funcs: seq![
                FuncV {
                    name: seq!['m' as u8, 'a' as u8, 'i' as u8, 'n' as u8],
                    blocks: seq![
                        BlockV {
                            insts: seq![Inst::Call(Callee::Prim(Prim::InitGlobals))],
                            term: Term::Open,
                        },
                    ],
                },
            ],
        },
        cur_fn: 0,
        cur_blk: 0,
        vars: Seq::empty(),
        variable_addr: VAR_BASE,
    }
}


impl CodeGen {
    /// Lowers one syntax node at the cursor, per `spec_lower`.
    pub fn compile_expr(&mut self, expr: &Ast)
        requires
            wf(old(self)@),
        ensures
            final(self)@ == spec_lower(old(self)@, expr@),
            wf(final(self)@),
        decreases expr@, 1nat, 0nat,
    {
        proof {
            lemma_lower_wf(self@, expr@);
        }
        let ghost g0 = self@;
        match expr {
            Ast::Push(i) => {
                self.emit_inst(Inst::PushConst(*i));
            },
            Ast::Word(w) => {
                self.lower_word(w);
            },
            Ast::Variable(n) => {
                let name = clone_bytes(n);
                let addr = self.variable_addr;
                let ghost vs0 = self.vars@;
                self.vars.push((name, addr));
                if self.variable_addr != i64::MAX {
                    self.variable_addr = self.variable_addr + 1;
                }
                proof {
                    let vs1 = self.vars@;
                    assert(vs1 == vs0.push(vs1[vs1.len() - 1]));
                    lemma_view_vars_push(vs0, vs1[vs1.len() - 1]);
                    assert(self@.vars =~= spec_lower(g0, expr@).vars);
                    assert(self@ == spec_lower(g0, expr@));
                }
            },
            Ast::DotQuote(_) => {},
            Ast::DoLoop(_) => {},
            Ast::Phrase(items) => {
                proof {
                    assert(view_ast_seq(items@).skip(0) =~= view_ast_seq(items@));
                }
                self.compile_items(items, 0);
            },
            Ast::Conditional { consequent, alternative } => {
                let ghost f = g0.cur_fn;
                let ghost nb = g0.module.funcs[f].blocks.len() as int;
                let then_bb = self.add_block_here();
                let else_bb = self.add_block_here();
                let merge_bb = self.add_block_here();
                proof {
                    assert(else_bb == nb + 1);
                    assert(merge_bb == nb + 2);
                }
                self.seal_cursor(Term::CondBr { then_bb, else_bb });
                let ghost g2 = self@;
                self.cur_blk = then_bb;
                let ghost g3 = self@;
                proof {
                    assert(g3 == set_cursor(g2, f, nb));
                    lemma_lower_wf(g3, consequent@);
                }
                self.compile_expr(consequent);
                let ghost g4 = self@;
                proof {
                    assert(g4.module.funcs[f].blocks[nb + 1] == g3.module.funcs[f].blocks[nb
                        + 1]);
                    assert(g4.module.funcs[f].blocks[nb + 2] == g3.module.funcs[f].blocks[nb
                        + 2]);
                }
                self.seal_cursor(Term::Br(merge_bb));
                self.cur_blk = else_bb;
                let ghost g5 = self@;
                proof {
                    assert(g5 == set_cursor(seal(g4, Term::Br((nb + 2) as usize)), f, nb + 1));
                    assert(g5.module.funcs[f].blocks[nb + 1] == g4.module.funcs[f].blocks[nb
                        + 1]);
                    assert(wf(g5));
                }
                match alternative {
                    Some(alt) => {
                        proof {
                            lemma_lower_wf(g5, alt@);
                        }
                        self.compile_expr(alt);
                    },
                    None => {},
                }
                let ghost g6 = self@;
                proof {
                    assert(g6.module.funcs[f].blocks[nb + 2] == g5.module.funcs[f].blocks[nb
                        + 2]);
                    assert(wf(g6));
                }
                self.seal_cursor(Term::Br(merge_bb));
                self.cur_blk = merge_bb;
                let ghost g7 = self@;
                proof {
                    assert(g7 == set_cursor(seal(g6, Term::Br((nb + 2) as usize)), f, nb + 2));
                    assert(g7.module.funcs[f].blocks[nb + 2] == g6.module.funcs[f].blocks[nb
                        + 2]);
                    assert(wf(g7));
                }
                self.emit_inst(Inst::Phi);
                proof {
                    assert(self@ == spec_lower(g0, expr@));
                }
            },
            Ast::Definition(inner) => {
                match &**inner {
                    Ast::Phrase(items) => {
                        if items.len() >= 1 {
                            let head = &items[0];
                            match head {
                                Ast::Word(name) => {
                                    proof {
                                        assert(items@[0]@ == view_ast_seq(items@)[0]);
                                        assert(view_ast_seq(items@)[0] == AstV::Word(name@));
                                    }
                                    let saved_f = self.cur_fn;
                                    let saved_b = self.cur_blk;
                                    let name_c = clone_bytes(name);
                                    self.add_func_named(name_c);
                                    let ghost g1 = self@;
                                    proof {
                                        assert(g1 == add_func(g0, name@));
                                        assert(g1.module.funcs[g1.cur_fn].blocks[0].term
                                            is Open);
                                        assert(wf(g1));
                                        lemma_lower_seq_wf(g1, view_ast_seq(items@).skip(1));
                                        assert((**inner)@ == AstV::Phrase(
                                            view_ast_seq(items@),
                                        ));
                                        assert(expr@ == AstV::Definition(
                                            Box::new((**inner)@),
                                        ));
                                        assert(expr@ == AstV::Definition(
                                            Box::new(AstV::Phrase(view_ast_seq(items@))),
                                        ));
                                        assert(decreases_to!(
                                            expr@ => view_ast_seq(items@).skip(1)));
                                    }
                                    self.compile_items(items, 1);
                                    let ghost g2 = self@;
                                    self.seal_cursor(Term::RetVoid);
                                    self.cur_fn = saved_f;
                                    self.cur_blk = saved_b;
                                    proof {
                                        assert(self@ == set_cursor(
                                            seal(g2, Term::RetVoid),
                                            g0.cur_fn,
                                            g0.cur_blk,
                                        ));
                                        assert(self@ == spec_lower(g0, expr@));
                                    }
                                },
                                _ => {
                                    proof {
                                        assert(!(head@ is Word));
                                        assert(view_ast_seq(items@)[0] == items@[0]@);
                                        assert(self@ == spec_lower(g0, expr@));
                                    }
                                },
                            }
                        } else {
                            proof {
                                assert(self@ == spec_lower(g0, expr@));
                            }
                        }
                    },
                    _ => {
                        proof {
                            assert(self@ == spec_lower(g0, expr@));
                        }
                    },
                }
            },
        }
    }

    /// Lowers the items of a phrase from index `pos` on, in order.
    pub fn compile_items(&mut self, items: &Vec<Ast>, pos: usize)
        requires
            wf(old(self)@),
            pos <= items@.len(),
        ensures
            final(self)@ == spec_lower_seq(old(self)@, view_ast_seq(items@).skip(pos as int)),
            wf(final(self)@),
        decreases view_ast_seq(items@).skip(pos as int), 0nat, 0nat,
    {
        proof {
            lemma_lower_seq_wf(self@, view_ast_seq(items@).skip(pos as int));
        }
        if pos == items.len() {
            proof {
                assert(view_ast_seq(items@).skip(pos as int) =~= Seq::<AstV>::empty());
            }
            return ;
        }
        let ghost g0 = self@;
        let ghost s = view_ast_seq(items@);
        proof {
            assert(s.skip(pos as int)[0] == s[pos as int]);
            assert(s[pos as int] == items@[pos as int]@);
            assert(s.skip(pos as int).subrange(1, s.len() - pos) =~= s.skip(pos as int + 1));
        }
        self.compile_expr(&items[pos]);
        self.compile_items(items, pos + 1);
    }
}


/// Whether a node is one that emits nothing into the block at the cursor:
/// a colon-definition, a variable declaration, or one of the two stubs.
pub fn neutral_item_x(a: &Ast) -> (r: bool)
    ensures
        r <==> crate::props::neutral_item(a@),
{
    match a {
        Ast::Definition(_) => true,
        Ast::Variable(_) => true,
        Ast::DotQuote(_) => true,
        Ast::DoLoop(_) => true,
        _ => false,
    }
}

/// Whether a node is a phrase of such items, as the prelude must be.
pub fn neutral_phrase_x(a: &Ast) -> (r: bool)
    ensures
        r <==> crate::props::neutral_phrase(a@),
{
    match a {
        Ast::Phrase(items) => {
            let n = items.len();
            let mut i: usize = 0;
            while i < n
                invariant
                    i <= n,
                    n == items@.len(),
                    a@ == AstV::Phrase(view_ast_seq(items@)),
                    forall|j: int|
                        0 <= j < i ==> crate::props::neutral_item(
                            #[trigger] view_ast_seq(items@)[j],
                        ),
                decreases n - i,
            {
                if !neutral_item_x(&items[i]) {
                    proof {
                        assert(view_ast_seq(items@)[i as int] == items@[i as int]@);
                        assert(!crate::props::neutral_item(view_ast_seq(items@)[i as int]));
                        let pv = view_ast_seq(items@);
                        assert(0 <= i < pv.len());
                        if crate::props::neutral_phrase(a@) {
                            crate::props::lemma_neutral_phrase_items(pv);
                            assert(crate::props::neutral_item(pv[i as int]));
                        }
                        assert(!crate::props::neutral_phrase(a@));
                    }
                    return false;
                }
                proof {
                    assert(view_ast_seq(items@)[i as int] == items@[i as int]@);
                }
                i = i + 1;
            }
            proof {
                assert(a@ == AstV::Phrase(view_ast_seq(items@)));
            }
            true
        },
        _ => false,
    }
}

} // verus!
