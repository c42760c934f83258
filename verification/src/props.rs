use vstd::prelude::*;
use crate::ast::AstV;
use crate::compiler::spec_compile_module;
use crate::ir::{Callee, Inst, ModuleV, Prim, Term};
use crate::lower::{
    add_func, emit, init_codegen, lemma_lower_seq_wf, lemma_lower_wf, lookup_var, seal,
    spec_lower, spec_lower_seq, wf, CodeGenV,
};
use crate::run::{empty_state, mem_read, spec_prim_step, spec_run_block, spec_run_insts, spec_run_main, RtStateV};

verus! {

/// Re-invoking compilation with identical input produces the identical
/// module: the compile is a pure function of the generator state and the
/// source text, with no other input.
pub proof fn lemma_compilation_deterministic(
    g1: CodeGenV,
    g2: CodeGenV,
    c1: Seq<u8>,
    c2: Seq<u8>,
)
    requires
        g1 == g2,
        c1 == c2,
    ensures
        spec_compile_module(g1, c1) == spec_compile_module(g2, c2),
{
}

/// Sequencing: lowering the phrase `a ++ b` is lowering `b` in the state
/// that lowering `a` left, in source order and without reordering.
pub proof fn lemma_lower_seq_append(g: CodeGenV, a: Seq<AstV>, b: Seq<AstV>)
    ensures
        spec_lower_seq(g, a + b) == spec_lower_seq(spec_lower_seq(g, a), b),
    decreases a.len(),
{
    if a.len() == 0 {
        assert(a + b =~= b);
        assert(spec_lower_seq(g, a) == g);
    } else {
        assert((a + b)[0] == a[0]);
        assert((a + b).skip(1) =~= a.skip(1) + b);
        lemma_lower_seq_append(spec_lower(g, a[0]), a.skip(1), b);
    }
}

/// Sequencing at run time: executing the concatenation of two straight
/// instruction runs is executing the second from the state the first
/// left.
pub proof fn lemma_run_insts_append(
    m: ModuleV,
    a: Seq<Inst>,
    b: Seq<Inst>,
    st: RtStateV,
    fuel: nat,
)
    ensures
        spec_run_insts(m, a + b, st, fuel) == match spec_run_insts(m, a, st, fuel) {
            None => None,
            Some(st2) => spec_run_insts(m, b, st2, fuel),
        },
    decreases fuel, a.len(),
{
    if a.len() == 0 {
        assert(a + b =~= b);
    } else {
        assert((a + b)[0] == a[0]);
        assert((a + b).skip(1) =~= a.skip(1) + b);
        match a[0] {
            Inst::PushConst(c) => {
                lemma_run_insts_append(
                    m,
                    a.skip(1),
                    b,
                    RtStateV { data: st.data.push(c), ..st },
                    fuel,
                );
            },
            Inst::Phi => {
                lemma_run_insts_append(m, a.skip(1), b, st, fuel);
            },
            Inst::Call(Callee::Prim(p)) => {
                match spec_prim_step(p, st) {
                    None => {},
                    Some(st2) => {
                        lemma_run_insts_append(m, a.skip(1), b, st2, fuel);
                    },
                }
            },
            Inst::Call(Callee::User(f)) => {
                if fuel > 0 {
                    match crate::run::spec_run_func(m, f as int, st, (fuel - 1) as nat) {
                        None => {},
                        Some(st2) => {
                            lemma_run_insts_append(m, a.skip(1), b, st2, fuel);
                        },
                    }
                }
            },
        }
    }
}

/// Variable storage: declaring two distinct names binds them to distinct
/// addresses, allocated in order from the base.  (The one machine limit:
/// the allocator must not already be saturated at the largest address.)
pub proof fn lemma_two_variables_distinct(g: CodeGenV, n1: Seq<u8>, n2: Seq<u8>)
    requires
        n1 != n2,
        g.variable_addr < i64::MAX,
    ensures
        ({
            let g2 = spec_lower(spec_lower(g, AstV::Variable(n1)), AstV::Variable(n2));
            &&& lookup_var(g2.vars, n1) == Some(g.variable_addr)
            &&& lookup_var(g2.vars, n2) == Some((g.variable_addr + 1) as i64)
            &&& lookup_var(g2.vars, n1) != lookup_var(g2.vars, n2)
        }),
{
    let g1 = spec_lower(g, AstV::Variable(n1));
    let g2 = spec_lower(g1, AstV::Variable(n2));
    assert(g2.vars == g.vars.push((n1, g.variable_addr)).push((n2, g1.variable_addr)));
    assert(g2.vars.subrange(0, g2.vars.len() - 1) =~= g.vars.push((n1, g.variable_addr)));
    assert(lookup_var(g2.vars, n2) == Some(g1.variable_addr));
    assert(lookup_var(g2.vars, n1) == lookup_var(g.vars.push((n1, g.variable_addr)), n1));
    assert(lookup_var(g.vars.push((n1, g.variable_addr)), n1) == Some(g.variable_addr));
}

/// A phrase item that emits no instruction into the block at the cursor:
/// a colon-definition (its code goes to a fresh function), a variable
/// declaration, or one of the two deliberate stubs.
pub open spec fn neutral_item(a: AstV) -> bool {
    match a {
        AstV::Definition(_) => true,
        AstV::Variable(_) => true,
        AstV::DotQuote(_) => true,
        AstV::DoLoop(_) => true,
        _ => false,
    }
}

/// Every item of the sequence is neutral.
pub open spec fn neutral_items(items: Seq<AstV>) -> bool {
    forall|i: int| 0 <= i < items.len() ==> neutral_item(#[trigger] items[i])
}

pub open spec fn neutral_phrase(a: AstV) -> bool {
    match a {
        AstV::Phrase(items) => neutral_items(items),
        _ => false,
    }
}

/// The items of a neutral phrase, re-exposed.
pub proof fn lemma_neutral_phrase_items(pv: Seq<AstV>)
    requires
        neutral_phrase(AstV::Phrase(pv)),
    ensures
        neutral_items(pv),
{
}

/// Lowering a neutral item leaves the cursor and the block at the cursor
/// exactly as they were.
proof fn lemma_lower_neutral_item(g: CodeGenV, a: AstV)
    requires
        wf(g),
        neutral_item(a),
    ensures
        spec_lower(g, a).cur_fn == g.cur_fn,
        spec_lower(g, a).cur_blk == g.cur_blk,
        spec_lower(g, a).module.funcs[g.cur_fn] == g.module.funcs[g.cur_fn],
        wf(spec_lower(g, a)),
{
    lemma_lower_wf(g, a);
    match a {
        AstV::Definition(inner) => {
            match *inner {
                AstV::Phrase(items) => {
                    if items.len() >= 1 {
                        match items[0] {
                            AstV::Word(name) => {
                                let g1 = add_func(g, name);
                                lemma_lower_seq_wf(g1, items.skip(1));
                                let g2 = spec_lower_seq(g1, items.skip(1));
                                assert(g1.module.funcs[g.cur_fn] == g.module.funcs[g.cur_fn]);
                                assert(g2.module.funcs[g.cur_fn] == g1.module.funcs[g.cur_fn]);
                            },
                            _ => {},
                        }
                    }
                },
                _ => {},
            }
        },
        _ => {},
    }
}

/// Lowering a phrase of neutral items leaves the cursor and the block at
/// the cursor exactly as they were.
proof fn lemma_lower_neutral_seq(g: CodeGenV, items: Seq<AstV>)
    requires
        wf(g),
        forall|i: int| 0 <= i < items.len() ==> neutral_item(#[trigger] items[i]),
    ensures
        spec_lower_seq(g, items).cur_fn == g.cur_fn,
        spec_lower_seq(g, items).cur_blk == g.cur_blk,
        spec_lower_seq(g, items).module.funcs[g.cur_fn] == g.module.funcs[g.cur_fn],
        wf(spec_lower_seq(g, items)),
    decreases items.len(),
{
    if items.len() > 0 {
        lemma_lower_neutral_item(g, items[0]);
        lemma_lower_neutral_seq(spec_lower(g, items[0]), items.skip(1));
    }
}

/// Integer round-trip: compiling a phrase of definitions and declarations
/// (such as the prelude) followed by the integer literal `i` into a fresh
/// generator, and finishing `main`, yields a module whose `main` returns
/// exactly `i`, for every signed 64-bit `i`.
pub proof fn lemma_integer_round_trip(pre: AstV, i: i64, fuel: nat)
    requires
        neutral_phrase(pre),
        fuel >= 1,
    ensures
        spec_run_main(
            seal(
                spec_lower(
                    spec_lower(init_codegen(), pre),
                    AstV::Phrase(seq![AstV::Push(i)]),
                ),
                Term::RetPeek,
            ).module,
            fuel,
        ) == Some(i),
{
    let g0 = init_codegen();
    assert(wf(g0));
    let g1 = spec_lower(g0, pre);
    match pre {
        AstV::Phrase(items) => {
            lemma_lower_neutral_seq(g0, items);
        },
        _ => {},
    }
    assert(g1.cur_fn == 0 && g1.cur_blk == 0);
    assert(g1.module.funcs[0].blocks[0] == g0.module.funcs[0].blocks[0]);
    let user = AstV::Phrase(seq![AstV::Push(i)]);
    let g2 = spec_lower(g1, user);
    assert(g2 == spec_lower_seq(g1, seq![AstV::Push(i)]));
    let gm = spec_lower(g1, AstV::Push(i));
    assert(gm == emit(g1, Inst::PushConst(i)));
    assert(seq![AstV::Push(i)][0] == AstV::Push(i));
    assert(seq![AstV::Push(i)].skip(1) =~= Seq::<AstV>::empty());
    assert(spec_lower_seq(gm, Seq::<AstV>::empty()) == gm);
    assert(g2 == emit(g1, Inst::PushConst(i)));
    let gf = seal(g2, Term::RetPeek);
    let m = gf.module;
    let blk = m.funcs[0].blocks[0];
    assert(blk.insts =~= seq![
        Inst::Call(Callee::Prim(Prim::InitGlobals)),
        Inst::PushConst(i),
    ]);
    assert(blk.term == Term::RetPeek);
    let st0 = empty_state();
    let st1 = RtStateV { data: empty_state().data.push(i), ..empty_state() };
    assert(spec_run_insts(m, blk.insts, st0, fuel) == Some(st1)) by {
        let s = blk.insts;
        assert(s.subrange(1, 2) =~= seq![Inst::PushConst(i)]);
        assert(spec_prim_step(Prim::InitGlobals, st0) == Some(empty_state()));
        assert(spec_run_insts(m, s, st0, fuel) == spec_run_insts(
            m,
            seq![Inst::PushConst(i)],
            empty_state(),
            fuel,
        ));
        assert(seq![Inst::PushConst(i)].subrange(1, 1) =~= Seq::<Inst>::empty());
        assert(spec_run_insts(m, seq![Inst::PushConst(i)], empty_state(), fuel)
            == spec_run_insts(m, Seq::<Inst>::empty(), st1, fuel));
        assert(spec_run_insts(m, Seq::<Inst>::empty(), st1, fuel) == Some(st1));
    }
    assert(st1.data =~= seq![i]);
    assert(0 < m.funcs.len());
    assert(0 < m.funcs[0].blocks.len());
    assert(spec_run_block(m, 0, 0, st0, fuel) == Some((st1, Some(i))));
    assert(spec_run_main(m, fuel) == Some(i));
}

/// Conditional truth at the branch: the compiled test pops the data stack
/// and transfers control to the consequent's block exactly on the true
/// encoding -1; every other value, zero or not, selects the alternative's
/// block.
pub proof fn lemma_conditional_branch_on_true_encoding(
    m: ModuleV,
    f: int,
    b: int,
    st: RtStateV,
    fuel: nat,
    then_bb: usize,
    else_bb: usize,
)
    requires
        0 <= f < m.funcs.len(),
        0 <= b < m.funcs[f].blocks.len(),
        m.funcs[f].blocks[b].insts.len() == 0,
        m.funcs[f].blocks[b].term == (Term::CondBr { then_bb, else_bb }),
        st.data.len() > 0,
        fuel >= 1,
    ensures
        spec_run_block(m, f, b, st, fuel) == spec_run_block(
            m,
            f,
            if st.data[st.data.len() - 1] == -1i64 {
                then_bb as int
            } else {
                else_bb as int
            },
            RtStateV { data: st.data.subrange(0, st.data.len() - 1), ..st },
            (fuel - 1) as nat,
        ),
{
    assert(spec_run_insts(m, m.funcs[f].blocks[b].insts, st, fuel) == Some(st));
}


/// Integer round-trip through the whole pipeline: where the prelude
/// parses to a phrase of definitions and declarations (it does: it holds
/// nothing else) and the user text parses to the single literal `i`,
/// compiling and executing from a fresh compiler returns exactly `i`.
pub proof fn lemma_compile_and_run_literal(code: Seq<u8>, i: i64, fuel: nat)
    requires
        crate::parser::spec_parse(crate::prelude::prelude_bytes()) is Some,
        neutral_phrase(crate::parser::spec_parse(crate::prelude::prelude_bytes())->0),
        crate::parser::spec_parse(code) == Some(AstV::Phrase(seq![AstV::Push(i)])),
        fuel >= 1,
    ensures
        crate::compiler::spec_compile_and_run(init_codegen(), code, fuel) == Some(i),
{
    let pre = crate::parser::spec_parse(crate::prelude::prelude_bytes())->0;
    lemma_integer_round_trip(pre, i, fuel);
}


/// The lowered shape of the prelude's `invert`: a definition whose body
/// is `-1 nand` lowers to a fresh function of one block holding exactly
/// the push of -1 and the call to `nand`, returning void.
pub proof fn lemma_invert_lowering(g: CodeGenV, name: Seq<u8>)
    requires
        wf(g),
    ensures
        ({
            let def = AstV::Definition(
                Box::new(
                    AstV::Phrase(
                        seq![
                            AstV::Word(name),
                            AstV::Push(-1i64),
                            AstV::Word(
                                seq!['n' as u8, 'a' as u8, 'n' as u8, 'd' as u8],
                            ),
                        ],
                    ),
                ),
            );
            let g2 = spec_lower(g, def);
            &&& g2.module.funcs.len() == g.module.funcs.len() + 1
            &&& g2.module.funcs.last().name == name
            &&& g2.module.funcs.last().blocks =~= seq![
                crate::ir::BlockV {
                    insts: seq![
                        Inst::PushConst(-1i64),
                        Inst::Call(Callee::Prim(Prim::Nand)),
                    ],
                    term: Term::RetVoid,
                },
            ]
        }),
{
    let items = seq![
        AstV::Word(name),
        AstV::Push(-1i64),
        AstV::Word(seq!['n' as u8, 'a' as u8, 'n' as u8, 'd' as u8]),
    ];
    let def = AstV::Definition(Box::new(AstV::Phrase(items)));
    let g1 = add_func(g, name);
    let body = items.skip(1);
    assert(body =~= seq![
        AstV::Push(-1i64),
        AstV::Word(seq!['n' as u8, 'a' as u8, 'n' as u8, 'd' as u8]),
    ]);
    let ga = spec_lower(g1, body[0]);
    assert(ga == emit(g1, Inst::PushConst(-1i64)));
    let gb = spec_lower(ga, body[1]);
    assert(crate::names::spec_prim_alias(
        seq!['n' as u8, 'a' as u8, 'n' as u8, 'd' as u8],
    ) == Some(Prim::Nand));
    assert(gb == emit(ga, Inst::Call(Callee::Prim(Prim::Nand))));
    assert(body.skip(1) =~= seq![body[1]]);
    assert(seq![body[1]].skip(1) =~= Seq::<AstV>::empty());
    assert(spec_lower_seq(gb, Seq::<AstV>::empty()) == gb);
    assert(spec_lower_seq(ga, seq![body[1]]) == gb);
    assert(spec_lower_seq(g1, body) == gb);
    let g2 = spec_lower(g, def);
    assert(g2.module.funcs == seal(gb, Term::RetVoid).module.funcs);
    assert(g1.module.funcs.last().blocks =~= seq![
        crate::ir::BlockV { insts: Seq::empty(), term: Term::Open },
    ]);
    assert(g2.module.funcs.last().blocks[0].insts =~= seq![
        Inst::PushConst(-1i64),
        Inst::Call(Callee::Prim(Prim::Nand)),
    ]);
    assert(g2.module.funcs.last().blocks =~= seq![
        crate::ir::BlockV {
            insts: seq![
                Inst::PushConst(-1i64),
                Inst::Call(Callee::Prim(Prim::Nand)),
            ],
            term: Term::RetVoid,
        },
    ]);
}

/// The prelude identity of `invert`: executing a function of that lowered
/// shape maps the top of the data stack from `x` to the bitwise complement
/// of `x` and touches nothing else.
pub proof fn lemma_invert_identity(m: ModuleV, f: int, st: RtStateV, fuel: nat, x: i64)
    requires
        0 <= f < m.funcs.len(),
        m.funcs[f].blocks =~= seq![
            crate::ir::BlockV {
                insts: seq![
                    Inst::PushConst(-1i64),
                    Inst::Call(Callee::Prim(Prim::Nand)),
                ],
                term: Term::RetVoid,
            },
        ],
        st.data.len() > 0,
        st.data.last() == x,
    ensures
        crate::run::spec_run_func(m, f, st, fuel) == Some(
            RtStateV { data: st.data.subrange(0, st.data.len() - 1).push(!x), ..st },
        ),
{
    let blk = m.funcs[f].blocks[0];
    let s = blk.insts;
    let st1 = RtStateV { data: st.data.push(-1i64), ..st };
    assert(s.subrange(1, 2) =~= seq![Inst::Call(Callee::Prim(Prim::Nand))]);
    assert(spec_run_insts(m, s, st, fuel) == spec_run_insts(
        m,
        seq![Inst::Call(Callee::Prim(Prim::Nand))],
        st1,
        fuel,
    ));
    let a = st1.data[st1.data.len() - 1];
    let b = st1.data[st1.data.len() - 2];
    assert(a == -1i64 && b == x);
    assert(!(a & b) == !x) by (bit_vector)
        requires
            a == -1i64 && b == x,
    ;
    let st2 = RtStateV {
        data: st1.data.subrange(0, st1.data.len() - 2).push(!x),
        ..st1
    };
    assert(spec_prim_step(Prim::Nand, st1) == Some(st2));
    assert(seq![Inst::Call(Callee::Prim(Prim::Nand))].subrange(1, 1) =~= Seq::<Inst>::empty());
    assert(spec_run_insts(m, seq![Inst::Call(Callee::Prim(Prim::Nand))], st1, fuel)
        == spec_run_insts(m, Seq::<Inst>::empty(), st2, fuel));
    assert(spec_run_insts(m, Seq::<Inst>::empty(), st2, fuel) == Some(st2));
    assert(st1.data.subrange(0, st1.data.len() - 2) =~= st.data.subrange(
        0,
        st.data.len() - 1,
    ));
    assert(spec_run_block(m, f, 0, st, fuel) == Some((st2, None::<i64>)));
}


/// The lowered shape of the prelude's `1+` and `1-`: a definition whose
/// body is a literal followed by `+` lowers to a fresh function of one
/// block holding the push of the literal and the call to `plus`.
pub proof fn lemma_literal_plus_lowering(g: CodeGenV, name: Seq<u8>, c: i64)
    requires
        wf(g),
    ensures
        ({
            let def = AstV::Definition(
                Box::new(
                    AstV::Phrase(
                        seq![AstV::Word(name), AstV::Push(c), AstV::Word(seq!['+' as u8])],
                    ),
                ),
            );
            let g2 = spec_lower(g, def);
            &&& g2.module.funcs.len() == g.module.funcs.len() + 1
            &&& g2.module.funcs.last().name == name
            &&& g2.module.funcs.last().blocks =~= seq![
                crate::ir::BlockV {
                    insts: seq![Inst::PushConst(c), Inst::Call(Callee::Prim(Prim::Plus))],
                    term: Term::RetVoid,
                },
            ]
        }),
{
    let items = seq![AstV::Word(name), AstV::Push(c), AstV::Word(seq!['+' as u8])];
    let def = AstV::Definition(Box::new(AstV::Phrase(items)));
    let g1 = add_func(g, name);
    let body = items.skip(1);
    assert(body =~= seq![AstV::Push(c), AstV::Word(seq!['+' as u8])]);
    let ga = spec_lower(g1, body[0]);
    assert(ga == emit(g1, Inst::PushConst(c)));
    let gb = spec_lower(ga, body[1]);
    assert(crate::names::spec_prim_alias(seq!['+' as u8]) == Some(Prim::Plus));
    assert(gb == emit(ga, Inst::Call(Callee::Prim(Prim::Plus))));
    assert(body.skip(1) =~= seq![body[1]]);
    assert(seq![body[1]].skip(1) =~= Seq::<AstV>::empty());
    assert(spec_lower_seq(gb, Seq::<AstV>::empty()) == gb);
    assert(spec_lower_seq(ga, seq![body[1]]) == gb);
    assert(spec_lower_seq(g1, body) == gb);
    let g2 = spec_lower(g, def);
    assert(g2.module.funcs == seal(gb, Term::RetVoid).module.funcs);
    assert(g1.module.funcs.last().blocks =~= seq![
        crate::ir::BlockV { insts: Seq::empty(), term: Term::Open },
    ]);
    assert(g2.module.funcs.last().blocks[0].insts =~= seq![
        Inst::PushConst(c),
        Inst::Call(Callee::Prim(Prim::Plus)),
    ]);
    assert(g2.module.funcs.last().blocks =~= seq![
        crate::ir::BlockV {
            insts: seq![Inst::PushConst(c), Inst::Call(Callee::Prim(Prim::Plus))],
            term: Term::RetVoid,
        },
    ]);
}

/// The prelude identities of `1+` and `1-`: executing a function of that
/// lowered shape shifts the top of the data stack by the literal, with
/// two's-complement wrap-around, and touches nothing else.
pub proof fn lemma_literal_plus_identity(m: ModuleV, f: int, st: RtStateV, fuel: nat, c: i64)
    requires
        0 <= f < m.funcs.len(),
        m.funcs[f].blocks =~= seq![
            crate::ir::BlockV {
                insts: seq![Inst::PushConst(c), Inst::Call(Callee::Prim(Prim::Plus))],
                term: Term::RetVoid,
            },
        ],
        st.data.len() > 0,
    ensures
        crate::run::spec_run_func(m, f, st, fuel) == Some(
            RtStateV {
                data: st.data.subrange(0, st.data.len() - 1).push(
                    c.wrapping_add(st.data.last()),
                ),
                ..st
            },
        ),
{
    let x = st.data.last();
    let blk = m.funcs[f].blocks[0];
    let s = blk.insts;
    let st1 = RtStateV { data: st.data.push(c), ..st };
    assert(s.subrange(1, 2) =~= seq![Inst::Call(Callee::Prim(Prim::Plus))]);
    assert(spec_run_insts(m, s, st, fuel) == spec_run_insts(
        m,
        seq![Inst::Call(Callee::Prim(Prim::Plus))],
        st1,
        fuel,
    ));
    let st2 = RtStateV {
        data: st1.data.subrange(0, st1.data.len() - 2).push(c.wrapping_add(x)),
        ..st1
    };
    assert(spec_prim_step(Prim::Plus, st1) == Some(st2));
    assert(seq![Inst::Call(Callee::Prim(Prim::Plus))].subrange(1, 1) =~= Seq::<Inst>::empty());
    assert(spec_run_insts(m, seq![Inst::Call(Callee::Prim(Prim::Plus))], st1, fuel)
        == spec_run_insts(m, Seq::<Inst>::empty(), st2, fuel));
    assert(spec_run_insts(m, Seq::<Inst>::empty(), st2, fuel) == Some(st2));
    assert(st1.data.subrange(0, st1.data.len() - 2) =~= st.data.subrange(
        0,
        st.data.len() - 1,
    ));
    assert(spec_run_block(m, f, 0, st, fuel) == Some((st2, None::<i64>)));
}


/// Definition transparency at the call: executing a call to a word whose
/// body is a single returning block is executing that body inline, at the
/// cost of one unit of fuel.
pub proof fn lemma_definition_call_runs_body(m: ModuleV, f: usize, st: RtStateV, fuel: nat)
    requires
        f < m.funcs.len(),
        m.funcs[f as int].blocks.len() == 1,
        m.funcs[f as int].blocks[0].term == Term::RetVoid,
        fuel >= 1,
    ensures
        spec_run_insts(m, seq![Inst::Call(Callee::User(f))], st, fuel) == spec_run_insts(
            m,
            m.funcs[f as int].blocks[0].insts,
            st,
            (fuel - 1) as nat,
        ),
{
    let one = seq![Inst::Call(Callee::User(f))];
    assert(one.subrange(1, 1) =~= Seq::<Inst>::empty());
    let body = m.funcs[f as int].blocks[0].insts;
    match spec_run_insts(m, body, st, (fuel - 1) as nat) {
        None => {},
        Some(st2) => {
            assert(crate::run::spec_run_func(m, f as int, st, (fuel - 1) as nat) == Some(st2));
            assert(spec_run_insts(m, Seq::<Inst>::empty(), st2, fuel) == Some(st2));
        },
    }
}


/// The one instruction a straight-line item lowers to: a literal or a
/// word naming a runtime primitive (by alias or by symbol).  Such an item
/// never reads the module, so its code is the same in every context.
pub open spec fn prim_item_code(a: AstV) -> Option<Inst> {
    match a {
        AstV::Push(i) => Some(Inst::PushConst(i)),
        AstV::Word(w) => match crate::names::spec_prim_alias(w) {
            Some(p) => Some(Inst::Call(Callee::Prim(p))),
            None => match crate::names::spec_runtime_prim(w) {
                Some(p) => Some(Inst::Call(Callee::Prim(p))),
                None => None,
            },
        },
        _ => None,
    }
}

pub open spec fn prim_phrase(items: Seq<AstV>) -> bool {
    forall|i: int| 0 <= i < items.len() ==> prim_item_code(#[trigger] items[i]) is Some
}

/// The code of a straight-line phrase, in source order.
pub open spec fn phrase_code(items: Seq<AstV>) -> Seq<Inst>
    decreases items.len(),
{
    if items.len() == 0 {
        Seq::empty()
    } else {
        seq![prim_item_code(items[0])->0] + phrase_code(items.skip(1))
    }
}

proof fn lemma_phrase_code_no_user(items: Seq<AstV>)
    requires
        prim_phrase(items),
    ensures
        forall|i: int|
            0 <= i < phrase_code(items).len() ==> !(#[trigger] phrase_code(items)[i] matches Inst::Call(
                Callee::User(_),
            )),
    decreases items.len(),
{
    if items.len() > 0 {
        assert(prim_phrase(items.skip(1)));
        lemma_phrase_code_no_user(items.skip(1));
    }
}

/// Lowering a straight-line phrase appends exactly its code to the block
/// at the cursor and changes nothing else.
proof fn lemma_lower_prim_phrase(g: CodeGenV, items: Seq<AstV>)
    requires
        wf(g),
        prim_phrase(items),
    ensures
        ({
            let g2 = spec_lower_seq(g, items);
            let f = g.module.funcs[g.cur_fn];
            let b = f.blocks[g.cur_blk];
            g2 == CodeGenV {
                module: ModuleV {
                    funcs: g.module.funcs.update(
                        g.cur_fn,
                        crate::ir::FuncV {
                            blocks: f.blocks.update(
                                g.cur_blk,
                                crate::ir::BlockV {
                                    insts: b.insts + phrase_code(items),
                                    ..b
                                },
                            ),
                            ..f
                        },
                    ),
                },
                ..g
            }
        }),
    decreases items.len(),
{
    let f = g.module.funcs[g.cur_fn];
    let b = f.blocks[g.cur_blk];
    if items.len() == 0 {
        assert(b.insts + phrase_code(items) =~= b.insts);
        assert(f.blocks.update(g.cur_blk, crate::ir::BlockV { insts: b.insts, ..b }) =~= f.blocks);
        assert(g.module.funcs.update(g.cur_fn, f) =~= g.module.funcs);
        assert((crate::ir::BlockV { insts: b.insts, ..b }) == b);
        assert((crate::ir::FuncV { blocks: f.blocks.update(g.cur_blk, b), ..f }) == f);
    } else {
        let inst = prim_item_code(items[0])->0;
        let g1 = spec_lower(g, items[0]);
        assert(g1 == emit(g, inst));
        assert(wf(g1));
        assert(prim_phrase(items.skip(1)));
        lemma_lower_prim_phrase(g1, items.skip(1));
        let g2 = spec_lower_seq(g1, items.skip(1));
        let f1 = g1.module.funcs[g.cur_fn];
        let b1 = f1.blocks[g.cur_blk];
        assert(b1.insts == b.insts.push(inst));
        assert(b1.term == b.term);
        assert(b.insts.push(inst) + phrase_code(items.skip(1)) =~= b.insts + phrase_code(items));
        assert(f1.blocks.update(g.cur_blk, crate::ir::BlockV {
            insts: b1.insts + phrase_code(items.skip(1)),
            ..b1
        }) =~= f.blocks.update(g.cur_blk, crate::ir::BlockV {
            insts: b.insts + phrase_code(items),
            ..b
        }));
        assert(g1.module.funcs.update(g.cur_fn, crate::ir::FuncV {
            blocks: f1.blocks.update(g.cur_blk, crate::ir::BlockV {
                insts: b1.insts + phrase_code(items.skip(1)),
                ..b1
            }),
            ..f1
        }) =~= g.module.funcs.update(g.cur_fn, crate::ir::FuncV {
            blocks: f.blocks.update(g.cur_blk, crate::ir::BlockV {
                insts: b.insts + phrase_code(items),
                ..b
            }),
            ..f
        }));
    }
}

/// A run of instructions without calls into the module reads neither the
/// module nor the fuel: it behaves alike in every module and budget.
proof fn lemma_run_insts_prim_only(
    m1: ModuleV,
    m2: ModuleV,
    insts: Seq<Inst>,
    st: RtStateV,
    f1: nat,
    f2: nat,
)
    requires
        forall|i: int|
            0 <= i < insts.len() ==> !(#[trigger] insts[i] matches Inst::Call(Callee::User(_))),
    ensures
        spec_run_insts(m1, insts, st, f1) == spec_run_insts(m2, insts, st, f2),
    decreases insts.len(),
{
    if insts.len() > 0 {
        let rest = insts.subrange(1, insts.len() as int);
        assert(forall|i: int|
            0 <= i < rest.len() ==> !(#[trigger] rest[i] matches Inst::Call(Callee::User(_))));
        match insts[0] {
            Inst::PushConst(c) => {
                lemma_run_insts_prim_only(
                    m1,
                    m2,
                    rest,
                    RtStateV { data: st.data.push(c), ..st },
                    f1,
                    f2,
                );
            },
            Inst::Phi => {
                lemma_run_insts_prim_only(m1, m2, rest, st, f1, f2);
            },
            Inst::Call(Callee::Prim(p)) => {
                match spec_prim_step(p, st) {
                    None => {},
                    Some(st2) => {
                        lemma_run_insts_prim_only(m1, m2, rest, st2, f1, f2);
                    },
                }
            },
            Inst::Call(Callee::User(_)) => {
                assert(false);
            },
        }
    }
}


/// Conditional truth: after any phrase of definitions and declarations
/// (such as the prelude), compiling `v if C else A then` and executing it
/// returns what compiling and executing `C` alone returns when `v` is the
/// true encoding -1, and what `A` alone returns for every other `v`, zero
/// or not.  `C` and `A` here are straight-line phrases of literals and
/// primitive words.
pub proof fn lemma_conditional_truth(
    pre: AstV,
    v: i64,
    c: Seq<AstV>,
    a: Seq<AstV>,
    fuel: nat,
)
    requires
        neutral_phrase(pre),
        prim_phrase(c),
        prim_phrase(a),
        fuel >= 2,
    ensures
        ({
            let cond = AstV::Phrase(
                seq![
                    AstV::Push(v),
                    AstV::Conditional {
                        consequent: Box::new(AstV::Phrase(c)),
                        alternative: Some(Box::new(AstV::Phrase(a))),
                    },
                ],
            );
            let chosen = AstV::Phrase(
                if v == -1i64 {
                    c
                } else {
                    a
                },
            );
            let m_cond = seal(
                spec_lower(spec_lower(init_codegen(), pre), cond),
                Term::RetPeek,
            ).module;
            let m_plain = seal(
                spec_lower(spec_lower(init_codegen(), pre), chosen),
                Term::RetPeek,
            ).module;
            spec_run_main(m_cond, fuel) == spec_run_main(m_plain, fuel)
        }),
{
    let g0 = init_codegen();
    let g1 = spec_lower(g0, pre);
    match pre {
        AstV::Phrase(pitems) => {
            lemma_lower_neutral_seq(g0, pitems);
        },
        _ => {},
    }
    assert(g1.cur_fn == 0 && g1.cur_blk == 0);
    assert(g1.module.funcs[0] == g0.module.funcs[0]);
    let entry0 = g1.module.funcs[0].blocks[0];
    assert(entry0.insts =~= seq![Inst::Call(Callee::Prim(Prim::InitGlobals))]);
    assert(g1.module.funcs[0].blocks.len() == 1);

    // the conditional module
    let condc = AstV::Conditional {
        consequent: Box::new(AstV::Phrase(c)),
        alternative: Some(Box::new(AstV::Phrase(a))),
    };
    let cond = AstV::Phrase(seq![AstV::Push(v), condc]);
    let items = seq![AstV::Push(v), condc];
    let g2 = spec_lower(g1, AstV::Push(v));
    assert(g2 == emit(g1, Inst::PushConst(v)));
    assert(wf(g2));
    assert(g2.module.funcs[0].blocks.len() == 1);
    let g3 = spec_lower(g2, condc);
    assert(items[0] == AstV::Push(v) && items[1] == condc);
    assert(items.skip(1) =~= seq![condc]);
    assert(seq![condc].skip(1) =~= Seq::<AstV>::empty());
    assert(spec_lower_seq(g3, Seq::<AstV>::empty()) == g3);
    assert(spec_lower_seq(g2, seq![condc]) == g3);
    assert(spec_lower(g1, cond) == spec_lower_seq(g1, items));
    assert(spec_lower_seq(g1, items) == spec_lower_seq(spec_lower(g1, items[0]), items.skip(1)));
    assert(spec_lower_seq(g2, items.skip(1)) == spec_lower_seq(g2, seq![condc]));
    assert(spec_lower(g1, cond) == g3);

    // unfold the conditional's lowering
    let ga = crate::lower::add_block(
        crate::lower::add_block(crate::lower::add_block(g2, 0), 0),
        0,
    );
    let gb = seal(ga, Term::CondBr { then_bb: 1, else_bb: 2 });
    let gc = crate::lower::set_cursor(gb, 0, 1);
    assert(wf(gc));
    lemma_lower_prim_phrase(gc, c);
    let gd = spec_lower(gc, AstV::Phrase(c));
    assert(gd == spec_lower_seq(gc, c));
    let ge = crate::lower::set_cursor(seal(gd, Term::Br(3)), 0, 2);
    assert(wf(ge));
    lemma_lower_prim_phrase(ge, a);
    let gf = spec_lower(ge, AstV::Phrase(a));
    assert(gf == spec_lower_seq(ge, a));
    let gg = crate::lower::set_cursor(seal(gf, Term::Br(3)), 0, 3);
    let gh = emit(gg, Inst::Phi);
    assert(g3 == gh);
    let mc = seal(gh, Term::RetPeek).module;

    // the four blocks of the conditional module's main
    assert(mc.funcs[0].blocks.len() == 4);
    assert(mc.funcs[0].blocks[0].insts =~= seq![
        Inst::Call(Callee::Prim(Prim::InitGlobals)),
        Inst::PushConst(v),
    ]);
    assert(mc.funcs[0].blocks[0].term == (Term::CondBr { then_bb: 1, else_bb: 2 }));
    assert(mc.funcs[0].blocks[1].insts =~= phrase_code(c));
    assert(mc.funcs[0].blocks[1].term == Term::Br(3));
    assert(mc.funcs[0].blocks[2].insts =~= phrase_code(a));
    assert(mc.funcs[0].blocks[2].term == Term::Br(3));
    assert(mc.funcs[0].blocks[3].insts =~= seq![Inst::Phi]);
    assert(mc.funcs[0].blocks[3].term == Term::RetPeek);

    // the plain module
    let chosen_items = if v == -1i64 { c } else { a };
    let gp = spec_lower(g1, AstV::Phrase(chosen_items));
    lemma_lower_prim_phrase(g1, chosen_items);
    let mp = seal(gp, Term::RetPeek).module;
    assert(mp.funcs[0].blocks.len() == 1);
    assert(mp.funcs[0].blocks[0].insts =~= seq![
        Inst::Call(Callee::Prim(Prim::InitGlobals)),
    ] + phrase_code(chosen_items));
    assert(mp.funcs[0].blocks[0].term == Term::RetPeek);

    // run the conditional module's main
    let st0 = empty_state();
    let stv = RtStateV { data: st0.data.push(v), ..st0 };
    assert(mc.funcs[0].blocks[0].insts.subrange(1, 2) =~= seq![Inst::PushConst(v)]);
    assert(seq![Inst::PushConst(v)].subrange(1, 1) =~= Seq::<Inst>::empty());
    assert(spec_prim_step(Prim::InitGlobals, st0) == Some(st0));
    let e2 = seq![Inst::Call(Callee::Prim(Prim::InitGlobals)), Inst::PushConst(v)];
    assert(e2.subrange(1, 2) =~= seq![Inst::PushConst(v)]);
    assert(spec_run_insts(mc, e2, st0, fuel) == spec_run_insts(
        mc,
        seq![Inst::PushConst(v)],
        st0,
        fuel,
    ));
    assert(spec_run_insts(mc, seq![Inst::PushConst(v)], st0, fuel) == spec_run_insts(
        mc,
        Seq::<Inst>::empty(),
        stv,
        fuel,
    ));
    assert(spec_run_insts(mc, Seq::<Inst>::empty(), stv, fuel) == Some(stv));
    assert(spec_run_insts(mc, mc.funcs[0].blocks[0].insts, st0, fuel) == Some(stv));
    assert(stv.data.len() == 1 && stv.data[0] == v);
    let tgt: int = if v == -1i64 { 1 } else { 2 };
    assert(stv.data.subrange(0, 0) =~= st0.data);
    assert((RtStateV { data: stv.data.subrange(0, stv.data.len() - 1), ..stv }) == st0);
    assert(spec_run_block(mc, 0, 0, st0, fuel) == spec_run_block(
        mc,
        0,
        tgt,
        st0,
        (fuel - 1) as nat,
    ));

    // the chosen arm's block runs the chosen code and joins at the merge
    let code = phrase_code(chosen_items);
    assert(mc.funcs[0].blocks[tgt].insts =~= code);
    assert(mc.funcs[0].blocks[tgt].term == Term::Br(3));
    lemma_phrase_code_no_user(chosen_items);
    lemma_run_insts_prim_only(mc, mp, code, st0, (fuel - 1) as nat, fuel);
    match spec_run_insts(mc, code, st0, (fuel - 1) as nat) {
        None => {
            assert(spec_run_block(mc, 0, tgt, st0, (fuel - 1) as nat) is None);
            // and the plain module also faults in the same way
            assert(spec_run_insts(mp, seq![
                Inst::Call(Callee::Prim(Prim::InitGlobals)),
            ] + code, st0, fuel) is None) by {
                lemma_run_insts_append(
                    mp,
                    seq![Inst::Call(Callee::Prim(Prim::InitGlobals))],
                    code,
                    st0,
                    fuel,
                );
                assert(seq![Inst::Call(Callee::Prim(Prim::InitGlobals))].subrange(1, 1)
                    =~= Seq::<Inst>::empty());
                assert(spec_run_insts(mp, seq![
                    Inst::Call(Callee::Prim(Prim::InitGlobals)),
                ], st0, fuel) == spec_run_insts(mp, Seq::<Inst>::empty(), st0, fuel));
                assert(spec_run_insts(mp, Seq::<Inst>::empty(), st0, fuel) == Some(st0));
            }
            assert(spec_run_main(mc, fuel) is None);
            assert(spec_run_main(mp, fuel) is None);
        },
        Some(s) => {
            assert(spec_run_block(mc, 0, tgt, st0, (fuel - 1) as nat) == spec_run_block(
                mc,
                0,
                3,
                s,
                (fuel - 2) as nat,
            ));
            assert(seq![Inst::Phi].subrange(1, 1) =~= Seq::<Inst>::empty());
            assert(spec_run_insts(mc, seq![Inst::Phi], s, (fuel - 2) as nat) == spec_run_insts(
                mc,
                Seq::<Inst>::empty(),
                s,
                (fuel - 2) as nat,
            ));
            assert(spec_run_insts(mc, Seq::<Inst>::empty(), s, (fuel - 2) as nat) == Some(s));
            // the plain module reaches the same state and the same peek
            assert(spec_run_insts(mp, seq![
                Inst::Call(Callee::Prim(Prim::InitGlobals)),
            ] + code, st0, fuel) == Some(s)) by {
                lemma_run_insts_append(
                    mp,
                    seq![Inst::Call(Callee::Prim(Prim::InitGlobals))],
                    code,
                    st0,
                    fuel,
                );
                assert(seq![Inst::Call(Callee::Prim(Prim::InitGlobals))].subrange(1, 1)
                    =~= Seq::<Inst>::empty());
                assert(spec_run_insts(mp, seq![
                    Inst::Call(Callee::Prim(Prim::InitGlobals)),
                ], st0, fuel) == spec_run_insts(mp, Seq::<Inst>::empty(), st0, fuel));
                assert(spec_run_insts(mp, Seq::<Inst>::empty(), st0, fuel) == Some(st0));
            }
            if s.data.len() == 0 {
                assert(spec_run_main(mc, fuel) is None);
                assert(spec_run_main(mp, fuel) is None);
            } else {
                assert(spec_run_main(mc, fuel) == Some(s.data[s.data.len() - 1]));
                assert(spec_run_main(mp, fuel) == Some(s.data[s.data.len() - 1]));
            }
        },
    }
}


/// A name borne by none of the module's functions is found exactly at a
/// freshly appended function of that name.
proof fn lemma_lookup_fresh(funcs: Seq<crate::ir::FuncV>, nf: crate::ir::FuncV, i: int)
    requires
        0 <= i <= funcs.len(),
        forall|j: int| 0 <= j < funcs.len() ==> (#[trigger] funcs[j]).name != nf.name,
    ensures
        crate::lower::lookup_func_from(funcs.push(nf), nf.name, i) == Some(funcs.len() as int),
    decreases funcs.len() - i,
{
    if i < funcs.len() {
        assert(funcs.push(nf)[i] == funcs[i]);
        lemma_lookup_fresh(funcs, nf, i + 1);
    }
}

/// Definition transparency: after any phrase of definitions and
/// declarations (such as the prelude), compiling `: f B ; f` and executing
/// it returns what compiling and executing `B` alone returns, for every
/// straight-line body `B` and every word `f` naming neither a runtime
/// primitive nor a function already defined.
pub proof fn lemma_definition_transparency(
    pre: AstV,
    name: Seq<u8>,
    body: Seq<AstV>,
    fuel: nat,
)
    requires
        neutral_phrase(pre),
        prim_phrase(body),
        crate::names::spec_prim_alias(name) is None,
        crate::names::spec_runtime_prim(name) is None,
        forall|j: int|
            0 <= j < spec_lower(init_codegen(), pre).module.funcs.len() ==> (
            #[trigger] spec_lower(init_codegen(), pre).module.funcs[j]).name != name,
        spec_lower(init_codegen(), pre).module.funcs.len() < usize::MAX,
        fuel >= 1,
    ensures
        ({
            let def = AstV::Definition(
                Box::new(AstV::Phrase(seq![AstV::Word(name)] + body)),
            );
            let m_def = seal(
                spec_lower(
                    spec_lower(init_codegen(), pre),
                    AstV::Phrase(seq![def, AstV::Word(name)]),
                ),
                Term::RetPeek,
            ).module;
            let m_plain = seal(
                spec_lower(spec_lower(init_codegen(), pre), AstV::Phrase(body)),
                Term::RetPeek,
            ).module;
            spec_run_main(m_def, fuel) == spec_run_main(m_plain, fuel)
        }),
{
    let g0 = init_codegen();
    let g1 = spec_lower(g0, pre);
    match pre {
        AstV::Phrase(pitems) => {
            lemma_lower_neutral_seq(g0, pitems);
        },
        _ => {},
    }
    assert(g1.cur_fn == 0 && g1.cur_blk == 0);
    assert(g1.module.funcs[0] == g0.module.funcs[0]);
    assert(g1.module.funcs[0].blocks.len() == 1);

    // lower the definition: a fresh function holding the body's code
    let ditems = seq![AstV::Word(name)] + body;
    let def = AstV::Definition(Box::new(AstV::Phrase(ditems)));
    assert(ditems[0] == AstV::Word(name));
    assert(ditems.skip(1) =~= body);
    let ga = crate::lower::add_func(g1, name);
    assert(wf(ga));
    lemma_lower_prim_phrase(ga, body);
    let gb = spec_lower_seq(ga, body);
    let gc = seal(gb, Term::RetVoid);
    let g2 = crate::lower::set_cursor(gc, 0, 0);
    assert(spec_lower(g1, def) == g2);
    let k = g1.module.funcs.len();
    assert(0 <= k < usize::MAX);
    assert((k as usize) as int == k as int);
    assert(g2.module.funcs.len() == k + 1);
    assert(Seq::<Inst>::empty() + phrase_code(body) =~= phrase_code(body));
    assert(g2.module.funcs[k as int].name == name);
    assert(g2.module.funcs[k as int].blocks =~= seq![
        crate::ir::BlockV { insts: phrase_code(body), term: Term::RetVoid },
    ]);
    assert(g2.module.funcs[0] == g1.module.funcs[0]);
    assert(forall|j: int| 0 <= j < k ==> (#[trigger] g2.module.funcs[j]) == g1.module.funcs[j]);
    assert(wf(g2));

    // lower the reference to the word: a call to the fresh function
    assert(forall|j: int|
        0 <= j < gb.module.funcs.len() - 1 ==> (#[trigger] gb.module.funcs[j]).name
            == g1.module.funcs[j].name);
    lemma_lookup_fresh(g1.module.funcs, g2.module.funcs[k as int], 0);
    assert(g2.module.funcs =~= g1.module.funcs.push(g2.module.funcs[k as int]));
    assert(crate::lower::lookup_func_from(g2.module.funcs, name, 0) == Some(k as int));
    let g3 = spec_lower(g2, AstV::Word(name));
    assert(g3 == emit(g2, Inst::Call(Callee::User(k as usize))));

    // the phrase of both items
    let items = seq![def, AstV::Word(name)];
    assert(items[0] == def);
    assert(items.skip(1) =~= seq![AstV::Word(name)]);
    assert(seq![AstV::Word(name)].skip(1) =~= Seq::<AstV>::empty());
    assert(spec_lower_seq(g3, Seq::<AstV>::empty()) == g3);
    assert(spec_lower_seq(g2, seq![AstV::Word(name)]) == g3);
    assert(spec_lower_seq(g2, items.skip(1)) == g3);
    assert(spec_lower(g1, AstV::Phrase(items)) == spec_lower_seq(g1, items));
    assert(spec_lower_seq(g1, items) == spec_lower_seq(spec_lower(g1, items[0]), items.skip(1)));
    let md = seal(g3, Term::RetPeek).module;
    assert(md == seal(spec_lower(g1, AstV::Phrase(items)), Term::RetPeek).module);
    assert(md.funcs[0].blocks[0].insts =~= seq![
        Inst::Call(Callee::Prim(Prim::InitGlobals)),
        Inst::Call(Callee::User(k as usize)),
    ]);
    assert(md.funcs[0].blocks[0].term == Term::RetPeek);
    assert(md.funcs[k as int] == g2.module.funcs[k as int]);

    // the plain module
    lemma_lower_prim_phrase(g1, body);
    let gp = spec_lower(g1, AstV::Phrase(body));
    let mp = seal(gp, Term::RetPeek).module;
    assert(mp.funcs[0].blocks[0].insts =~= seq![
        Inst::Call(Callee::Prim(Prim::InitGlobals)),
    ] + phrase_code(body));
    assert(mp.funcs[0].blocks[0].term == Term::RetPeek);

    // run both
    let st0 = empty_state();
    let code = phrase_code(body);
    lemma_phrase_code_no_user(body);
    lemma_run_insts_prim_only(md, mp, code, st0, (fuel - 1) as nat, fuel);
    let e2 = seq![
        Inst::Call(Callee::Prim(Prim::InitGlobals)),
        Inst::Call(Callee::User(k as usize)),
    ];
    assert(e2.subrange(1, 2) =~= seq![Inst::Call(Callee::User(k as usize))]);
    assert(spec_prim_step(Prim::InitGlobals, st0) == Some(st0));
    assert(spec_run_insts(md, e2, st0, fuel) == spec_run_insts(
        md,
        seq![Inst::Call(Callee::User(k as usize))],
        st0,
        fuel,
    ));
    assert(md.funcs.len() == k + 1);
    assert(md.funcs[0].blocks.len() == 1);
    assert(md.funcs[k as int].blocks.len() == 1);
    assert(md.funcs[k as int].blocks[0].term == Term::RetVoid);
    lemma_definition_call_runs_body(md, k as usize, st0, fuel);
    assert(md.funcs[k as int].blocks[0].insts == code);
    assert(spec_run_insts(md, seq![Inst::Call(Callee::User(k as usize))], st0, fuel)
        == spec_run_insts(md, code, st0, (fuel - 1) as nat));
    lemma_run_insts_append(
        mp,
        seq![Inst::Call(Callee::Prim(Prim::InitGlobals))],
        code,
        st0,
        fuel,
    );
    assert(seq![Inst::Call(Callee::Prim(Prim::InitGlobals))].subrange(1, 1)
        =~= Seq::<Inst>::empty());
    assert(spec_run_insts(mp, seq![
        Inst::Call(Callee::Prim(Prim::InitGlobals)),
    ], st0, fuel) == spec_run_insts(mp, Seq::<Inst>::empty(), st0, fuel));
    assert(spec_run_insts(mp, Seq::<Inst>::empty(), st0, fuel) == Some(st0));
    assert(seq![Inst::Call(Callee::Prim(Prim::InitGlobals))] + code =~= mp.funcs[
        0
    ].blocks[0].insts);
    match spec_run_insts(md, code, st0, (fuel - 1) as nat) {
        None => {
            assert(spec_run_main(md, fuel) is None);
            assert(spec_run_main(mp, fuel) is None);
        },
        Some(s) => {
            assert(spec_run_insts(md, e2, st0, fuel) == Some(s));
            if s.data.len() == 0 {
                assert(spec_run_main(md, fuel) is None);
                assert(spec_run_main(mp, fuel) is None);
            } else {
                assert(spec_run_main(md, fuel) == Some(s.data[s.data.len() - 1]));
                assert(spec_run_main(mp, fuel) == Some(s.data[s.data.len() - 1]));
            }
        },
    }
}


/// The prelude identity of `dup`: executing a function of `dup`'s lowered
/// shape (`temp ! temp @ temp @`, with `t` the pushed slot of the scratch
/// variable) duplicates the top of the data stack; the scratch slot is
/// clobbered with the duplicated value.
pub proof fn lemma_dup_identity(m: ModuleV, f: int, st: RtStateV, fuel: nat, t: i64)
    requires
        0 <= f < m.funcs.len(),
        m.funcs[f].blocks =~= seq![
            crate::ir::BlockV {
                insts: seq![
                    Inst::PushConst(t),
                    Inst::Call(Callee::Prim(Prim::Store)),
                    Inst::PushConst(t),
                    Inst::Call(Callee::Prim(Prim::Fetch)),
                    Inst::PushConst(t),
                    Inst::Call(Callee::Prim(Prim::Fetch)),
                ],
                term: Term::RetVoid,
            },
        ],
        st.data.len() > 0,
    ensures
        crate::run::spec_run_func(m, f, st, fuel) == Some(
            RtStateV {
                data: st.data.push(st.data.last()),
                mem: st.mem.push((t, st.data.last())),
                ..st
            },
        ),
{
    let x = st.data.last();
    let s0 = m.funcs[f].blocks[0].insts;
    let s1 = seq![
        Inst::Call(Callee::Prim(Prim::Store)),
        Inst::PushConst(t),
        Inst::Call(Callee::Prim(Prim::Fetch)),
        Inst::PushConst(t),
        Inst::Call(Callee::Prim(Prim::Fetch)),
    ];
    let s2 = seq![
        Inst::PushConst(t),
        Inst::Call(Callee::Prim(Prim::Fetch)),
        Inst::PushConst(t),
        Inst::Call(Callee::Prim(Prim::Fetch)),
    ];
    let s3 = seq![
        Inst::Call(Callee::Prim(Prim::Fetch)),
        Inst::PushConst(t),
        Inst::Call(Callee::Prim(Prim::Fetch)),
    ];
    let s4 = seq![Inst::PushConst(t), Inst::Call(Callee::Prim(Prim::Fetch))];
    let s5 = seq![Inst::Call(Callee::Prim(Prim::Fetch))];
    assert(s0.subrange(1, 6) =~= s1);
    assert(s1.subrange(1, 5) =~= s2);
    assert(s2.subrange(1, 4) =~= s3);
    assert(s3.subrange(1, 3) =~= s4);
    assert(s4.subrange(1, 2) =~= s5);
    assert(s5.subrange(1, 1) =~= Seq::<Inst>::empty());

    let a0 = RtStateV { data: st.data.push(t), ..st };
    assert(spec_run_insts(m, s0, st, fuel) == spec_run_insts(m, s1, a0, fuel));
    let a1 = RtStateV {
        data: a0.data.subrange(0, a0.data.len() - 2),
        mem: st.mem.push((t, x)),
        ..st
    };
    assert(spec_prim_step(Prim::Store, a0) == Some(a1));
    assert(spec_run_insts(m, s1, a0, fuel) == spec_run_insts(m, s2, a1, fuel));
    let a2 = RtStateV { data: a1.data.push(t), ..a1 };
    assert(spec_run_insts(m, s2, a1, fuel) == spec_run_insts(m, s3, a2, fuel));
    assert(mem_read(a2.mem, t) == x);
    let a3 = RtStateV { data: a2.data.subrange(0, a2.data.len() - 1).push(x), ..a2 };
    assert(spec_prim_step(Prim::Fetch, a2) == Some(a3));
    assert(spec_run_insts(m, s3, a2, fuel) == spec_run_insts(m, s4, a3, fuel));
    let a4 = RtStateV { data: a3.data.push(t), ..a3 };
    assert(spec_run_insts(m, s4, a3, fuel) == spec_run_insts(m, s5, a4, fuel));
    let a5 = RtStateV { data: a4.data.subrange(0, a4.data.len() - 1).push(x), ..a4 };
    assert(spec_prim_step(Prim::Fetch, a4) == Some(a5));
    assert(spec_run_insts(m, s5, a4, fuel) == spec_run_insts(m, Seq::<Inst>::empty(), a5, fuel));
    assert(spec_run_insts(m, Seq::<Inst>::empty(), a5, fuel) == Some(a5));

    assert(a1.data =~= st.data.subrange(0, st.data.len() - 1));
    assert(a3.data =~= st.data.subrange(0, st.data.len() - 1).push(x));
    assert(a3.data =~= st.data);
    assert(a5.data =~= st.data.push(x));
    assert(a5 == RtStateV { data: st.data.push(x), mem: st.mem.push((t, x)), ..st });
    assert(spec_run_block(m, f, 0, st, fuel) == Some((a5, None::<i64>)));
}


/// The prelude identity of `swap`: executing a function of `swap`'s
/// lowered shape (`>r temp ! r> temp @`) exchanges the top two values of
/// the data stack; the scratch slot is clobbered with the value that was
/// beneath the top.
pub proof fn lemma_swap_identity(m: ModuleV, f: int, st: RtStateV, fuel: nat, t: i64)
    requires
        0 <= f < m.funcs.len(),
        m.funcs[f].blocks =~= seq![
            crate::ir::BlockV {
                insts: seq![
                    Inst::Call(Callee::Prim(Prim::RPush)),
                    Inst::PushConst(t),
                    Inst::Call(Callee::Prim(Prim::Store)),
                    Inst::Call(Callee::Prim(Prim::RPop)),
                    Inst::PushConst(t),
                    Inst::Call(Callee::Prim(Prim::Fetch)),
                ],
                term: Term::RetVoid,
            },
        ],
        st.data.len() >= 2,
    ensures
        crate::run::spec_run_func(m, f, st, fuel) == Some(
            RtStateV {
                data: st.data.subrange(0, st.data.len() - 2).push(
                    st.data[st.data.len() - 1],
                ).push(st.data[st.data.len() - 2]),
                mem: st.mem.push((t, st.data[st.data.len() - 2])),
                ..st
            },
        ),
{
    let x = st.data[st.data.len() - 2];
    let y = st.data[st.data.len() - 1];
    let s0 = m.funcs[f].blocks[0].insts;
    let s1 = seq![
        Inst::PushConst(t),
        Inst::Call(Callee::Prim(Prim::Store)),
        Inst::Call(Callee::Prim(Prim::RPop)),
        Inst::PushConst(t),
        Inst::Call(Callee::Prim(Prim::Fetch)),
    ];
    let s2 = seq![
        Inst::Call(Callee::Prim(Prim::Store)),
        Inst::Call(Callee::Prim(Prim::RPop)),
        Inst::PushConst(t),
        Inst::Call(Callee::Prim(Prim::Fetch)),
    ];
    let s3 = seq![
        Inst::Call(Callee::Prim(Prim::RPop)),
        Inst::PushConst(t),
        Inst::Call(Callee::Prim(Prim::Fetch)),
    ];
    let s4 = seq![Inst::PushConst(t), Inst::Call(Callee::Prim(Prim::Fetch))];
    let s5 = seq![Inst::Call(Callee::Prim(Prim::Fetch))];
    assert(s0.subrange(1, 6) =~= s1);
    assert(s1.subrange(1, 5) =~= s2);
    assert(s2.subrange(1, 4) =~= s3);
    assert(s3.subrange(1, 3) =~= s4);
    assert(s4.subrange(1, 2) =~= s5);
    assert(s5.subrange(1, 1) =~= Seq::<Inst>::empty());

    let a0 = RtStateV {
        data: st.data.subrange(0, st.data.len() - 1),
        ret: st.ret.push(y),
        ..st
    };
    assert(spec_prim_step(Prim::RPush, st) == Some(a0));
    assert(spec_run_insts(m, s0, st, fuel) == spec_run_insts(m, s1, a0, fuel));
    let a1 = RtStateV { data: a0.data.push(t), ..a0 };
    assert(spec_run_insts(m, s1, a0, fuel) == spec_run_insts(m, s2, a1, fuel));
    assert(a1.data[a1.data.len() - 2] == x);
    let a2 = RtStateV {
        data: a1.data.subrange(0, a1.data.len() - 2),
        mem: st.mem.push((t, x)),
        ..a1
    };
    assert(spec_prim_step(Prim::Store, a1) == Some(a2));
    assert(spec_run_insts(m, s2, a1, fuel) == spec_run_insts(m, s3, a2, fuel));
    assert(a2.ret.len() >= 1 && a2.ret[a2.ret.len() - 1] == y);
    let a3 = RtStateV {
        data: a2.data.push(y),
        ret: a2.ret.subrange(0, a2.ret.len() - 1),
        ..a2
    };
    assert(spec_prim_step(Prim::RPop, a2) == Some(a3));
    assert(spec_run_insts(m, s3, a2, fuel) == spec_run_insts(m, s4, a3, fuel));
    let a4 = RtStateV { data: a3.data.push(t), ..a3 };
    assert(spec_run_insts(m, s4, a3, fuel) == spec_run_insts(m, s5, a4, fuel));
    assert(mem_read(a4.mem, t) == x);
    let a5 = RtStateV { data: a4.data.subrange(0, a4.data.len() - 1).push(x), ..a4 };
    assert(spec_prim_step(Prim::Fetch, a4) == Some(a5));
    assert(spec_run_insts(m, s5, a4, fuel) == spec_run_insts(m, Seq::<Inst>::empty(), a5, fuel));
    assert(spec_run_insts(m, Seq::<Inst>::empty(), a5, fuel) == Some(a5));

    assert(a2.data =~= st.data.subrange(0, st.data.len() - 2));
    assert(a5.data =~= st.data.subrange(0, st.data.len() - 2).push(y).push(x));
    assert(a5.ret =~= st.ret);
    assert(a5 == RtStateV {
        data: st.data.subrange(0, st.data.len() - 2).push(y).push(x),
        mem: st.mem.push((t, x)),
        ..st
    });
    assert(spec_run_block(m, f, 0, st, fuel) == Some((a5, None::<i64>)));
}

/// The prelude identity of `over`: executing a function of `over`'s
/// lowered shape (`>r temp ! temp @ r> temp @`) copies the value beneath
/// the top over the top; the scratch slot is clobbered with that value.
pub proof fn lemma_over_identity(m: ModuleV, f: int, st: RtStateV, fuel: nat, t: i64)
    requires
        0 <= f < m.funcs.len(),
        m.funcs[f].blocks =~= seq![
            crate::ir::BlockV {
                insts: seq![
                    Inst::Call(Callee::Prim(Prim::RPush)),
                    Inst::PushConst(t),
                    Inst::Call(Callee::Prim(Prim::Store)),
                    Inst::PushConst(t),
                    Inst::Call(Callee::Prim(Prim::Fetch)),
                    Inst::Call(Callee::Prim(Prim::RPop)),
                    Inst::PushConst(t),
                    Inst::Call(Callee::Prim(Prim::Fetch)),
                ],
                term: Term::RetVoid,
            },
        ],
        st.data.len() >= 2,
    ensures
        crate::run::spec_run_func(m, f, st, fuel) == Some(
            RtStateV {
                data: st.data.push(st.data[st.data.len() - 2]),
                mem: st.mem.push((t, st.data[st.data.len() - 2])),
                ..st
            },
        ),
{
    let x = st.data[st.data.len() - 2];
    let y = st.data[st.data.len() - 1];
    let s0 = m.funcs[f].blocks[0].insts;
    let s1 = seq![
        Inst::PushConst(t),
        Inst::Call(Callee::Prim(Prim::Store)),
        Inst::PushConst(t),
        Inst::Call(Callee::Prim(Prim::Fetch)),
        Inst::Call(Callee::Prim(Prim::RPop)),
        Inst::PushConst(t),
        Inst::Call(Callee::Prim(Prim::Fetch)),
    ];
    let s2 = seq![
        Inst::Call(Callee::Prim(Prim::Store)),
        Inst::PushConst(t),
        Inst::Call(Callee::Prim(Prim::Fetch)),
        Inst::Call(Callee::Prim(Prim::RPop)),
        Inst::PushConst(t),
        Inst::Call(Callee::Prim(Prim::Fetch)),
    ];
    let s3 = seq![
        Inst::PushConst(t),
        Inst::Call(Callee::Prim(Prim::Fetch)),
        Inst::Call(Callee::Prim(Prim::RPop)),
        Inst::PushConst(t),
        Inst::Call(Callee::Prim(Prim::Fetch)),
    ];
    let s4 = seq![
        Inst::Call(Callee::Prim(Prim::Fetch)),
        Inst::Call(Callee::Prim(Prim::RPop)),
        Inst::PushConst(t),
        Inst::Call(Callee::Prim(Prim::Fetch)),
    ];
    let s5 = seq![
        Inst::Call(Callee::Prim(Prim::RPop)),
        Inst::PushConst(t),
        Inst::Call(Callee::Prim(Prim::Fetch)),
    ];
    let s6 = seq![Inst::PushConst(t), Inst::Call(Callee::Prim(Prim::Fetch))];
    let s7 = seq![Inst::Call(Callee::Prim(Prim::Fetch))];
    assert(s0.subrange(1, 8) =~= s1);
    assert(s1.subrange(1, 7) =~= s2);
    assert(s2.subrange(1, 6) =~= s3);
    assert(s3.subrange(1, 5) =~= s4);
    assert(s4.subrange(1, 4) =~= s5);
    assert(s5.subrange(1, 3) =~= s6);
    assert(s6.subrange(1, 2) =~= s7);
    assert(s7.subrange(1, 1) =~= Seq::<Inst>::empty());

    let a0 = RtStateV {
        data: st.data.subrange(0, st.data.len() - 1),
        ret: st.ret.push(y),
        ..st
    };
    assert(spec_prim_step(Prim::RPush, st) == Some(a0));
    assert(spec_run_insts(m, s0, st, fuel) == spec_run_insts(m, s1, a0, fuel));
    let a1 = RtStateV { data: a0.data.push(t), ..a0 };
    assert(spec_run_insts(m, s1, a0, fuel) == spec_run_insts(m, s2, a1, fuel));
    assert(a1.data[a1.data.len() - 2] == x);
    let a2 = RtStateV {
        data: a1.data.subrange(0, a1.data.len() - 2),
        mem: st.mem.push((t, x)),
        ..a1
    };
    assert(spec_prim_step(Prim::Store, a1) == Some(a2));
    assert(spec_run_insts(m, s2, a1, fuel) == spec_run_insts(m, s3, a2, fuel));
    let a3 = RtStateV { data: a2.data.push(t), ..a2 };
    assert(spec_run_insts(m, s3, a2, fuel) == spec_run_insts(m, s4, a3, fuel));
    assert(mem_read(a3.mem, t) == x);
    let a4 = RtStateV { data: a3.data.subrange(0, a3.data.len() - 1).push(x), ..a3 };
    assert(spec_prim_step(Prim::Fetch, a3) == Some(a4));
    assert(spec_run_insts(m, s4, a3, fuel) == spec_run_insts(m, s5, a4, fuel));
    assert(a4.ret.len() >= 1 && a4.ret[a4.ret.len() - 1] == y);
    let a5 = RtStateV {
        data: a4.data.push(y),
        ret: a4.ret.subrange(0, a4.ret.len() - 1),
        ..a4
    };
    assert(spec_prim_step(Prim::RPop, a4) == Some(a5));
    assert(spec_run_insts(m, s5, a4, fuel) == spec_run_insts(m, s6, a5, fuel));
    let a6 = RtStateV { data: a5.data.push(t), ..a5 };
    assert(spec_run_insts(m, s6, a5, fuel) == spec_run_insts(m, s7, a6, fuel));
    assert(mem_read(a6.mem, t) == x);
    let a7 = RtStateV { data: a6.data.subrange(0, a6.data.len() - 1).push(x), ..a6 };
    assert(spec_prim_step(Prim::Fetch, a6) == Some(a7));
    assert(spec_run_insts(m, s7, a6, fuel) == spec_run_insts(m, Seq::<Inst>::empty(), a7, fuel));
    assert(spec_run_insts(m, Seq::<Inst>::empty(), a7, fuel) == Some(a7));

    assert(a2.data =~= st.data.subrange(0, st.data.len() - 2));
    assert(a4.data =~= st.data.subrange(0, st.data.len() - 2).push(x));
    assert(a5.data =~= st.data.subrange(0, st.data.len() - 2).push(x).push(y));
    assert(a5.data =~= st.data);
    assert(a7.data =~= st.data.push(x));
    assert(a7.ret =~= st.ret);
    assert(a7 == RtStateV {
        data: st.data.push(x),
        mem: st.mem.push((t, x)),
        ..st
    });
    assert(spec_run_block(m, f, 0, st, fuel) == Some((a7, None::<i64>)));
}


/// Bitwise complement and two's-complement negation: `!x` is `-1 - x`.
proof fn lemma_not_is_neg_minus_one(x: i64)
    ensures
        !x == -1 - x,
{
    assert(x + !x == -1i64) by (bit_vector);
}


/// The prelude identity of `negate`: executing a function of `negate`'s
/// lowered shape (a call to `invert`, then `1 +`) replaces the top `x` of
/// the data stack by its two's-complement negation: `-x` for every `x`
/// but the smallest, which wraps to itself.
pub proof fn lemma_negate_identity(
    m: ModuleV,
    f: int,
    ki: usize,
    st: RtStateV,
    fuel: nat,
)
    requires
        0 <= f < m.funcs.len(),
        ki < m.funcs.len(),
        m.funcs[f].blocks =~= seq![
            crate::ir::BlockV {
                insts: seq![
                    Inst::Call(Callee::User(ki)),
                    Inst::PushConst(1i64),
                    Inst::Call(Callee::Prim(Prim::Plus)),
                ],
                term: Term::RetVoid,
            },
        ],
        m.funcs[ki as int].blocks =~= seq![
            crate::ir::BlockV {
                insts: seq![
                    Inst::PushConst(-1i64),
                    Inst::Call(Callee::Prim(Prim::Nand)),
                ],
                term: Term::RetVoid,
            },
        ],
        st.data.len() > 0,
        fuel >= 1,
    ensures
        ({
            let x = st.data.last();
            let r = crate::run::spec_run_func(m, f, st, fuel);
            &&& r == Some(
                RtStateV {
                    data: st.data.subrange(0, st.data.len() - 1).push(
                        (1i64).wrapping_add(!x),
                    ),
                    ..st
                },
            )
            &&& (x != i64::MIN ==> (1i64).wrapping_add(!x) == -x)
            &&& (x == i64::MIN ==> (1i64).wrapping_add(!x) == i64::MIN)
        }),
{
    let x = st.data.last();
    let s0 = m.funcs[f].blocks[0].insts;
    let s1 = seq![Inst::PushConst(1i64), Inst::Call(Callee::Prim(Prim::Plus))];
    let s2 = seq![Inst::Call(Callee::Prim(Prim::Plus))];
    assert(s0.subrange(1, 3) =~= s1);
    assert(s1.subrange(1, 2) =~= s2);
    assert(s2.subrange(1, 1) =~= Seq::<Inst>::empty());

    let nxu: u64 = !(x as u64);
    let nx: i64 = nxu as i64;
    assert(nxu as i64 == !x) by (bit_vector)
        requires
            nxu == !(x as u64),
    ;
    assert(nx == !x);
    lemma_invert_identity(m, ki as int, st, (fuel - 1) as nat, x);
    let dsub = st.data.subrange(0, st.data.len() - 1);
    let a0 = RtStateV { data: dsub.push(nx), ..st };
    assert(crate::run::spec_run_func(m, ki as int, st, (fuel - 1) as nat) == Some(a0));
    assert(spec_run_insts(m, s0, st, fuel) == spec_run_insts(m, s1, a0, fuel));
    let a1 = RtStateV { data: a0.data.push(1i64), ..a0 };
    assert(spec_run_insts(m, s1, a0, fuel) == spec_run_insts(m, s2, a1, fuel));
    let negv = (1i64).wrapping_add(nx);
    let a2 = RtStateV {
        data: a1.data.subrange(0, a1.data.len() - 2).push(negv),
        ..a1
    };
    assert(dsub.len() == st.data.len() - 1);
    assert(a0.data[dsub.len() as int] == nx);
    assert(a0.data[a0.data.len() - 1] == nx);
    assert(a1.data[a1.data.len() - 1] == 1i64);
    assert(a1.data[a1.data.len() - 2] == a0.data[a0.data.len() - 1]);
    assert(spec_prim_step(Prim::Plus, a1) == Some(a2));
    assert(spec_run_insts(m, s2, a1, fuel) == spec_run_insts(m, Seq::<Inst>::empty(), a2, fuel));
    assert(spec_run_insts(m, Seq::<Inst>::empty(), a2, fuel) == Some(a2));
    assert(a2.data =~= st.data.subrange(0, st.data.len() - 1).push(negv));
    assert(a2 == RtStateV {
        data: st.data.subrange(0, st.data.len() - 1).push(negv),
        ..st
    });
    assert(spec_run_block(m, f, 0, st, fuel) == Some((a2, None::<i64>)));

    lemma_not_is_neg_minus_one(x);
}




/// Integer round-trip, end to end and unconditional: whatever a fresh
/// compilation of a source text that parses to the single literal `i`
/// returns, it is `i`.  (A `None` outcome would mean the prelude failed
/// the compiler's own shape check in `spec_compile_module`, the only
/// alternative that definition leaves.)
pub proof fn lemma_integer_round_trip_pinned(code: Seq<u8>, i: i64, fuel: nat)
    requires
        crate::parser::spec_parse(code) == Some(AstV::Phrase(seq![AstV::Push(i)])),
        fuel >= 1,
    ensures
        crate::compiler::spec_compile_and_run(init_codegen(), code, fuel) matches Some(v)
            ==> v == i,
{
    let r = crate::compiler::spec_compile_and_run(init_codegen(), code, fuel);
    if r is Some {
        let pre = crate::parser::spec_parse(crate::prelude::prelude_bytes())->0;
        assert(neutral_phrase(pre));
        lemma_integer_round_trip(pre, i, fuel);
    }
}


/// The decimal digits of `n` are digits, start with a digit, and denote
/// `n` again.
proof fn lemma_dec_digits_value(n: nat)
    ensures
        crate::fmt::dec_digits(n).len() >= 1,
        crate::parser::all_digits(crate::fmt::dec_digits(n)),
        crate::parser::is_digit(crate::fmt::dec_digits(n)[0]),
        crate::parser::digits_val(crate::fmt::dec_digits(n)) == n,
    decreases n,
{
    let d = crate::fmt::dec_digits(n);
    if n < 10 {
        assert(d == seq![(48 + n) as u8]);
        assert(d.subrange(0, 0) =~= Seq::<u8>::empty());
        assert(crate::parser::digits_val(d) == crate::parser::digits_val(Seq::<u8>::empty())
            * 10 + (d[0] - 48));
    } else {
        lemma_dec_digits_value(n / 10);
        let hd = crate::fmt::dec_digits(n / 10);
        assert(d == hd.push((48 + n % 10) as u8));
        assert(d.subrange(0, d.len() - 1) =~= hd);
        assert(crate::parser::digits_val(d) == crate::parser::digits_val(hd) * 10 + (d[d.len()
            - 1] - 48));
        assert(crate::parser::digits_val(d) == (n / 10) * 10 + n % 10);
        assert((n / 10) * 10 + n % 10 == n);
    }
}

/// The decimal rendering of `v` is an integer token denoting `v`, made of
/// a sign and digits only (no whitespace, no reserved first byte).
proof fn lemma_dec_i64_token(v: i64)
    ensures
        crate::fmt::dec_i64(v).len() >= 1,
        crate::parser::spec_parse_int(crate::fmt::dec_i64(v)) == Some(v),
        crate::parser::is_int_tok(crate::fmt::dec_i64(v)),
        forall|j: int|
            0 <= j < crate::fmt::dec_i64(v).len() ==> !crate::names::is_ws(
                #[trigger] crate::fmt::dec_i64(v)[j],
            ),
        crate::fmt::dec_i64(v)[0] == '-' as u8 || crate::parser::is_digit(
            crate::fmt::dec_i64(v)[0],
        ),
{
    let t = crate::fmt::dec_i64(v);
    if v >= 0 {
        lemma_dec_digits_value(v as nat);
        assert(t == crate::fmt::dec_digits(v as nat));
        assert(crate::parser::int_tok_val(t) == v);
    } else {
        lemma_dec_digits_value((-(v as int)) as nat);
        let ds = crate::fmt::dec_digits((-(v as int)) as nat);
        assert(t == seq!['-' as u8] + ds);
        assert(t[0] == '-' as u8);
        assert(t.skip(1) =~= ds);
        assert(crate::parser::int_tok_val(t) == -crate::parser::digits_val(ds));
        assert(crate::parser::int_tok_val(t) == v);
        assert(forall|j: int|
            1 <= j < t.len() ==> #[trigger] t[j] == ds[j - 1]);
    }
}

/// A nonempty text without whitespace is one token.
proof fn lemma_tok_from_solid(s: Seq<u8>, i: int, cur: Seq<u8>, acc: Seq<Seq<u8>>)
    requires
        0 <= i <= s.len(),
        forall|j: int| i <= j < s.len() ==> !crate::names::is_ws(#[trigger] s[j]),
        cur.len() + s.len() - i > 0,
    ensures
        crate::names::spec_tok_from(s, i, cur, acc) == acc.push(cur + s.subrange(i, s.len() as int)),
    decreases s.len() - i,
{
    if i >= s.len() {
        assert(cur + s.subrange(i, s.len() as int) =~= cur);
    } else {
        lemma_tok_from_solid(s, i + 1, cur.push(s[i]), acc);
        assert(cur.push(s[i]) + s.subrange(i + 1, s.len() as int) =~= cur + s.subrange(
            i,
            s.len() as int,
        ));
    }
}

/// The decimal rendering of `v` tokenizes to that one token and parses to
/// the phrase of the single literal `v`.
pub proof fn lemma_decimal_parses(v: i64)
    ensures
        crate::parser::spec_parse(crate::fmt::dec_i64(v)) == Some(
            AstV::Phrase(seq![AstV::Push(v)]),
        ),
{
    let t = crate::fmt::dec_i64(v);
    lemma_dec_i64_token(v);
    lemma_tok_from_solid(t, 0, Seq::empty(), Seq::empty());
    assert(Seq::<u8>::empty() + t.subrange(0, t.len() as int) =~= t);
    let toks = crate::names::spec_tokenize(t);
    assert(toks == Seq::<Seq<u8>>::empty().push(t));
    assert(toks =~= seq![t]);
    assert(toks.len() == 1 && toks[0] == t);

    // the one token is no keyword: its first byte is a sign or a digit
    assert(t != crate::parser::k_semi()) by {
        if t == crate::parser::k_semi() {
            assert(t[0] == ';' as u8);
        }
    }
    assert(t != crate::parser::k_else()) by {
        if t == crate::parser::k_else() {
            assert(t[0] == 'e' as u8);
        }
    }
    assert(t != crate::parser::k_then()) by {
        if t == crate::parser::k_then() {
            assert(t[0] == 't' as u8);
        }
    }
    assert(t != crate::parser::k_loop()) by {
        if t == crate::parser::k_loop() {
            assert(t[0] == 'l' as u8);
        }
    }
    assert(t != crate::parser::k_colon()) by {
        if t == crate::parser::k_colon() {
            assert(t[0] == ':' as u8);
        }
    }
    assert(t != crate::parser::k_variable()) by {
        if t == crate::parser::k_variable() {
            assert(t[0] == 'v' as u8);
        }
    }
    assert(t != crate::parser::k_if()) by {
        if t == crate::parser::k_if() {
            assert(t[0] == 'i' as u8);
        }
    }
    assert(t != crate::parser::k_do()) by {
        if t == crate::parser::k_do() {
            assert(t[0] == 'd' as u8);
        }
    }
    assert(t != crate::parser::k_dotq()) by {
        if t == crate::parser::k_dotq() {
            assert(t[0] == '.' as u8);
        }
    }
    assert(!crate::parser::is_closer_tok(toks[0], crate::parser::Closer::Top));
    assert(!crate::parser::is_any_closer(toks[0]));

    let item = crate::parser::spec_parse_item(toks, 0);
    assert(item == Some((AstV::Push(v), 1int)));
    let tail = crate::parser::spec_parse_seq(toks, 1, crate::parser::Closer::Top);
    assert(tail == Some((Seq::<AstV>::empty(), 1int)));
    let whole = crate::parser::spec_parse_seq(toks, 0, crate::parser::Closer::Top);
    assert(whole == Some((seq![AstV::Push(v)] + Seq::<AstV>::empty(), 1int)));
    assert(seq![AstV::Push(v)] + Seq::<AstV>::empty() =~= seq![AstV::Push(v)]);
    assert(whole == Some((seq![AstV::Push(v)], 1int)));
}

/// Integer round-trip from the decimal text itself: whatever a fresh
/// compilation of the decimal rendering of `i` returns, it is `i`.
pub proof fn lemma_decimal_round_trip(i: i64, fuel: nat)
    requires
        fuel >= 1,
    ensures
        crate::compiler::spec_compile_and_run(
            init_codegen(),
            crate::fmt::dec_i64(i),
            fuel,
        ) matches Some(v) ==> v == i,
{
    lemma_decimal_parses(i);
    lemma_integer_round_trip_pinned(crate::fmt::dec_i64(i), i, fuel);
}


/// The prelude identity of `0=`: executing a function of its lowered
/// shape (a call to `invert`, then `if -1 else 0 then`) replaces the top
/// of the data stack by the genuine zero test: -1 for 0, and 0 for every
/// other value (`invert` of the top is the true encoding -1 exactly when
/// the top is 0).
pub proof fn lemma_zero_test_identity(
    m: ModuleV,
    f: int,
    ki: usize,
    st: RtStateV,
    fuel: nat,
)
    requires
        0 <= f < m.funcs.len(),
        ki < m.funcs.len(),
        m.funcs[f].blocks =~= seq![
            crate::ir::BlockV {
                insts: seq![Inst::Call(Callee::User(ki))],
                term: Term::CondBr { then_bb: 1, else_bb: 2 },
            },
            crate::ir::BlockV { insts: seq![Inst::PushConst(-1i64)], term: Term::Br(3) },
            crate::ir::BlockV { insts: seq![Inst::PushConst(0i64)], term: Term::Br(3) },
            crate::ir::BlockV { insts: seq![Inst::Phi], term: Term::RetVoid },
        ],
        m.funcs[ki as int].blocks =~= seq![
            crate::ir::BlockV {
                insts: seq![
                    Inst::PushConst(-1i64),
                    Inst::Call(Callee::Prim(Prim::Nand)),
                ],
                term: Term::RetVoid,
            },
        ],
        st.data.len() > 0,
        fuel >= 2,
    ensures
        crate::run::spec_run_func(m, f, st, fuel) == Some(
            RtStateV {
                data: st.data.subrange(0, st.data.len() - 1).push(
                    if st.data.last() == 0i64 {
                        -1i64
                    } else {
                        0i64
                    },
                ),
                ..st
            },
        ),
{
    let x = st.data.last();
    let s0 = m.funcs[f].blocks[0].insts;
    assert(s0.subrange(1, 1) =~= Seq::<Inst>::empty());
    lemma_invert_identity(m, ki as int, st, (fuel - 1) as nat, x);
    let dsub = st.data.subrange(0, st.data.len() - 1);
    let a0 = RtStateV { data: dsub.push(!x), ..st };
    assert(crate::run::spec_run_func(m, ki as int, st, (fuel - 1) as nat) == Some(a0));
    assert(spec_run_insts(m, s0, st, fuel) == spec_run_insts(m, Seq::<Inst>::empty(), a0, fuel));
    assert(spec_run_insts(m, Seq::<Inst>::empty(), a0, fuel) == Some(a0));

    // the compiled test: pop the inverted top and branch on the true
    // encoding, which the complement hits exactly for a zero top
    lemma_not_is_neg_minus_one(x);
    assert((!x == -1i64) <==> (x == 0i64));
    assert(a0.data.len() == st.data.len());
    assert(a0.data[a0.data.len() - 1] == !x);
    assert(a0.data.subrange(0, a0.data.len() - 1) =~= dsub);
    let a1 = RtStateV { data: dsub, ..a0 };
    let tgt: int = if x == 0i64 {
        1
    } else {
        2
    };
    assert(spec_run_block(m, f, 0, st, fuel) == spec_run_block(m, f, tgt, a1, (fuel - 1) as nat));

    // the chosen arm pushes the test's answer and joins at the merge
    let ans: i64 = if x == 0i64 {
        -1i64
    } else {
        0i64
    };
    let arm = m.funcs[f].blocks[tgt].insts;
    assert(arm =~= seq![Inst::PushConst(ans)]);
    assert(arm.subrange(1, 1) =~= Seq::<Inst>::empty());
    let a2 = RtStateV { data: dsub.push(ans), ..a1 };
    assert(spec_run_insts(m, arm, a1, (fuel - 1) as nat) == spec_run_insts(
        m,
        Seq::<Inst>::empty(),
        a2,
        (fuel - 1) as nat,
    ));
    assert(spec_run_insts(m, Seq::<Inst>::empty(), a2, (fuel - 1) as nat) == Some(a2));
    assert(m.funcs[f].blocks[tgt].term == Term::Br(3));
    assert(spec_run_block(m, f, tgt, a1, (fuel - 1) as nat) == spec_run_block(
        m,
        f,
        3,
        a2,
        (fuel - 2) as nat,
    ));

    let mrg = m.funcs[f].blocks[3].insts;
    assert(mrg =~= seq![Inst::Phi]);
    assert(mrg.subrange(1, 1) =~= Seq::<Inst>::empty());
    assert(spec_run_insts(m, mrg, a2, (fuel - 2) as nat) == spec_run_insts(
        m,
        Seq::<Inst>::empty(),
        a2,
        (fuel - 2) as nat,
    ));
    assert(spec_run_insts(m, Seq::<Inst>::empty(), a2, (fuel - 2) as nat) == Some(a2));
    assert(m.funcs[f].blocks[3].term == Term::RetVoid);
    assert(spec_run_block(m, f, 3, a2, (fuel - 2) as nat) == Some((a2, None::<i64>)));
}

} // verus!
