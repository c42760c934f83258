use vstd::prelude::*;
use crate::ir::{Callee, Inst, ModuleIr, ModuleV, Prim, Term};

verus! {

broadcast use crate::ir::lemma_view_funcs_len, crate::ir::lemma_view_funcs_index,
    crate::ir::lemma_view_blocks_len, crate::ir::lemma_view_blocks_index;


/// The runtime's process-wide mutable state: the data stack and the return
/// stack of signed 64-bit integers, and the variable memory.  The memory is
/// kept as the journal of `store` calls; a slot never stored to reads as 0.
pub struct RtState {
    pub data: Vec<i64>,
    pub ret: Vec<i64>,
    pub mem: Vec<(i64, i64)>,
}

pub struct RtStateV {
    pub data: Seq<i64>,
    pub ret: Seq<i64>,
    pub mem: Seq<(i64, i64)>,
}

impl View for RtState {
    type V = RtStateV;

    open spec fn view(&self) -> RtStateV {
        RtStateV { data: self.data@, ret: self.ret@, mem: self.mem@ }
    }
}

/// The state `initGlobals` establishes: both stacks and the variable
/// memory empty (every slot 0).
pub open spec fn empty_state() -> RtStateV {
    RtStateV { data: Seq::empty(), ret: Seq::empty(), mem: Seq::empty() }
}

/// The value of variable slot `a`: the value of the latest store to `a`,
/// or 0 if there was none.
pub open spec fn mem_read(mem: Seq<(i64, i64)>, a: i64) -> i64
    decreases mem.len(),
{
    if mem.len() == 0 {
        0
    } else if mem[mem.len() - 1].0 == a {
        mem[mem.len() - 1].1
    } else {
        mem_read(mem.subrange(0, mem.len() - 1), a)
    }
}

/// The effect of one zero-argument call to a runtime symbol, per the
/// runtime ABI.  `None` is a runtime fault: a stack underflow, or a
/// zero-argument call to `push`/`pop`/`peek` (which take arguments).
/// Arithmetic is two's-complement: `plus` wraps.
pub open spec fn spec_prim_step(p: Prim, st: RtStateV) -> Option<RtStateV> {
    match p {
        Prim::InitGlobals => Some(empty_state()),
        Prim::PushOp => None,
        Prim::PopOp => None,
        Prim::PeekOp => None,
        Prim::Plus => if st.data.len() < 2 {
            None
        } else {
            let a = st.data[st.data.len() - 1];
            let b = st.data[st.data.len() - 2];
            Some(
                RtStateV {
                    data: st.data.subrange(0, st.data.len() - 2).push(a.wrapping_add(b)),
                    ..st
                },
            )
        },
        Prim::Nand => if st.data.len() < 2 {
            None
        } else {
            let a = st.data[st.data.len() - 1];
            let b = st.data[st.data.len() - 2];
            Some(RtStateV { data: st.data.subrange(0, st.data.len() - 2).push(!(a & b)), ..st })
        },
        Prim::Fetch => if st.data.len() < 1 {
            None
        } else {
            let a = st.data[st.data.len() - 1];
            Some(
                RtStateV {
                    data: st.data.subrange(0, st.data.len() - 1).push(mem_read(st.mem, a)),
                    ..st
                },
            )
        },
        Prim::Store => if st.data.len() < 2 {
            None
        } else {
            let a = st.data[st.data.len() - 1];
            let v = st.data[st.data.len() - 2];
            Some(
                RtStateV {
                    data: st.data.subrange(0, st.data.len() - 2),
                    mem: st.mem.push((a, v)),
                    ..st
                },
            )
        },
        Prim::RPush => if st.data.len() < 1 {
            None
        } else {
            let a = st.data[st.data.len() - 1];
            Some(
                RtStateV {
                    data: st.data.subrange(0, st.data.len() - 1),
                    ret: st.ret.push(a),
                    ..st
                },
            )
        },
        Prim::RPop => if st.ret.len() < 1 {
            None
        } else {
            let a = st.ret[st.ret.len() - 1];
            Some(
                RtStateV {
                    data: st.data.push(a),
                    ret: st.ret.subrange(0, st.ret.len() - 1),
                    ..st
                },
            )
        },
    }
}

/// Executes the instructions of one block from index 0, in order.
/// A call to a function of the module spends one unit of fuel; `None`
/// is a runtime fault or fuel exhaustion.
pub open spec fn spec_run_insts(m: ModuleV, insts: Seq<Inst>, st: RtStateV, fuel: nat) -> Option<
    RtStateV,
>
    decreases fuel, 0nat, insts.len(),
{
    if insts.len() == 0 {
        Some(st)
    } else {
        let rest = insts.subrange(1, insts.len() as int);
        match insts[0] {
            Inst::PushConst(c) => spec_run_insts(
                m,
                rest,
                RtStateV { data: st.data.push(c), ..st },
                fuel,
            ),
            Inst::Phi => spec_run_insts(m, rest, st, fuel),
            Inst::Call(Callee::Prim(p)) => match spec_prim_step(p, st) {
                None => None,
                Some(st2) => spec_run_insts(m, rest, st2, fuel),
            },
            Inst::Call(Callee::User(f)) => if fuel == 0 {
                None
            } else {
                match spec_run_func(m, f as int, st, (fuel - 1) as nat) {
                    None => None,
                    Some(st2) => spec_run_insts(m, rest, st2, fuel),
                }
            },
        }
    }
}

/// Executes block `b` of function `f` and whatever follows it, until a
/// return.  The returned pair carries the final state and, for `RetPeek`,
/// the returned top of the data stack.
pub open spec fn spec_run_block(m: ModuleV, f: int, b: int, st: RtStateV, fuel: nat) -> Option<
    (RtStateV, Option<i64>),
>
    decreases fuel, 1nat, 0nat,
{
    if !(0 <= f < m.funcs.len() && 0 <= b < m.funcs[f].blocks.len()) {
        None
    } else {
        let blk = m.funcs[f].blocks[b];
        match spec_run_insts(m, blk.insts, st, fuel) {
            None => None,
            Some(st2) => match blk.term {
                Term::Open => None,
                Term::Br(t) => if fuel == 0 {
                    None
                } else {
                    spec_run_block(m, f, t as int, st2, (fuel - 1) as nat)
                },
                Term::CondBr { then_bb, else_bb } => if st2.data.len() == 0 || fuel == 0 {
                    None
                } else {
                    let v = st2.data[st2.data.len() - 1];
                    let st3 = RtStateV { data: st2.data.subrange(0, st2.data.len() - 1), ..st2 };
                    let tgt: int = if v == -1i64 {
                        then_bb as int
                    } else {
                        else_bb as int
                    };
                    spec_run_block(m, f, tgt, st3, (fuel - 1) as nat)
                },
                Term::RetVoid => Some((st2, None)),
                Term::RetPeek => if st2.data.len() == 0 {
                    None
                } else {
                    Some((st2, Some(st2.data[st2.data.len() - 1])))
                },
            },
        }
    }
}

/// Executes a call to function `f` of the module: its entry block onward.
pub open spec fn spec_run_func(m: ModuleV, f: int, st: RtStateV, fuel: nat) -> Option<RtStateV>
    decreases fuel, 2nat, 0nat,
{
    match spec_run_block(m, f, 0, st, fuel) {
        None => None,
        Some((st2, _)) => Some(st2),
    }
}

/// Executes the module's synthetic `main` (function 0) from the empty
/// state and returns the integer `main` returns: the final top of the
/// data stack.
pub open spec fn spec_run_main(m: ModuleV, fuel: nat) -> Option<i64> {
    match spec_run_block(m, 0, 0, empty_state(), fuel) {
        Some((st, Some(v))) => Some(v),
        _ => None,
    }
}

pub open spec fn ost(r: Option<RtState>) -> Option<RtStateV> {
    match r {
        Some(s) => Some(s@),
        None => None,
    }
}

fn mem_read_x(mem: &Vec<(i64, i64)>, a: i64) -> (r: i64)
    ensures
        r == mem_read(mem@, a),
{
    let mut i: usize = mem.len();
    proof {
        assert(mem@.subrange(0, mem@.len() as int) =~= mem@);
    }
    while i > 0
        invariant
            i <= mem.len(),
            mem_read(mem@, a) == mem_read(mem@.subrange(0, i as int), a),
        decreases i,
    {
        let pair = mem[i - 1];
        if pair.0 == a {
            assert(mem@.subrange(0, i as int)[i - 1] == pair);
            return pair.1;
        }
        proof {
            assert(mem@.subrange(0, i as int).subrange(0, i - 1) =~= mem@.subrange(
                0,
                i - 1,
            ));
        }
        i = i - 1;
    }
    proof {
        assert(mem@.subrange(0, 0) =~= Seq::<(i64, i64)>::empty());
    }
    0
}

/// One zero-argument runtime call, mirroring `spec_prim_step`.
fn prim_step(p: Prim, st: RtState) -> (r: Option<RtState>)
    ensures
        ost(r) == spec_prim_step(p, st@),
{
    let ghost st0 = st@;
    let mut st = st;
    match p {
        Prim::InitGlobals => Some(
            RtState { data: Vec::new(), ret: Vec::new(), mem: Vec::new() },
        ),
        Prim::PushOp => None,
        Prim::PopOp => None,
        Prim::PeekOp => None,
        Prim::Plus => {
            if st.data.len() < 2 {
                return None;
            }
            let a = st.data.pop().unwrap();
            let b = st.data.pop().unwrap();
            st.data.push(a.wrapping_add(b));
            proof {
                assert(st@.data =~= st0.data.subrange(0, st0.data.len() - 2).push(
                    a.wrapping_add(b),
                ));
            }
            Some(st)
        },
        Prim::Nand => {
            if st.data.len() < 2 {
                return None;
            }
            let a = st.data.pop().unwrap();
            let b = st.data.pop().unwrap();
            let c: i64 = a & b;
            let cu: u64 = !(c as u64);
            let nv: i64 = cu as i64;
            proof {
                assert(cu as i64 == !c) by (bit_vector)
                    requires
                        cu == !(c as u64),
                ;
            }
            st.data.push(nv);
            proof {
                assert(st@.data =~= st0.data.subrange(0, st0.data.len() - 2).push(!(a & b)));
            }
            Some(st)
        },
        Prim::Fetch => {
            if st.data.len() < 1 {
                return None;
            }
            let a = st.data.pop().unwrap();
            let v = mem_read_x(&st.mem, a);
            st.data.push(v);
            proof {
                assert(st@.data =~= st0.data.subrange(0, st0.data.len() - 1).push(
                    mem_read(st0.mem, a),
                ));
            }
            Some(st)
        },
        Prim::Store => {
            if st.data.len() < 2 {
                return None;
            }
            let a = st.data.pop().unwrap();
            let v = st.data.pop().unwrap();
            st.mem.push((a, v));
            proof {
                assert(st@.data =~= st0.data.subrange(0, st0.data.len() - 2));
            }
            Some(st)
        },
        Prim::RPush => {
            if st.data.len() < 1 {
                return None;
            }
            let a = st.data.pop().unwrap();
            st.ret.push(a);
            proof {
                assert(st@.data =~= st0.data.subrange(0, st0.data.len() - 1));
            }
            Some(st)
        },
        Prim::RPop => {
            if st.ret.len() < 1 {
                return None;
            }
            let a = st.ret.pop().unwrap();
            st.data.push(a);
            proof {
                assert(st@.ret =~= st0.ret.subrange(0, st0.ret.len() - 1));
            }
            Some(st)
        },
    }
}


pub open spec fn obst(r: Option<(RtState, Option<i64>)>) -> Option<(RtStateV, Option<i64>)> {
    match r {
        Some((s, v)) => Some((s@, v)),
        None => None,
    }
}

proof fn lemma_block_view(m: &ModuleIr, f: int, b: int)
    requires
        0 <= f < m.funcs@.len(),
        0 <= b < m.funcs@[f].blocks@.len(),
    ensures
        m@.funcs.len() == m.funcs@.len(),
        m@.funcs[f].blocks.len() == m.funcs@[f].blocks@.len(),
        m@.funcs[f].blocks[b].insts == m.funcs@[f].blocks@[b].insts@,
        m@.funcs[f].blocks[b].term == m.funcs@[f].blocks@[b].term,
{
    assert(m@.funcs[f] == m.funcs@[f]@);
    assert(m@.funcs[f].blocks[b] == m.funcs@[f].blocks@[b]@);
}

/// Executes the instructions of block `b` of function `f` from index
/// `pos` on, mirroring `spec_run_insts`.
pub fn run_insts(m: &ModuleIr, f: usize, b: usize, pos: usize, st: RtState, fuel: u64) -> (r:
    Option<RtState>)
    requires
        f < m.funcs@.len(),
        b < m.funcs@[f as int].blocks@.len(),
        pos <= m.funcs@[f as int].blocks@[b as int].insts@.len(),
    ensures
        ost(r) == spec_run_insts(
            m@,
            m@.funcs[f as int].blocks[b as int].insts.skip(pos as int),
            st@,
            fuel as nat,
        ),
    decreases fuel, 0nat, m.funcs@[f as int].blocks@[b as int].insts@.len() - pos,
{
    proof {
        lemma_block_view(m, f as int, b as int);
    }
    let ghost s = m@.funcs[f as int].blocks[b as int].insts;
    let n = m.funcs[f].blocks[b].insts.len();
    if pos == n {
        proof {
            assert(s.skip(pos as int) =~= Seq::<Inst>::empty());
        }
        return Some(st);
    }
    proof {
        assert(s.skip(pos as int)[0] == s[pos as int]);
        assert(s.skip(pos as int).subrange(1, s.len() - pos) =~= s.skip(pos as int + 1));
    }
    let inst = m.funcs[f].blocks[b].insts[pos];
    match inst {
        Inst::PushConst(c) => {
            let mut st = st;
            st.data.push(c);
            run_insts(m, f, b, pos + 1, st, fuel)
        },
        Inst::Phi => run_insts(m, f, b, pos + 1, st, fuel),
        Inst::Call(Callee::Prim(p)) => match prim_step(p, st) {
            None => None,
            Some(st2) => run_insts(m, f, b, pos + 1, st2, fuel),
        },
        Inst::Call(Callee::User(g)) => {
            if fuel == 0 {
                return None;
            }
            match run_func(m, g, st, fuel - 1) {
                None => None,
                Some(st2) => run_insts(m, f, b, pos + 1, st2, fuel),
            }
        },
    }
}

/// Executes block `b` of function `f` and whatever follows it, mirroring
/// `spec_run_block`.
pub fn run_block(m: &ModuleIr, f: usize, b: usize, st: RtState, fuel: u64) -> (r: Option<
    (RtState, Option<i64>),
>)
    ensures
        obst(r) == spec_run_block(m@, f as int, b as int, st@, fuel as nat),
    decreases fuel, 1nat, 0nat,
{
    if f >= m.funcs.len() || b >= m.funcs[f].blocks.len() {
        proof {
            if f < m.funcs@.len() {
                assert(m@.funcs[f as int] == m.funcs@[f as int]@);
            }
        }
        return None;
    }
    proof {
        lemma_block_view(m, f as int, b as int);
        assert(m@.funcs[f as int].blocks[b as int].insts.skip(0) =~= m@.funcs[
            f as int
        ].blocks[b as int].insts);
    }
    match run_insts(m, f, b, 0, st, fuel) {
        None => None,
        Some(st2) => {
            let term = m.funcs[f].blocks[b].term;
            match term {
                Term::Open => None,
                Term::Br(t) => {
                    if fuel == 0 {
                        return None;
                    }
                    run_block(m, f, t, st2, fuel - 1)
                },
                Term::CondBr { then_bb, else_bb } => {
                    let mut st2 = st2;
                    if st2.data.len() == 0 || fuel == 0 {
                        return None;
                    }
                    let ghost d0 = st2@.data;
                    let v = st2.data.pop().unwrap();
                    proof {
                        assert(st2@.data =~= d0.subrange(0, d0.len() - 1));
                    }
                    let tgt = if v == -1i64 {
                        then_bb
                    } else {
                        else_bb
                    };
                    run_block(m, f, tgt, st2, fuel - 1)
                },
                Term::RetVoid => Some((st2, None)),
                Term::RetPeek => {
                    if st2.data.len() == 0 {
                        return None;
                    }
                    let v = st2.data[st2.data.len() - 1];
                    Some((st2, Some(v)))
                },
            }
        },
    }
}

/// Executes a call to function `f` of the module, mirroring
/// `spec_run_func`.
pub fn run_func(m: &ModuleIr, f: usize, st: RtState, fuel: u64) -> (r: Option<RtState>)
    ensures
        ost(r) == spec_run_func(m@, f as int, st@, fuel as nat),
    decreases fuel, 2nat, 0nat,
{
    match run_block(m, f, 0, st, fuel) {
        None => None,
        Some((st2, _)) => Some(st2),
    }
}

/// Executes the module's synthetic `main` from the empty state, mirroring
/// `spec_run_main`: the result is the final top of the data stack.
pub fn run_main(m: &ModuleIr, fuel: u64) -> (r: Option<i64>)
    ensures
        r == spec_run_main(m@, fuel as nat),
{
    let st = RtState { data: Vec::new(), ret: Vec::new(), mem: Vec::new() };
    proof {
        assert(st@.data =~= empty_state().data);
        assert(st@.ret =~= empty_state().ret);
        assert(st@.mem =~= empty_state().mem);
    }
    match run_block(m, 0, 0, st, fuel) {
        Some((_, Some(v))) => Some(v),
        Some((_, None)) => None,
        None => None,
    }
}

} // verus!
