use vstd::prelude::*;
use crate::ast::AstV;
use crate::ir::{ModuleIr, ModuleV, Term};
use crate::lower::{init_codegen, seal, spec_lower, wf, CodeGen, CodeGenV};
use crate::lower::lemma_lower_wf;
use crate::parser::{parse, spec_parse};
use crate::prelude::{prelude_bytes, prelude_src};
use crate::run::{run_main, spec_run_main};

verus! {

/// The compiled module of one compilation: the prelude phrase, then the
/// user phrase, lowered into a fresh generator, and the synthetic `main`
/// finished with the final peek-and-return.  `None` where either phrase
/// fails to parse: a parse failure is fatal.  The compiler also insists
/// that the prelude is what it must be, a phrase of definitions and
/// declarations alone: anything else would emit code into `main` before
/// the user's, and is rejected.
pub open spec fn spec_compile_module(g: CodeGenV, code: Seq<u8>) -> Option<ModuleV> {
    match spec_parse(prelude_bytes()) {
        None => None,
        Some(pre) => if !crate::props::neutral_phrase(pre) {
            None
        } else {
            match spec_parse(code) {
                None => None,
                Some(user) => Some(
                    seal(spec_lower(spec_lower(g, pre), user), Term::RetPeek).module,
                ),
            }
        },
    }
}

/// What one compile-and-execute returns: the final top of the data stack
/// of the compiled module's `main`, or `None` on a parse failure, a
/// runtime fault or fuel exhaustion.
pub open spec fn spec_compile_and_run(g: CodeGenV, code: Seq<u8>, fuel: nat) -> Option<i64> {
    match spec_compile_module(g, code) {
        None => None,
        Some(m) => spec_run_main(m, fuel),
    }
}

/// The compiler: owns the module under construction for its lifetime.
/// Variable-address bindings persist across phrases of one compilation.
pub struct Compiler {
    codegen: CodeGen,
}

impl View for Compiler {
    type V = CodeGenV;

    closed spec fn view(&self) -> CodeGenV {
        self.codegen@
    }
}

impl Compiler {
    /// A fresh compiler over a fresh module.
    pub fn new() -> (c: Compiler)
        ensures
            c@ == init_codegen(),
            wf(c@),
    {
        Compiler { codegen: CodeGen::new() }
    }

    /// Compiles the prelude and then `code` into the module and finishes
    /// `main`.  Returns whether both phrases parsed; on `false` nothing
    /// was lowered.  A compiler that has finished its module accepts no
    /// further phrase: `wf` no longer holds of it.
    pub fn compile_module(&mut self, code: &[u8]) -> (ok: bool)
        requires
            wf(old(self)@),
        ensures
            ok <==> spec_compile_module(old(self)@, code@) is Some,
            ok ==> Some(final(self)@.module) == spec_compile_module(old(self)@, code@),
            !ok ==> final(self)@ == old(self)@,
    {
        let pre_src = prelude_src();
        let pre = match parse(pre_src.as_slice()) {
            Some(a) => a,
            None => {
                return false;
            },
        };
        if !crate::lower::neutral_phrase_x(&pre) {
            return false;
        }
        let user = match parse(code) {
            Some(a) => a,
            None => {
                return false;
            },
        };
        self.codegen.compile_expr(&pre);
        self.codegen.compile_expr(&user);
        proof {
            lemma_lower_wf(spec_lower(old(self)@, pre@), user@);
        }
        self.codegen.seal_main(Term::RetPeek);
        true
    }

    /// Compiles `code` and executes the module's `main` against the
    /// runtime model, with the given call budget; returns the final top
    /// of the data stack, rendered by the caller.
    pub fn compile_and_run(&mut self, code: &[u8], fuel: u64) -> (r: Option<i64>)
        requires
            wf(old(self)@),
        ensures
            r == spec_compile_and_run(old(self)@, code@, fuel as nat),
    {
        if !self.compile_module(code) {
            return None;
        }
        run_main(&self.codegen.module, fuel)
    }

    /// Compiles and executes as `compile_and_run`, rendering the result
    /// in decimal, as the runtime's result is printed.
    pub fn compile_and_run_text(&mut self, code: &[u8], fuel: u64) -> (r: Option<Vec<u8>>)
        requires
            wf(old(self)@),
        ensures
            match spec_compile_and_run(old(self)@, code@, fuel as nat) {
                Some(v) => r matches Some(t) && t@ == crate::fmt::dec_i64(v),
                None => r is None,
            },
    {
        match self.compile_and_run(code, fuel) {
            Some(v) => Some(crate::fmt::i64_to_dec(v)),
            None => None,
        }
    }

    /// The generated module, for rendering or execution by the caller.
    pub fn module(&self) -> (m: &ModuleIr)
        ensures
            m@ == self@.module,
    {
        &self.codegen.module
    }
}

} // verus!
