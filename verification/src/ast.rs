use vstd::prelude::*;

verus! {

/// Abstract syntax of the stack language.
///
/// A program is a `Phrase`: a sequence of items evaluated left to right.
/// `Push` is an integer literal, `Word` an invocation of a primitive,
/// user-defined word or variable, `Variable` a declaration binding a name
/// to a fresh address, `Conditional` the `if .. else .. then` form,
/// `Definition` the `: name body ;` form (a `Phrase` whose first element
/// is the `Word` naming it), `DoLoop` the `do .. loop` form and `DotQuote`
/// the `." .. "` printing form.  The last two are accepted by the parser;
/// their lowering is deliberately a stub.
pub enum Ast {
    Push(i64),
    Word(Vec<u8>),
    Variable(Vec<u8>),
    DotQuote(Vec<u8>),
    Phrase(Vec<Ast>),
    Conditional { consequent: Box<Ast>, alternative: Option<Box<Ast>> },
    DoLoop(Box<Ast>),
    Definition(Box<Ast>),
}

/// Mathematical shadow of `Ast`: identifiers are byte sequences and a
/// phrase is a `Seq`, so that contracts and lemmas can build and take
/// apart syntax trees freely.
pub enum AstV {
    Push(i64),
    Word(Seq<u8>),
    Variable(Seq<u8>),
    DotQuote(Seq<u8>),
    Phrase(Seq<AstV>),
    Conditional { consequent: Box<AstV>, alternative: Option<Box<AstV>> },
    DoLoop(Box<AstV>),
    Definition(Box<AstV>),
}

pub open spec fn view_ast_seq(items: Seq<Ast>) -> Seq<AstV>
    decreases items,
{
    if items.len() == 0 {
        Seq::empty()
    } else {
        view_ast_seq(items.subrange(0, items.len() - 1)).push(items[items.len() - 1]@)
    }
}

impl View for Ast {
    type V = AstV;

    open spec fn view(&self) -> AstV
        decreases self,
    {
        match self {
            Ast::Push(i) => AstV::Push(*i),
            Ast::Word(w) => AstV::Word(w@),
            Ast::Variable(n) => AstV::Variable(n@),
            Ast::DotQuote(s) => AstV::DotQuote(s@),
            Ast::Phrase(items) => AstV::Phrase(view_ast_seq(items@)),
            Ast::Conditional { consequent, alternative } => AstV::Conditional {
                consequent: Box::new((**consequent)@),
                alternative: match alternative {
                    Some(a) => Some(Box::new((**a)@)),
                    None => None,
                },
            },
            Ast::DoLoop(b) => AstV::DoLoop(Box::new((**b)@)),
            Ast::Definition(b) => AstV::Definition(Box::new((**b)@)),
        }
    }
}

pub broadcast proof fn lemma_view_ast_seq_len(items: Seq<Ast>)
    ensures
        #[trigger] view_ast_seq(items).len() == items.len(),
    decreases items,
{
    if items.len() > 0 {
        let prefix = items.subrange(0, items.len() - 1);
        lemma_view_ast_seq_len(prefix);
        assert(view_ast_seq(items) == view_ast_seq(prefix).push(items[items.len() - 1]@));
    }
}

pub broadcast proof fn lemma_view_ast_seq_index(items: Seq<Ast>, i: int)
    requires
        0 <= i < items.len(),
    ensures
        #[trigger] view_ast_seq(items)[i] == items[i]@,
    decreases items,
{
    lemma_view_ast_seq_len(items);
    if items.len() > 0 {
        let prefix = items.subrange(0, items.len() - 1);
        lemma_view_ast_seq_len(prefix);
        assert(view_ast_seq(items) == view_ast_seq(prefix).push(items[items.len() - 1]@));
        if i < items.len() - 1 {
            lemma_view_ast_seq_index(prefix, i);
            assert(prefix[i] == items[i]);
        }
    }
}

} // verus!
