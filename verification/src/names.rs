use vstd::prelude::*;
use crate::ir::Prim;

verus! {

/// Byte-wise equality of two slices, as the sequence equality of their views.
pub fn bytes_eq(a: &[u8], b: &[u8]) -> (r: bool)
    ensures
        r <==> a@ == b@,
{
    if a.len() != b.len() {
        return false;
    }
    let mut i: usize = 0;
    while i < a.len()
        invariant
            i <= a@.len(),
            a@.len() == b@.len(),
            forall|j: int| 0 <= j < i ==> a@[j] == b@[j],
        decreases a@.len() - i,
    {
        if a[i] != b[i] {
            return false;
        }
        i = i + 1;
    }
    proof {
        assert(a@ =~= b@);
    }
    true
}

/// The hardcoded primitive aliases of word resolution: `+`, `nand`, `@`,
/// `!`, `>r` and `r>` name runtime primitives directly.
pub open spec fn spec_prim_alias(w: Seq<u8>) -> Option<Prim> {
    if w == seq!['+' as u8] {
        Some(Prim::Plus)
    } else if w == seq!['n' as u8, 'a' as u8, 'n' as u8, 'd' as u8] {
        Some(Prim::Nand)
    } else if w == seq!['@' as u8] {
        Some(Prim::Fetch)
    } else if w == seq!['!' as u8] {
        Some(Prim::Store)
    } else if w == seq!['>' as u8, 'r' as u8] {
        Some(Prim::RPush)
    } else if w == seq!['r' as u8, '>' as u8] {
        Some(Prim::RPop)
    } else {
        None
    }
}

/// The function symbols the prelinked runtime module itself exports; a
/// word spelled like one of them resolves to the runtime symbol (the
/// symbol was in the module first, so it wins over any user word of the
/// same spelling).
pub open spec fn spec_runtime_prim(w: Seq<u8>) -> Option<Prim> {
    if w == seq![
        'i' as u8,
        'n' as u8,
        'i' as u8,
        't' as u8,
        'G' as u8,
        'l' as u8,
        'o' as u8,
        'b' as u8,
        'a' as u8,
        'l' as u8,
        's' as u8,
    ] {
        Some(Prim::InitGlobals)
    } else if w == seq!['p' as u8, 'u' as u8, 's' as u8, 'h' as u8] {
        Some(Prim::PushOp)
    } else if w == seq!['p' as u8, 'o' as u8, 'p' as u8] {
        Some(Prim::PopOp)
    } else if w == seq!['p' as u8, 'e' as u8, 'e' as u8, 'k' as u8] {
        Some(Prim::PeekOp)
    } else if w == seq!['p' as u8, 'l' as u8, 'u' as u8, 's' as u8] {
        Some(Prim::Plus)
    } else if w == seq!['n' as u8, 'a' as u8, 'n' as u8, 'd' as u8] {
        Some(Prim::Nand)
    } else if w == seq!['f' as u8, 'e' as u8, 't' as u8, 'c' as u8, 'h' as u8] {
        Some(Prim::Fetch)
    } else if w == seq!['s' as u8, 't' as u8, 'o' as u8, 'r' as u8, 'e' as u8] {
        Some(Prim::Store)
    } else if w == seq!['r' as u8, 'P' as u8, 'u' as u8, 's' as u8, 'h' as u8] {
        Some(Prim::RPush)
    } else if w == seq!['r' as u8, 'P' as u8, 'o' as u8, 'p' as u8] {
        Some(Prim::RPop)
    } else {
        None
    }
}

pub fn prim_alias(w: &[u8]) -> (r: Option<Prim>)
    ensures
        r == spec_prim_alias(w@),
{
    let t_plus = ['+' as u8];
    let t_nand = ['n' as u8, 'a' as u8, 'n' as u8, 'd' as u8];
    let t_fetch = ['@' as u8];
    let t_store = ['!' as u8];
    let t_rpush = ['>' as u8, 'r' as u8];
    let t_rpop = ['r' as u8, '>' as u8];
    proof {
        assert(t_plus@ =~= seq!['+' as u8]);
        assert(t_nand@ =~= seq!['n' as u8, 'a' as u8, 'n' as u8, 'd' as u8]);
        assert(t_fetch@ =~= seq!['@' as u8]);
        assert(t_store@ =~= seq!['!' as u8]);
        assert(t_rpush@ =~= seq!['>' as u8, 'r' as u8]);
        assert(t_rpop@ =~= seq!['r' as u8, '>' as u8]);
    }
    if bytes_eq(w, t_plus.as_slice()) {
        Some(Prim::Plus)
    } else if bytes_eq(w, t_nand.as_slice()) {
        Some(Prim::Nand)
    } else if bytes_eq(w, t_fetch.as_slice()) {
        Some(Prim::Fetch)
    } else if bytes_eq(w, t_store.as_slice()) {
        Some(Prim::Store)
    } else if bytes_eq(w, t_rpush.as_slice()) {
        Some(Prim::RPush)
    } else if bytes_eq(w, t_rpop.as_slice()) {
        Some(Prim::RPop)
    } else {
        None
    }
}

pub fn runtime_prim(w: &[u8]) -> (r: Option<Prim>)
    ensures
        r == spec_runtime_prim(w@),
{
    let t_init = [
        'i' as u8,
        'n' as u8,
        'i' as u8,
        't' as u8,
        'G' as u8,
        'l' as u8,
        'o' as u8,
        'b' as u8,
        'a' as u8,
        'l' as u8,
        's' as u8,
    ];
    let t_push = ['p' as u8, 'u' as u8, 's' as u8, 'h' as u8];
    let t_pop = ['p' as u8, 'o' as u8, 'p' as u8];
    let t_peek = ['p' as u8, 'e' as u8, 'e' as u8, 'k' as u8];
    let t_plus = ['p' as u8, 'l' as u8, 'u' as u8, 's' as u8];
    let t_nand = ['n' as u8, 'a' as u8, 'n' as u8, 'd' as u8];
    let t_fetch = ['f' as u8, 'e' as u8, 't' as u8, 'c' as u8, 'h' as u8];
    let t_store = ['s' as u8, 't' as u8, 'o' as u8, 'r' as u8, 'e' as u8];
    let t_rpush = ['r' as u8, 'P' as u8, 'u' as u8, 's' as u8, 'h' as u8];
    let t_rpop = ['r' as u8, 'P' as u8, 'o' as u8, 'p' as u8];
    proof {
        assert(t_init@ =~= seq![
            'i' as u8, 'n' as u8, 'i' as u8, 't' as u8, 'G' as u8, 'l' as u8,
            'o' as u8, 'b' as u8, 'a' as u8, 'l' as u8, 's' as u8,
        ]);
        assert(t_push@ =~= seq!['p' as u8, 'u' as u8, 's' as u8, 'h' as u8]);
        assert(t_pop@ =~= seq!['p' as u8, 'o' as u8, 'p' as u8]);
        assert(t_peek@ =~= seq!['p' as u8, 'e' as u8, 'e' as u8, 'k' as u8]);
        assert(t_plus@ =~= seq!['p' as u8, 'l' as u8, 'u' as u8, 's' as u8]);
        assert(t_nand@ =~= seq!['n' as u8, 'a' as u8, 'n' as u8, 'd' as u8]);
        assert(t_fetch@ =~= seq!['f' as u8, 'e' as u8, 't' as u8, 'c' as u8, 'h' as u8]);
        assert(t_store@ =~= seq!['s' as u8, 't' as u8, 'o' as u8, 'r' as u8, 'e' as u8]);
        assert(t_rpush@ =~= seq!['r' as u8, 'P' as u8, 'u' as u8, 's' as u8, 'h' as u8]);
        assert(t_rpop@ =~= seq!['r' as u8, 'P' as u8, 'o' as u8, 'p' as u8]);
    }
    if bytes_eq(w, t_init.as_slice()) {
        Some(Prim::InitGlobals)
    } else if bytes_eq(w, t_push.as_slice()) {
        Some(Prim::PushOp)
    } else if bytes_eq(w, t_pop.as_slice()) {
        Some(Prim::PopOp)
    } else if bytes_eq(w, t_peek.as_slice()) {
        Some(Prim::PeekOp)
    } else if bytes_eq(w, t_plus.as_slice()) {
        Some(Prim::Plus)
    } else if bytes_eq(w, t_nand.as_slice()) {
        Some(Prim::Nand)
    } else if bytes_eq(w, t_fetch.as_slice()) {
        Some(Prim::Fetch)
    } else if bytes_eq(w, t_store.as_slice()) {
        Some(Prim::Store)
    } else if bytes_eq(w, t_rpush.as_slice()) {
        Some(Prim::RPush)
    } else if bytes_eq(w, t_rpop.as_slice()) {
        Some(Prim::RPop)
    } else {
        None
    }
}


pub open spec fn view_toks(s: Seq<Vec<u8>>) -> Seq<Seq<u8>>
    decreases s.len(),
{
    if s.len() == 0 {
        Seq::empty()
    } else {
        view_toks(s.subrange(0, s.len() - 1)).push(s[s.len() - 1]@)
    }
}

pub broadcast proof fn lemma_view_toks_len(s: Seq<Vec<u8>>)
    ensures
        #[trigger] view_toks(s).len() == s.len(),
    decreases s.len(),
{
    if s.len() > 0 {
        let prefix = s.subrange(0, s.len() - 1);
        lemma_view_toks_len(prefix);
        assert(view_toks(s) == view_toks(prefix).push(s[s.len() - 1]@));
    }
}

pub broadcast proof fn lemma_view_toks_index(s: Seq<Vec<u8>>, i: int)
    requires
        0 <= i < s.len(),
    ensures
        #[trigger] view_toks(s)[i] == s[i]@,
    decreases s.len(),
{
    lemma_view_toks_len(s);
    if s.len() > 0 {
        let prefix = s.subrange(0, s.len() - 1);
        lemma_view_toks_len(prefix);
        assert(view_toks(s) == view_toks(prefix).push(s[s.len() - 1]@));
        if i < s.len() - 1 {
            lemma_view_toks_index(prefix, i);
            assert(prefix[i] == s[i]);
        }
    }
}

pub proof fn lemma_view_toks_push(s: Seq<Vec<u8>>, x: Vec<u8>)
    ensures
        view_toks(s.push(x)) =~= view_toks(s).push(x@),
{
    broadcast use lemma_view_toks_len, lemma_view_toks_index;

    assert(s.push(x).subrange(0, s.push(x).len() - 1) =~= s);
    assert(view_toks(s.push(x)) == view_toks(s).push(s.push(x)[s.len() as int]@));
}

/// Whitespace, the only separator of the surface syntax.
pub open spec fn is_ws(c: u8) -> bool {
    c == 32 || c == 9 || c == 10 || c == 13
}

/// The token list of the source text: maximal runs of non-whitespace
/// bytes, in order.  `cur` and `acc` carry the token being read and the
/// tokens already read.
pub open spec fn spec_tok_from(s: Seq<u8>, i: int, cur: Seq<u8>, acc: Seq<Seq<u8>>) -> Seq<
    Seq<u8>,
>
    decreases s.len() - i,
{
    if i < 0 || i >= s.len() {
        if cur.len() > 0 {
            acc.push(cur)
        } else {
            acc
        }
    } else if is_ws(s[i]) {
        if cur.len() > 0 {
            spec_tok_from(s, i + 1, Seq::empty(), acc.push(cur))
        } else {
            spec_tok_from(s, i + 1, Seq::empty(), acc)
        }
    } else {
        spec_tok_from(s, i + 1, cur.push(s[i]), acc)
    }
}

pub open spec fn spec_tokenize(s: Seq<u8>) -> Seq<Seq<u8>> {
    spec_tok_from(s, 0, Seq::empty(), Seq::empty())
}

/// Splits the source text into whitespace-separated tokens.
pub fn tokenize(src: &[u8]) -> (r: Vec<Vec<u8>>)
    ensures
        view_toks(r@) == spec_tokenize(src@),
{
    let mut acc: Vec<Vec<u8>> = Vec::new();
    let mut cur: Vec<u8> = Vec::new();
    let mut i: usize = 0;
    while i < src.len()
        invariant
            i <= src@.len(),
            spec_tokenize(src@) == spec_tok_from(src@, i as int, cur@, view_toks(acc@)),
        decreases src@.len() - i,
    {
        let c = src[i];
        if c == 32 || c == 9 || c == 10 || c == 13 {
            if cur.len() > 0 {
                let ghost acc0 = acc@;
                let ghost curv = cur@;
                let done = cur;
                cur = Vec::new();
                acc.push(done);
                proof {
                    lemma_view_toks_push(acc0, acc@[acc@.len() - 1]);
                    assert(view_toks(acc@) =~= view_toks(acc0).push(curv));
                }
            } else {
                proof {
                    assert(cur@ =~= Seq::<u8>::empty());
                }
            }
        } else {
            cur.push(c);
        }
        i = i + 1;
    }
    if cur.len() > 0 {
        let ghost acc0 = acc@;
        let ghost curv = cur@;
        acc.push(cur);
        proof {
            lemma_view_toks_push(acc0, acc@[acc@.len() - 1]);
            assert(view_toks(acc@) =~= view_toks(acc0).push(curv));
        }
    }
    acc
}

} // verus!
