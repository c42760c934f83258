use vstd::prelude::*;
use crate::ast::{view_ast_seq, Ast, AstV};
use crate::names::{bytes_eq, spec_tokenize, tokenize, view_toks};

verus! {

broadcast use crate::names::lemma_view_toks_len, crate::names::lemma_view_toks_index,
    crate::ast::lemma_view_ast_seq_len, crate::ast::lemma_view_ast_seq_index;

pub open spec fn k_colon() -> Seq<u8> {
    seq![':' as u8]
}

pub open spec fn k_semi() -> Seq<u8> {
    seq![';' as u8]
}

pub open spec fn k_variable() -> Seq<u8> {
    seq!['v' as u8, 'a' as u8, 'r' as u8, 'i' as u8, 'a' as u8, 'b' as u8, 'l' as u8, 'e' as u8]
}

pub open spec fn k_if() -> Seq<u8> {
    seq!['i' as u8, 'f' as u8]
}

pub open spec fn k_else() -> Seq<u8> {
    seq!['e' as u8, 'l' as u8, 's' as u8, 'e' as u8]
}

pub open spec fn k_then() -> Seq<u8> {
    seq!['t' as u8, 'h' as u8, 'e' as u8, 'n' as u8]
}

pub open spec fn k_do() -> Seq<u8> {
    seq!['d' as u8, 'o' as u8]
}

pub open spec fn k_loop() -> Seq<u8> {
    seq!['l' as u8, 'o' as u8, 'o' as u8, 'p' as u8]
}

pub open spec fn k_dotq() -> Seq<u8> {
    seq!['.' as u8, '"' as u8]
}

pub open spec fn k_quote() -> Seq<u8> {
    seq!['"' as u8]
}

pub open spec fn is_digit(c: u8) -> bool {
    48 <= c <= 57
}

pub open spec fn all_digits(t: Seq<u8>) -> bool {
    forall|i: int| 0 <= i < t.len() ==> is_digit(#[trigger] t[i])
}

/// A token of integer shape: an optional minus sign, then digits.
pub open spec fn is_int_tok(t: Seq<u8>) -> bool {
    if t.len() == 0 {
        false
    } else if t[0] == '-' as u8 {
        t.len() >= 2 && all_digits(t.skip(1))
    } else {
        all_digits(t)
    }
}

/// The value of a digit run, most significant first.
pub open spec fn digits_val(t: Seq<u8>) -> int
    decreases t.len(),
{
    if t.len() == 0 {
        0
    } else {
        digits_val(t.subrange(0, t.len() - 1)) * 10 + (t[t.len() - 1] - 48)
    }
}

/// The value an integer token denotes.
pub open spec fn int_tok_val(t: Seq<u8>) -> int {
    if t.len() > 0 && t[0] == '-' as u8 {
        -digits_val(t.skip(1))
    } else {
        digits_val(t)
    }
}

/// The signed 64-bit value of an integer token, or `None` where the token
/// is not of integer shape or its value does not fit.
pub open spec fn spec_parse_int(t: Seq<u8>) -> Option<i64> {
    if is_int_tok(t) && i64::MIN <= int_tok_val(t) <= i64::MAX {
        Some(int_tok_val(t) as i64)
    } else {
        None
    }
}

proof fn lemma_digits_val_nonneg(t: Seq<u8>)
    requires
        all_digits(t),
    ensures
        digits_val(t) >= 0,
    decreases t.len(),
{
    if t.len() > 0 {
        let prefix = t.subrange(0, t.len() - 1);
        assert(all_digits(prefix));
        lemma_digits_val_nonneg(prefix);
    }
}

fn parse_int_tok(t: &[u8]) -> (r: Option<i64>)
    ensures
        r == spec_parse_int(t@),
{
    if t.len() == 0 {
        return None;
    }
    let neg = t[0] == '-' as u8;
    let start: usize = if neg {
        1
    } else {
        0
    };
    if start == t.len() {
        return None;
    }
    let ghost ds = if neg {
        t@.skip(1)
    } else {
        t@
    };
    proof {
        assert(ds =~= t@.subrange(start as int, t@.len() as int));
    }
    let mut mag: u64 = 0;
    let mut over = false;
    let mut i: usize = start;
    while i < t.len()
        invariant
            start <= i <= t@.len(),
            start == 1 ==> t@[0] == '-' as u8,
            start == 0 ==> t@[0] != '-' as u8,
            start == 0 || start == 1,
            start < t@.len(),
            all_digits(t@.subrange(start as int, i as int)),
            !over ==> mag == digits_val(t@.subrange(start as int, i as int)),
            over ==> digits_val(t@.subrange(start as int, i as int)) > 0x8000000000000000,
        decreases t@.len() - i,
    {
        let c = t[i];
        if c < 48 || c > 57 {
            proof {
                let full = t@.subrange(start as int, t@.len() as int);
                assert(full[i - start] == t@[i as int]);
                assert(!all_digits(full));
                if start == 1 {
                    assert(t@.skip(1) =~= full);
                } else {
                    assert(t@ =~= full);
                }
                assert(!is_int_tok(t@));
            }
            return None;
        }
        let d = (c - 48) as u64;
        let ghost pre = t@.subrange(start as int, i as int);
        let ghost cur = t@.subrange(start as int, i + 1);
        proof {
            assert(cur.subrange(0, cur.len() - 1) =~= pre);
            assert(cur[cur.len() - 1] == t@[i as int]);
            assert(digits_val(cur) == digits_val(pre) * 10 + d);
            assert(all_digits(cur));
        }
        if over || mag > 1844674407370955160u64 {
            proof {
                if over {
                    lemma_digits_val_nonneg(pre);
                    assert(digits_val(cur) > 0x8000000000000000);
                } else {
                    assert(digits_val(pre) == mag > 1844674407370955160);
                    assert(digits_val(cur) > 0x8000000000000000);
                }
            }
            over = true;
        } else {
            mag = mag * 10 + d;
        }
        i = i + 1;
    }
    proof {
        if start == 1 {
            assert(t@.skip(1) =~= t@.subrange(start as int, t@.len() as int));
        } else {
            assert(t@ =~= t@.subrange(start as int, t@.len() as int));
        }
        assert(is_int_tok(t@));
    }
    if over {
        proof {
            lemma_digits_val_nonneg(t@.subrange(start as int, t@.len() as int));
        }
        return None;
    }
    if neg {
        if mag > 9223372036854775808u64 {
            return None;
        }
        if mag == 9223372036854775808u64 {
            return Some(i64::MIN);
        }
        Some(-(mag as i64))
    } else {
        if mag > 9223372036854775807u64 {
            return None;
        }
        Some(mag as i64)
    }
}

/// The stop condition of a sub-phrase: end of input at the top level, the
/// closing token of a definition, of a conditional arm, or of a loop.
#[derive(Clone, Copy)]
pub enum Closer {
    Top,
    Semi,
    ElseOrThen,
    ThenOnly,
    LoopEnd,
}

pub open spec fn is_closer_tok(t: Seq<u8>, c: Closer) -> bool {
    match c {
        Closer::Top => false,
        Closer::Semi => t == k_semi(),
        Closer::ElseOrThen => t == k_else() || t == k_then(),
        Closer::ThenOnly => t == k_then(),
        Closer::LoopEnd => t == k_loop(),
    }
}

/// The tokens that only ever close a form: out of place, they fail the
/// parse.
pub open spec fn is_any_closer(t: Seq<u8>) -> bool {
    t == k_semi() || t == k_else() || t == k_then() || t == k_loop()
}

/// A plain word: a token that is neither of integer shape nor reserved.
pub open spec fn is_plain_word(t: Seq<u8>) -> bool {
    &&& !is_int_tok(t)
    &&& t != k_colon()
    &&& t != k_semi()
    &&& t != k_variable()
    &&& t != k_if()
    &&& t != k_else()
    &&& t != k_then()
    &&& t != k_do()
    &&& t != k_loop()
    &&& t != k_dotq()
    &&& t != k_quote()
}

/// The index of the next lone `"` token at or after `i`, closing a `."`.
pub open spec fn spec_find_quote(toks: Seq<Seq<u8>>, i: int) -> Option<int>
    decreases toks.len() - i,
{
    if i < 0 || i >= toks.len() {
        None
    } else if toks[i] == k_quote() {
        Some(i)
    } else {
        spec_find_quote(toks, i + 1)
    }
}

/// The printed text of a `."` form: its tokens joined by single blanks
/// (whitespace is the only separator, so runs of it are not preserved).
pub open spec fn spec_join(toks: Seq<Seq<u8>>, i: int, j: int) -> Seq<u8>
    decreases j - i,
{
    if i < 0 || i >= j || j > toks.len() {
        Seq::empty()
    } else if i == j - 1 {
        toks[i]
    } else {
        toks[i] + seq![32u8] + spec_join(toks, i + 1, j)
    }
}


/// Parses one item at `pos` (which is not a closing token).  Returns the
/// item and the position after it.
pub open spec fn spec_parse_item(toks: Seq<Seq<u8>>, pos: int) -> Option<(AstV, int)>
    decreases toks.len() - pos, 0nat,
{
    if pos < 0 || pos >= toks.len() {
        None
    } else {
        let t = toks[pos];
        if t == k_colon() {
            if pos + 1 < toks.len() && is_plain_word(toks[pos + 1]) {
                match spec_parse_seq(toks, pos + 2, Closer::Semi) {
                    Some((items, p)) => if p < toks.len() && toks[p] == k_semi() {
                        Some(
                            (
                                AstV::Definition(
                                    Box::new(
                                        AstV::Phrase(
                                            seq![AstV::Word(toks[pos + 1])] + items,
                                        ),
                                    ),
                                ),
                                p + 1,
                            ),
                        )
                    } else {
                        None
                    },
                    None => None,
                }
            } else {
                None
            }
        } else if t == k_variable() {
            if pos + 1 < toks.len() && is_plain_word(toks[pos + 1]) {
                Some((AstV::Variable(toks[pos + 1]), pos + 2))
            } else {
                None
            }
        } else if t == k_if() {
            match spec_parse_seq(toks, pos + 1, Closer::ElseOrThen) {
                Some((citems, pr)) => {
                    let p = if pr > toks.len() {
                        toks.len() as int
                    } else if pr > pos {
                        pr
                    } else {
                        pos + 1
                    };
                    if p < toks.len() && toks[p] == k_then() {
                    Some(
                        (
                            AstV::Conditional {
                                consequent: Box::new(AstV::Phrase(citems)),
                                alternative: None,
                            },
                            p + 1,
                        ),
                    )
                } else if p < toks.len() && toks[p] == k_else() {
                    match spec_parse_seq(toks, p + 1, Closer::ThenOnly) {
                        Some((aitems, q)) => if q < toks.len() && toks[q] == k_then() {
                            Some(
                                (
                                    AstV::Conditional {
                                        consequent: Box::new(AstV::Phrase(citems)),
                                        alternative: Some(Box::new(AstV::Phrase(aitems))),
                                    },
                                    q + 1,
                                ),
                            )
                        } else {
                            None
                        },
                        None => None,
                    }
                } else {
                    None
                }
                },
                None => None,
            }
        } else if t == k_do() {
            match spec_parse_seq(toks, pos + 1, Closer::LoopEnd) {
                Some((items, p)) => if p < toks.len() && toks[p] == k_loop() {
                    Some((AstV::DoLoop(Box::new(AstV::Phrase(items))), p + 1))
                } else {
                    None
                },
                None => None,
            }
        } else if t == k_dotq() {
            match spec_find_quote(toks, pos + 1) {
                Some(q) => Some((AstV::DotQuote(spec_join(toks, pos + 1, q)), q + 1)),
                None => None,
            }
        } else if is_int_tok(t) {
            match spec_parse_int(t) {
                Some(v) => Some((AstV::Push(v), pos + 1)),
                None => None,
            }
        } else if is_plain_word(t) {
            Some((AstV::Word(t), pos + 1))
        } else {
            None
        }
    }
}

/// Parses items from `pos` until the closing token of the context (left
/// unconsumed) or, at the top level, the end of input.  A closing token
/// of the wrong context fails the parse.
pub open spec fn spec_parse_seq(toks: Seq<Seq<u8>>, pos: int, c: Closer) -> Option<
    (Seq<AstV>, int),
>
    decreases toks.len() - pos, 1nat,
{
    if pos < 0 {
        None
    } else if pos >= toks.len() {
        if c is Top {
            Some((Seq::empty(), pos))
        } else {
            None
        }
    } else if is_closer_tok(toks[pos], c) {
        Some((Seq::empty(), pos))
    } else if is_any_closer(toks[pos]) {
        None
    } else {
        match spec_parse_item(toks, pos) {
            None => None,
            Some((a, p2)) => {
                let p2c = if p2 > toks.len() {
                    toks.len() as int
                } else if p2 > pos {
                    p2
                } else {
                    pos + 1
                };
                match spec_parse_seq(toks, p2c, c) {
                    None => None,
                    Some((rest, p3)) => Some((seq![a] + rest, p3)),
                }
            },
        }
    }
}

/// The abstract syntax of the source text: its token list parsed as one
/// top-level phrase, or `None` where the text is not well-formed.
pub open spec fn spec_parse(src: Seq<u8>) -> Option<AstV> {
    match spec_parse_seq(spec_tokenize(src), 0, Closer::Top) {
        Some((items, _)) => Some(AstV::Phrase(items)),
        None => None,
    }
}

pub open spec fn opt_item_view(r: Option<(Ast, usize)>) -> Option<(AstV, int)> {
    match r {
        Some((a, p)) => Some((a@, p as int)),
        None => None,
    }
}

pub open spec fn opt_items_view(r: Option<(Vec<Ast>, usize)>) -> Option<(Seq<AstV>, int)> {
    match r {
        Some((v, p)) => Some((view_ast_seq(v@), p as int)),
        None => None,
    }
}

fn find_quote(toks: &Vec<Vec<u8>>, pos: usize) -> (r: Option<usize>)
    requires
        pos <= toks@.len(),
    ensures
        match r {
            Some(q) => spec_find_quote(view_toks(toks@), pos as int) == Some(q as int) && pos
                <= q < toks@.len(),
            None => spec_find_quote(view_toks(toks@), pos as int) is None,
        },
    decreases toks@.len() - pos,
{
    if pos >= toks.len() {
        return None;
    }
    let q = ['"' as u8];
    proof {
        assert(q@ =~= k_quote());
    }
    if bytes_eq(toks[pos].as_slice(), q.as_slice()) {
        return Some(pos);
    }
    find_quote(toks, pos + 1)
}

fn join_toks(toks: &Vec<Vec<u8>>, i: usize, j: usize) -> (r: Vec<u8>)
    requires
        j <= toks@.len(),
    ensures
        r@ == spec_join(view_toks(toks@), i as int, j as int),
    decreases toks@.len() - i,
{
    let mut r: Vec<u8> = Vec::new();
    if i >= j {
        proof {
            assert(r@ =~= spec_join(view_toks(toks@), i as int, j as int));
        }
        return r;
    }
    let mut first = crate::lower::clone_bytes(&toks[i]);
    if i == j - 1 {
        proof {
            assert(first@ =~= spec_join(view_toks(toks@), i as int, j as int));
        }
        return first;
    }
    let mut rest = join_toks(toks, i + 1, j);
    first.push(32);
    first.append(&mut rest);
    proof {
        assert(first@ =~= spec_join(view_toks(toks@), i as int, j as int));
    }
    first
}


fn is_colon_x(t: &Vec<u8>) -> (r: bool)
    ensures
        r <==> t@ == k_colon(),
{
    let l = [':' as u8];
    proof {
        assert(l@ =~= k_colon());
    }
    bytes_eq(t.as_slice(), l.as_slice())
}

fn is_semi_x(t: &Vec<u8>) -> (r: bool)
    ensures
        r <==> t@ == k_semi(),
{
    let l = [';' as u8];
    proof {
        assert(l@ =~= k_semi());
    }
    bytes_eq(t.as_slice(), l.as_slice())
}

fn is_variable_x(t: &Vec<u8>) -> (r: bool)
    ensures
        r <==> t@ == k_variable(),
{
    let l = ['v' as u8, 'a' as u8, 'r' as u8, 'i' as u8, 'a' as u8, 'b' as u8, 'l' as u8,
        'e' as u8];
    proof {
        assert(l@ =~= k_variable());
    }
    bytes_eq(t.as_slice(), l.as_slice())
}

fn is_if_x(t: &Vec<u8>) -> (r: bool)
    ensures
        r <==> t@ == k_if(),
{
    let l = ['i' as u8, 'f' as u8];
    proof {
        assert(l@ =~= k_if());
    }
    bytes_eq(t.as_slice(), l.as_slice())
}

fn is_else_x(t: &Vec<u8>) -> (r: bool)
    ensures
        r <==> t@ == k_else(),
{
    let l = ['e' as u8, 'l' as u8, 's' as u8, 'e' as u8];
    proof {
        assert(l@ =~= k_else());
    }
    bytes_eq(t.as_slice(), l.as_slice())
}

fn is_then_x(t: &Vec<u8>) -> (r: bool)
    ensures
        r <==> t@ == k_then(),
{
    let l = ['t' as u8, 'h' as u8, 'e' as u8, 'n' as u8];
    proof {
        assert(l@ =~= k_then());
    }
    bytes_eq(t.as_slice(), l.as_slice())
}

fn is_do_x(t: &Vec<u8>) -> (r: bool)
    ensures
        r <==> t@ == k_do(),
{
    let l = ['d' as u8, 'o' as u8];
    proof {
        assert(l@ =~= k_do());
    }
    bytes_eq(t.as_slice(), l.as_slice())
}

fn is_loop_x(t: &Vec<u8>) -> (r: bool)
    ensures
        r <==> t@ == k_loop(),
{
    let l = ['l' as u8, 'o' as u8, 'o' as u8, 'p' as u8];
    proof {
        assert(l@ =~= k_loop());
    }
    bytes_eq(t.as_slice(), l.as_slice())
}

fn is_dotq_x(t: &Vec<u8>) -> (r: bool)
    ensures
        r <==> t@ == k_dotq(),
{
    let l = ['.' as u8, '"' as u8];
    proof {
        assert(l@ =~= k_dotq());
    }
    bytes_eq(t.as_slice(), l.as_slice())
}

fn is_quote_x(t: &Vec<u8>) -> (r: bool)
    ensures
        r <==> t@ == k_quote(),
{
    let l = ['"' as u8];
    proof {
        assert(l@ =~= k_quote());
    }
    bytes_eq(t.as_slice(), l.as_slice())
}

fn is_int_shape_x(t: &Vec<u8>) -> (r: bool)
    ensures
        r <==> is_int_tok(t@),
{
    if t.len() == 0 {
        return false;
    }
    let neg = t[0] == '-' as u8;
    let start: usize = if neg {
        1
    } else {
        0
    };
    if start == t.len() {
        return false;
    }
    let mut i: usize = start;
    while i < t.len()
        invariant
            start <= i <= t@.len(),
            start == 1 ==> t@[0] == '-' as u8,
            start == 0 ==> t@[0] != '-' as u8,
            start == 0 || start == 1,
            start < t@.len(),
            forall|j: int| start <= j < i ==> is_digit(#[trigger] t@[j]),
        decreases t@.len() - i,
    {
        let c = t[i];
        if c < 48 || c > 57 {
            proof {
                if t@[0] == '-' as u8 {
                    assert(t@.skip(1) =~= t@.subrange(1, t@.len() as int));
                    assert(t@.skip(1)[i - 1] == t@[i as int]);
                } else {
                }
            }
            return false;
        }
        i = i + 1;
    }
    proof {
        if t@[0] == '-' as u8 {
            assert(forall|j: int|
                0 <= j < t@.skip(1).len() ==> #[trigger] t@.skip(1)[j] == t@[j + 1]);
            assert(all_digits(t@.skip(1)));
        } else {
            assert(all_digits(t@));
        }
    }
    true
}

fn is_plain_word_x(t: &Vec<u8>) -> (r: bool)
    ensures
        r <==> is_plain_word(t@),
{
    !is_int_shape_x(t) && !is_colon_x(t) && !is_semi_x(t) && !is_variable_x(t) && !is_if_x(t)
        && !is_else_x(t) && !is_then_x(t) && !is_do_x(t) && !is_loop_x(t) && !is_dotq_x(t)
        && !is_quote_x(t)
}

fn is_any_closer_x(t: &Vec<u8>) -> (r: bool)
    ensures
        r <==> is_any_closer(t@),
{
    is_semi_x(t) || is_else_x(t) || is_then_x(t) || is_loop_x(t)
}

fn is_closer_tok_x(t: &Vec<u8>, c: Closer) -> (r: bool)
    ensures
        r <==> is_closer_tok(t@, c),
{
    match c {
        Closer::Top => false,
        Closer::Semi => is_semi_x(t),
        Closer::ElseOrThen => is_else_x(t) || is_then_x(t),
        Closer::ThenOnly => is_then_x(t),
        Closer::LoopEnd => is_loop_x(t),
    }
}

/// Parses one item at `pos`, mirroring `spec_parse_item`.
fn parse_item_x(toks: &Vec<Vec<u8>>, pos: usize) -> (r: Option<(Ast, usize)>)
    requires
        pos < toks@.len(),
    ensures
        opt_item_view(r) == spec_parse_item(view_toks(toks@), pos as int),
        r matches Some(ap) ==> pos < ap.1 <= toks@.len(),
    decreases toks@.len() - pos, 0nat,
{
    let n = toks.len();
    let t = &toks[pos];
    if is_colon_x(t) {
        if pos + 1 < n && is_plain_word_x(&toks[pos + 1]) {
            match parse_seq_x(toks, pos + 2, Closer::Semi) {
                Some((items, p)) => {
                    if p < toks.len() && is_semi_x(&toks[p]) {
                        let name = crate::lower::clone_bytes(&toks[pos + 1]);
                        let ghost iv = items@;
                        let mut body = items;
                        body.insert(0, Ast::Word(name));
                        proof {
                            assert(body@.subrange(1, body@.len() as int) =~= iv);
                            assert forall|j: int| 0 <= j < body@.len() implies view_ast_seq(
                                body@,
                            )[j] == (seq![AstV::Word(view_toks(toks@)[pos + 1])] + view_ast_seq(
                                iv,
                            ))[j] by {
                                if j > 0 {
                                    assert(body@[j] == iv[j - 1]);
                                }
                            }
                            assert(view_ast_seq(body@) =~= seq![
                                AstV::Word(view_toks(toks@)[pos + 1]),
                            ] + view_ast_seq(iv));
                        }
                        let ghost bv = body@;
                        let ph = Ast::Phrase(body);
                        proof {
                            assert(ph@ == AstV::Phrase(view_ast_seq(bv)));
                        }
                        let node = Ast::Definition(Box::new(ph));
                        proof {
                            assert(node@ == AstV::Definition(
                                Box::new(AstV::Phrase(view_ast_seq(bv))),
                            ));
                        }
                        Some((node, p + 1))
                    } else {
                        None
                    }
                },
                None => None,
            }
        } else {
            None
        }
    } else if is_variable_x(t) {
        if pos + 1 < n && is_plain_word_x(&toks[pos + 1]) {
            let name = crate::lower::clone_bytes(&toks[pos + 1]);
            Some((Ast::Variable(name), pos + 2))
        } else {
            None
        }
    } else if is_if_x(t) {
        match parse_seq_x(toks, pos + 1, Closer::ElseOrThen) {
            Some((citems, p)) => {
                proof {
                    let sv = view_toks(toks@);
                    assert(spec_parse_seq(sv, pos + 1, Closer::ElseOrThen) == Some(
                        (view_ast_seq(citems@), p as int),
                    ));
                    assert(pos + 1 <= p <= sv.len());
                }
                if p < toks.len() && is_then_x(&toks[p]) {
                    let ghost cv = citems@;
                    let cph = Ast::Phrase(citems);
                    proof {
                        assert(cph@ == AstV::Phrase(view_ast_seq(cv)));
                    }
                    let node = Ast::Conditional {
                        consequent: Box::new(cph),
                        alternative: None,
                    };
                    proof {
                        let sv = view_toks(toks@);
                        assert(node@ == AstV::Conditional {
                            consequent: Box::new(AstV::Phrase(view_ast_seq(cv))),
                            alternative: None,
                        });
                        assert(spec_parse_item(sv, pos as int) == Some((node@, p + 1)));
                    }
                    Some((node, p + 1))
                } else if p < toks.len() && is_else_x(&toks[p]) {
                    match parse_seq_x(toks, p + 1, Closer::ThenOnly) {
                        Some((aitems, q)) => {
                            if q < toks.len() && is_then_x(&toks[q]) {
                                let ghost cv = citems@;
                                let ghost av = aitems@;
                                let cph = Ast::Phrase(citems);
                                let aph = Ast::Phrase(aitems);
                                proof {
                                    assert(cph@ == AstV::Phrase(view_ast_seq(cv)));
                                    assert(aph@ == AstV::Phrase(view_ast_seq(av)));
                                }
                                let node = Ast::Conditional {
                                    consequent: Box::new(cph),
                                    alternative: Some(Box::new(aph)),
                                };
                                proof {
                                    assert(node@ == AstV::Conditional {
                                        consequent: Box::new(AstV::Phrase(view_ast_seq(cv))),
                                        alternative: Some(
                                            Box::new(AstV::Phrase(view_ast_seq(av))),
                                        ),
                                    });
                                }
                                Some((node, q + 1))
                            } else {
                                None
                            }
                        },
                        None => None,
                    }
                } else {
                    None
                }
            },
            None => None,
        }
    } else if is_do_x(t) {
        match parse_seq_x(toks, pos + 1, Closer::LoopEnd) {
            Some((items, p)) => {
                if p < toks.len() && is_loop_x(&toks[p]) {
                    let ghost iv = items@;
                    let ph = Ast::Phrase(items);
                    proof {
                        assert(ph@ == AstV::Phrase(view_ast_seq(iv)));
                    }
                    let node = Ast::DoLoop(Box::new(ph));
                    proof {
                        assert(node@ == AstV::DoLoop(Box::new(AstV::Phrase(view_ast_seq(iv)))));
                    }
                    Some((node, p + 1))
                } else {
                    None
                }
            },
            None => None,
        }
    } else if is_dotq_x(t) {
        match find_quote(toks, pos + 1) {
            Some(q) => {
                let s = join_toks(toks, pos + 1, q);
                Some((Ast::DotQuote(s), q + 1))
            },
            None => None,
        }
    } else if is_int_shape_x(t) {
        match parse_int_tok(t.as_slice()) {
            Some(v) => Some((Ast::Push(v), pos + 1)),
            None => None,
        }
    } else if is_plain_word_x(t) {
        let w = crate::lower::clone_bytes(t);
        Some((Ast::Word(w), pos + 1))
    } else {
        None
    }
}

/// Parses items from `pos` to the context's closing token, mirroring
/// `spec_parse_seq`.
fn parse_seq_x(toks: &Vec<Vec<u8>>, pos: usize, c: Closer) -> (r: Option<(Vec<Ast>, usize)>)
    requires
        pos <= toks@.len(),
    ensures
        opt_items_view(r) == spec_parse_seq(view_toks(toks@), pos as int, c),
        r matches Some(vp) ==> pos <= vp.1 <= toks@.len(),
    decreases toks@.len() - pos, 1nat,
{
    if pos == toks.len() {
        match c {
            Closer::Top => {
                let v: Vec<Ast> = Vec::new();
                proof {
                    assert(view_ast_seq(v@) =~= Seq::<AstV>::empty());
                }
                return Some((v, pos));
            },
            _ => {
                return None;
            },
        }
    }
    let t = &toks[pos];
    if is_closer_tok_x(t, c) {
        let v: Vec<Ast> = Vec::new();
        proof {
            assert(view_ast_seq(v@) =~= Seq::<AstV>::empty());
        }
        return Some((v, pos));
    }
    if is_any_closer_x(t) {
        return None;
    }
    match parse_item_x(toks, pos) {
        None => None,
        Some((a, p2)) => {
            match parse_seq_x(toks, p2, c) {
                None => None,
                Some((rest, p3)) => {
                    let ghost rv = rest@;
                    let ghost av2 = a@;
                    let mut v = rest;
                    v.insert(0, a);
                    proof {
                        assert(v@.subrange(1, v@.len() as int) =~= rv);
                        assert forall|j: int| 0 <= j < v@.len() implies view_ast_seq(v@)[j] == (
                        seq![av2] + view_ast_seq(rv))[j] by {
                            if j > 0 {
                                assert(v@[j] == rv[j - 1]);
                            }
                        }
                        assert(view_ast_seq(v@) =~= seq![av2] + view_ast_seq(rv));
                    }
                    Some((v, p3))
                },
            }
        },
    }
}

/// Parses the source text to its abstract syntax: a top-level phrase.
/// Returns `None` where the text is not well-formed: a parse failure is
/// fatal to the compilation, with no recovery.
pub fn parse(src: &[u8]) -> (r: Option<Ast>)
    ensures
        match r {
            Some(a) => spec_parse(src@) == Some(a@),
            None => spec_parse(src@) is None,
        },
{
    let toks = tokenize(src);
    match parse_seq_x(&toks, 0, Closer::Top) {
        Some((items, _)) => Some(Ast::Phrase(items)),
        None => None,
    }
}

} // verus!
