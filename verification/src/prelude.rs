use vstd::prelude::*;

verus! {

/// The prelude: a fixed body of source compiled into every module before
/// user code.  It defines the standard words in terms of the runtime
/// primitives and of one scratch variable `temp`, exactly as a phrase of
/// colon-definitions and one variable declaration; user code can only
/// extend it, never shadow it.  `0=` is the genuine zero test: `invert`
/// of a value is the true encoding -1 exactly when the value is 0, so
/// `0=` maps 0 to -1 and every other value to 0, and `=` and `<>` built
/// on it are genuine equality and inequality.
pub open spec fn prelude_bytes() -> Seq<u8> {
    seq![
        '\n' as u8, ':' as u8, ' ' as u8, 't' as u8, 'r' as u8, 'u' as u8, 'e' as u8, ' ' as u8,
        '-' as u8, '1' as u8, ' ' as u8, ';' as u8, '\n' as u8, ':' as u8, ' ' as u8, 'f' as u8,
        'a' as u8, 'l' as u8, 's' as u8, 'e' as u8, ' ' as u8, '0' as u8, ' ' as u8, ';' as u8,
        '\n' as u8, '\n' as u8, 'v' as u8, 'a' as u8, 'r' as u8, 'i' as u8, 'a' as u8, 'b' as u8,
        'l' as u8, 'e' as u8, ' ' as u8, ' ' as u8, 't' as u8, 'e' as u8, 'm' as u8, 'p' as u8,
        '\n' as u8, ':' as u8, ' ' as u8, 's' as u8, 'w' as u8, 'a' as u8, 'p' as u8, ' ' as u8,
        ' ' as u8, ' ' as u8, '>' as u8, 'r' as u8, ' ' as u8, 't' as u8, 'e' as u8, 'm' as u8,
        'p' as u8, ' ' as u8, '!' as u8, ' ' as u8, 'r' as u8, '>' as u8, ' ' as u8, 't' as u8,
        'e' as u8, 'm' as u8, 'p' as u8, ' ' as u8, '@' as u8, ' ' as u8, ';' as u8, '\n' as u8,
        ':' as u8, ' ' as u8, 'o' as u8, 'v' as u8, 'e' as u8, 'r' as u8, ' ' as u8, ' ' as u8,
        ' ' as u8, '>' as u8, 'r' as u8, ' ' as u8, 't' as u8, 'e' as u8, 'm' as u8, 'p' as u8,
        ' ' as u8, '!' as u8, ' ' as u8, 't' as u8, 'e' as u8, 'm' as u8, 'p' as u8, ' ' as u8,
        '@' as u8, ' ' as u8, 'r' as u8, '>' as u8, ' ' as u8, 't' as u8, 'e' as u8, 'm' as u8,
        'p' as u8, ' ' as u8, '@' as u8, ' ' as u8, ';' as u8, '\n' as u8, ':' as u8, ' ' as u8,
        'r' as u8, 'o' as u8, 't' as u8, ' ' as u8, ' ' as u8, ' ' as u8, ' ' as u8, '>' as u8,
        'r' as u8, ' ' as u8, 's' as u8, 'w' as u8, 'a' as u8, 'p' as u8, ' ' as u8, 'r' as u8,
        '>' as u8, ' ' as u8, 's' as u8, 'w' as u8, 'a' as u8, 'p' as u8, ' ' as u8, ';' as u8,
        '\n' as u8, '\n' as u8, ':' as u8, ' ' as u8, 'd' as u8, 'u' as u8, 'p' as u8, ' ' as u8,
        ' ' as u8, ' ' as u8, ' ' as u8, 't' as u8, 'e' as u8, 'm' as u8, 'p' as u8, ' ' as u8,
        '!' as u8, ' ' as u8, 't' as u8, 'e' as u8, 'm' as u8, 'p' as u8, ' ' as u8, '@' as u8,
        ' ' as u8, 't' as u8, 'e' as u8, 'm' as u8, 'p' as u8, ' ' as u8, '@' as u8, ' ' as u8,
        ';' as u8, '\n' as u8, ':' as u8, ' ' as u8, '2' as u8, 'd' as u8, 'u' as u8, 'p' as u8,
        ' ' as u8, ' ' as u8, ' ' as u8, 'o' as u8, 'v' as u8, 'e' as u8, 'r' as u8, ' ' as u8,
        'o' as u8, 'v' as u8, 'e' as u8, 'r' as u8, ' ' as u8, ';' as u8, '\n' as u8, ':' as u8,
        ' ' as u8, '?' as u8, 'd' as u8, 'u' as u8, 'p' as u8, ' ' as u8, ' ' as u8, ' ' as u8,
        't' as u8, 'e' as u8, 'm' as u8, 'p' as u8, ' ' as u8, '!' as u8, ' ' as u8, 't' as u8,
        'e' as u8, 'm' as u8, 'p' as u8, ' ' as u8, '@' as u8, ' ' as u8, 'i' as u8, 'f' as u8,
        ' ' as u8, 't' as u8, 'e' as u8, 'm' as u8, 'p' as u8, ' ' as u8, '@' as u8, ' ' as u8,
        't' as u8, 'e' as u8, 'm' as u8, 'p' as u8, ' ' as u8, '@' as u8, ' ' as u8, 't' as u8,
        'h' as u8, 'e' as u8, 'n' as u8, ' ' as u8, ';' as u8, '\n' as u8, '\n' as u8, ':' as u8,
        ' ' as u8, 'n' as u8, 'i' as u8, 'p' as u8, ' ' as u8, ' ' as u8, ' ' as u8, ' ' as u8,
        '>' as u8, 'r' as u8, ' ' as u8, 't' as u8, 'e' as u8, 'm' as u8, 'p' as u8, ' ' as u8,
        '!' as u8, ' ' as u8, 'r' as u8, '>' as u8, ' ' as u8, ';' as u8, '\n' as u8, '\n' as u8,
        ':' as u8, ' ' as u8, 'i' as u8, 'n' as u8, 'v' as u8, 'e' as u8, 'r' as u8, 't' as u8,
        ' ' as u8, ' ' as u8, ' ' as u8, '-' as u8, '1' as u8, ' ' as u8, 'n' as u8, 'a' as u8,
        'n' as u8, 'd' as u8, ' ' as u8, ';' as u8, '\n' as u8, ':' as u8, ' ' as u8, 'n' as u8,
        'e' as u8, 'g' as u8, 'a' as u8, 't' as u8, 'e' as u8, ' ' as u8, ' ' as u8, ' ' as u8,
        'i' as u8, 'n' as u8, 'v' as u8, 'e' as u8, 'r' as u8, 't' as u8, ' ' as u8, '1' as u8,
        ' ' as u8, '+' as u8, ' ' as u8, ';' as u8, '\n' as u8, ':' as u8, ' ' as u8, '-' as u8,
        ' ' as u8, ' ' as u8, ' ' as u8, ' ' as u8, ' ' as u8, ' ' as u8, ' ' as u8, ' ' as u8,
        'n' as u8, 'e' as u8, 'g' as u8, 'a' as u8, 't' as u8, 'e' as u8, ' ' as u8, '+' as u8,
        ' ' as u8, ';' as u8, '\n' as u8, '\n' as u8, ':' as u8, ' ' as u8, '1' as u8, '+' as u8,
        ' ' as u8, ' ' as u8, ' ' as u8, '1' as u8, ' ' as u8, '+' as u8, ' ' as u8, ';' as u8,
        '\n' as u8, ':' as u8, ' ' as u8, '1' as u8, '-' as u8, ' ' as u8, ' ' as u8, ' ' as u8,
        '-' as u8, '1' as u8, ' ' as u8, '+' as u8, ' ' as u8, ';' as u8, '\n' as u8, ':' as u8,
        ' ' as u8, '+' as u8, '!' as u8, ' ' as u8, ' ' as u8, ' ' as u8, 'd' as u8, 'u' as u8,
        'p' as u8, ' ' as u8, '>' as u8, 'r' as u8, ' ' as u8, '@' as u8, ' ' as u8, '+' as u8,
        ' ' as u8, 'r' as u8, '>' as u8, ' ' as u8, '!' as u8, ' ' as u8, ';' as u8, '\n' as u8,
        ':' as u8, ' ' as u8, '0' as u8, '=' as u8, ' ' as u8, ' ' as u8, ' ' as u8, 'i' as u8,
        'n' as u8, 'v' as u8, 'e' as u8, 'r' as u8, 't' as u8, ' ' as u8, 'i' as u8, 'f' as u8,
        ' ' as u8, '-' as u8, '1' as u8, ' ' as u8, 'e' as u8, 'l' as u8, 's' as u8, 'e' as u8,
        ' ' as u8, '0' as u8, ' ' as u8, 't' as u8, 'h' as u8, 'e' as u8, 'n' as u8, ' ' as u8,
        ';' as u8, '\n' as u8, ':' as u8, ' ' as u8, '=' as u8, ' ' as u8, ' ' as u8, ' ' as u8,
        ' ' as u8, '-' as u8, ' ' as u8, '0' as u8, '=' as u8, ' ' as u8, ';' as u8, '\n' as u8,
        ':' as u8, ' ' as u8, '<' as u8, '>' as u8, ' ' as u8, ' ' as u8, ' ' as u8, '=' as u8,
        ' ' as u8, '0' as u8, '=' as u8, ' ' as u8, ';' as u8, '\n' as u8, '\n' as u8, ':' as u8,
        ' ' as u8, 'o' as u8, 'r' as u8, ' ' as u8, ' ' as u8, ' ' as u8, 'i' as u8, 'n' as u8,
        'v' as u8, 'e' as u8, 'r' as u8, 't' as u8, ' ' as u8, 's' as u8, 'w' as u8, 'a' as u8,
        'p' as u8, ' ' as u8, 'i' as u8, 'n' as u8, 'v' as u8, 'e' as u8, 'r' as u8, 't' as u8,
        ' ' as u8, 'n' as u8, 'a' as u8, 'n' as u8, 'd' as u8, ' ' as u8, ';' as u8, '\n' as u8,
        ':' as u8, ' ' as u8, 'x' as u8, 'o' as u8, 'r' as u8, ' ' as u8, ' ' as u8, ' ' as u8,
        '2' as u8, 'd' as u8, 'u' as u8, 'p' as u8, ' ' as u8, 'n' as u8, 'a' as u8, 'n' as u8,
        'd' as u8, ' ' as u8, '1' as u8, '+' as u8, ' ' as u8, 'd' as u8, 'u' as u8, 'p' as u8,
        ' ' as u8, '+' as u8, ' ' as u8, '+' as u8, ' ' as u8, '+' as u8, ' ' as u8, ';' as u8,
        '\n' as u8, ':' as u8, ' ' as u8, 'a' as u8, 'n' as u8, 'd' as u8, ' ' as u8, ' ' as u8,
        ' ' as u8, 'n' as u8, 'a' as u8, 'n' as u8, 'd' as u8, ' ' as u8, 'i' as u8, 'n' as u8,
        'v' as u8, 'e' as u8, 'r' as u8, 't' as u8, ' ' as u8, ';' as u8, '\n' as u8, ':' as u8,
        ' ' as u8, '2' as u8, '*' as u8, ' ' as u8, ' ' as u8, ' ' as u8, ' ' as u8, 'd' as u8,
        'u' as u8, 'p' as u8, ' ' as u8, '+' as u8, ' ' as u8, ';' as u8, '\n' as u8, '\n' as u8,
        ':' as u8, ' ' as u8, '<' as u8, ' ' as u8, ' ' as u8, ' ' as u8, '2' as u8, 'd' as u8,
        'u' as u8, 'p' as u8, ' ' as u8, 'x' as u8, 'o' as u8, 'r' as u8, ' ' as u8, '0' as u8,
        '<' as u8, ' ' as u8, 'i' as u8, 'f' as u8, ' ' as u8, 'd' as u8, 'r' as u8, 'o' as u8,
        'p' as u8, ' ' as u8, '0' as u8, '<' as u8, ' ' as u8, 'e' as u8, 'l' as u8, 's' as u8,
        'e' as u8, ' ' as u8, '-' as u8, ' ' as u8, '0' as u8, '<' as u8, ' ' as u8, 't' as u8,
        'h' as u8, 'e' as u8, 'n' as u8, ' ' as u8, ';' as u8, '\n' as u8, ':' as u8, ' ' as u8,
        'u' as u8, '<' as u8, ' ' as u8, ' ' as u8, ' ' as u8, '2' as u8, 'd' as u8, 'u' as u8,
        'p' as u8, ' ' as u8, 'x' as u8, 'o' as u8, 'r' as u8, ' ' as u8, '0' as u8, '<' as u8,
        ' ' as u8, 'i' as u8, 'f' as u8, ' ' as u8, 'n' as u8, 'i' as u8, 'p' as u8, ' ' as u8,
        '0' as u8, '<' as u8, ' ' as u8, 'e' as u8, 'l' as u8, 's' as u8, 'e' as u8, ' ' as u8,
        '-' as u8, ' ' as u8, '0' as u8, '<' as u8, ' ' as u8, 't' as u8, 'h' as u8, 'e' as u8,
        'n' as u8, ' ' as u8, ';' as u8, '\n' as u8, ':' as u8, ' ' as u8, '>' as u8, ' ' as u8,
        ' ' as u8, ' ' as u8, 's' as u8, 'w' as u8, 'a' as u8, 'p' as u8, ' ' as u8, '<' as u8,
        ' ' as u8, ';' as u8, '\n' as u8, ':' as u8, ' ' as u8, 'u' as u8, '>' as u8, ' ' as u8,
        ' ' as u8, ' ' as u8, 's' as u8, 'w' as u8, 'a' as u8, 'p' as u8, ' ' as u8, 'u' as u8,
        '>' as u8, ' ' as u8, ';' as u8, '\n' as u8, '\n' as u8, ':' as u8, ' ' as u8, 'c' as u8,
        '@' as u8, ' ' as u8, ' ' as u8, ' ' as u8, '@' as u8, ' ' as u8, '2' as u8, '5' as u8,
        '5' as u8, ' ' as u8, 'a' as u8, 'n' as u8, 'd' as u8, ' ' as u8, ';' as u8, '\n' as u8,
        ':' as u8, ' ' as u8, 'c' as u8, '!' as u8, ' ' as u8, ' ' as u8, ' ' as u8, 'd' as u8,
        'u' as u8, 'p' as u8, ' ' as u8, '>' as u8, 'r' as u8, ' ' as u8, '@' as u8, ' ' as u8,
        '6' as u8, '5' as u8, '2' as u8, '8' as u8, '0' as u8, ' ' as u8, 'a' as u8, 'n' as u8,
        'd' as u8, ' ' as u8, '+' as u8, ' ' as u8, 'r' as u8, '>' as u8, ' ' as u8, '!' as u8,
        ' ' as u8, ' ' as u8, ';' as u8, '\n' as u8,
    ]
}

/// The prelude source text.
pub fn prelude_src() -> (r: Vec<u8>)
    ensures
        r@ == prelude_bytes(),
{
    let a: [u8; 732] = [
        '\n' as u8, ':' as u8, ' ' as u8, 't' as u8, 'r' as u8, 'u' as u8, 'e' as u8, ' ' as u8,
        '-' as u8, '1' as u8, ' ' as u8, ';' as u8, '\n' as u8, ':' as u8, ' ' as u8, 'f' as u8,
        'a' as u8, 'l' as u8, 's' as u8, 'e' as u8, ' ' as u8, '0' as u8, ' ' as u8, ';' as u8,
        '\n' as u8, '\n' as u8, 'v' as u8, 'a' as u8, 'r' as u8, 'i' as u8, 'a' as u8, 'b' as u8,
        'l' as u8, 'e' as u8, ' ' as u8, ' ' as u8, 't' as u8, 'e' as u8, 'm' as u8, 'p' as u8,
        '\n' as u8, ':' as u8, ' ' as u8, 's' as u8, 'w' as u8, 'a' as u8, 'p' as u8, ' ' as u8,
        ' ' as u8, ' ' as u8, '>' as u8, 'r' as u8, ' ' as u8, 't' as u8, 'e' as u8, 'm' as u8,
        'p' as u8, ' ' as u8, '!' as u8, ' ' as u8, 'r' as u8, '>' as u8, ' ' as u8, 't' as u8,
        'e' as u8, 'm' as u8, 'p' as u8, ' ' as u8, '@' as u8, ' ' as u8, ';' as u8, '\n' as u8,
        ':' as u8, ' ' as u8, 'o' as u8, 'v' as u8, 'e' as u8, 'r' as u8, ' ' as u8, ' ' as u8,
        ' ' as u8, '>' as u8, 'r' as u8, ' ' as u8, 't' as u8, 'e' as u8, 'm' as u8, 'p' as u8,
        ' ' as u8, '!' as u8, ' ' as u8, 't' as u8, 'e' as u8, 'm' as u8, 'p' as u8, ' ' as u8,
        '@' as u8, ' ' as u8, 'r' as u8, '>' as u8, ' ' as u8, 't' as u8, 'e' as u8, 'm' as u8,
        'p' as u8, ' ' as u8, '@' as u8, ' ' as u8, ';' as u8, '\n' as u8, ':' as u8, ' ' as u8,
        'r' as u8, 'o' as u8, 't' as u8, ' ' as u8, ' ' as u8, ' ' as u8, ' ' as u8, '>' as u8,
        'r' as u8, ' ' as u8, 's' as u8, 'w' as u8, 'a' as u8, 'p' as u8, ' ' as u8, 'r' as u8,
        '>' as u8, ' ' as u8, 's' as u8, 'w' as u8, 'a' as u8, 'p' as u8, ' ' as u8, ';' as u8,
        '\n' as u8, '\n' as u8, ':' as u8, ' ' as u8, 'd' as u8, 'u' as u8, 'p' as u8, ' ' as u8,
        ' ' as u8, ' ' as u8, ' ' as u8, 't' as u8, 'e' as u8, 'm' as u8, 'p' as u8, ' ' as u8,
        '!' as u8, ' ' as u8, 't' as u8, 'e' as u8, 'm' as u8, 'p' as u8, ' ' as u8, '@' as u8,
        ' ' as u8, 't' as u8, 'e' as u8, 'm' as u8, 'p' as u8, ' ' as u8, '@' as u8, ' ' as u8,
        ';' as u8, '\n' as u8, ':' as u8, ' ' as u8, '2' as u8, 'd' as u8, 'u' as u8, 'p' as u8,
        ' ' as u8, ' ' as u8, ' ' as u8, 'o' as u8, 'v' as u8, 'e' as u8, 'r' as u8, ' ' as u8,
        'o' as u8, 'v' as u8, 'e' as u8, 'r' as u8, ' ' as u8, ';' as u8, '\n' as u8, ':' as u8,
        ' ' as u8, '?' as u8, 'd' as u8, 'u' as u8, 'p' as u8, ' ' as u8, ' ' as u8, ' ' as u8,
        't' as u8, 'e' as u8, 'm' as u8, 'p' as u8, ' ' as u8, '!' as u8, ' ' as u8, 't' as u8,
        'e' as u8, 'm' as u8, 'p' as u8, ' ' as u8, '@' as u8, ' ' as u8, 'i' as u8, 'f' as u8,
        ' ' as u8, 't' as u8, 'e' as u8, 'm' as u8, 'p' as u8, ' ' as u8, '@' as u8, ' ' as u8,
        't' as u8, 'e' as u8, 'm' as u8, 'p' as u8, ' ' as u8, '@' as u8, ' ' as u8, 't' as u8,
        'h' as u8, 'e' as u8, 'n' as u8, ' ' as u8, ';' as u8, '\n' as u8, '\n' as u8, ':' as u8,
        ' ' as u8, 'n' as u8, 'i' as u8, 'p' as u8, ' ' as u8, ' ' as u8, ' ' as u8, ' ' as u8,
        '>' as u8, 'r' as u8, ' ' as u8, 't' as u8, 'e' as u8, 'm' as u8, 'p' as u8, ' ' as u8,
        '!' as u8, ' ' as u8, 'r' as u8, '>' as u8, ' ' as u8, ';' as u8, '\n' as u8, '\n' as u8,
        ':' as u8, ' ' as u8, 'i' as u8, 'n' as u8, 'v' as u8, 'e' as u8, 'r' as u8, 't' as u8,
        ' ' as u8, ' ' as u8, ' ' as u8, '-' as u8, '1' as u8, ' ' as u8, 'n' as u8, 'a' as u8,
        'n' as u8, 'd' as u8, ' ' as u8, ';' as u8, '\n' as u8, ':' as u8, ' ' as u8, 'n' as u8,
        'e' as u8, 'g' as u8, 'a' as u8, 't' as u8, 'e' as u8, ' ' as u8, ' ' as u8, ' ' as u8,
        'i' as u8, 'n' as u8, 'v' as u8, 'e' as u8, 'r' as u8, 't' as u8, ' ' as u8, '1' as u8,
        ' ' as u8, '+' as u8, ' ' as u8, ';' as u8, '\n' as u8, ':' as u8, ' ' as u8, '-' as u8,
        ' ' as u8, ' ' as u8, ' ' as u8, ' ' as u8, ' ' as u8, ' ' as u8, ' ' as u8, ' ' as u8,
        'n' as u8, 'e' as u8, 'g' as u8, 'a' as u8, 't' as u8, 'e' as u8, ' ' as u8, '+' as u8,
        ' ' as u8, ';' as u8, '\n' as u8, '\n' as u8, ':' as u8, ' ' as u8, '1' as u8, '+' as u8,
        ' ' as u8, ' ' as u8, ' ' as u8, '1' as u8, ' ' as u8, '+' as u8, ' ' as u8, ';' as u8,
        '\n' as u8, ':' as u8, ' ' as u8, '1' as u8, '-' as u8, ' ' as u8, ' ' as u8, ' ' as u8,
        '-' as u8, '1' as u8, ' ' as u8, '+' as u8, ' ' as u8, ';' as u8, '\n' as u8, ':' as u8,
        ' ' as u8, '+' as u8, '!' as u8, ' ' as u8, ' ' as u8, ' ' as u8, 'd' as u8, 'u' as u8,
        'p' as u8, ' ' as u8, '>' as u8, 'r' as u8, ' ' as u8, '@' as u8, ' ' as u8, '+' as u8,
        ' ' as u8, 'r' as u8, '>' as u8, ' ' as u8, '!' as u8, ' ' as u8, ';' as u8, '\n' as u8,
        ':' as u8, ' ' as u8, '0' as u8, '=' as u8, ' ' as u8, ' ' as u8, ' ' as u8, 'i' as u8,
        'n' as u8, 'v' as u8, 'e' as u8, 'r' as u8, 't' as u8, ' ' as u8, 'i' as u8, 'f' as u8,
        ' ' as u8, '-' as u8, '1' as u8, ' ' as u8, 'e' as u8, 'l' as u8, 's' as u8, 'e' as u8,
        ' ' as u8, '0' as u8, ' ' as u8, 't' as u8, 'h' as u8, 'e' as u8, 'n' as u8, ' ' as u8,
        ';' as u8, '\n' as u8, ':' as u8, ' ' as u8, '=' as u8, ' ' as u8, ' ' as u8, ' ' as u8,
        ' ' as u8, '-' as u8, ' ' as u8, '0' as u8, '=' as u8, ' ' as u8, ';' as u8, '\n' as u8,
        ':' as u8, ' ' as u8, '<' as u8, '>' as u8, ' ' as u8, ' ' as u8, ' ' as u8, '=' as u8,
        ' ' as u8, '0' as u8, '=' as u8, ' ' as u8, ';' as u8, '\n' as u8, '\n' as u8, ':' as u8,
        ' ' as u8, 'o' as u8, 'r' as u8, ' ' as u8, ' ' as u8, ' ' as u8, 'i' as u8, 'n' as u8,
        'v' as u8, 'e' as u8, 'r' as u8, 't' as u8, ' ' as u8, 's' as u8, 'w' as u8, 'a' as u8,
        'p' as u8, ' ' as u8, 'i' as u8, 'n' as u8, 'v' as u8, 'e' as u8, 'r' as u8, 't' as u8,
        ' ' as u8, 'n' as u8, 'a' as u8, 'n' as u8, 'd' as u8, ' ' as u8, ';' as u8, '\n' as u8,
        ':' as u8, ' ' as u8, 'x' as u8, 'o' as u8, 'r' as u8, ' ' as u8, ' ' as u8, ' ' as u8,
        '2' as u8, 'd' as u8, 'u' as u8, 'p' as u8, ' ' as u8, 'n' as u8, 'a' as u8, 'n' as u8,
        'd' as u8, ' ' as u8, '1' as u8, '+' as u8, ' ' as u8, 'd' as u8, 'u' as u8, 'p' as u8,
        ' ' as u8, '+' as u8, ' ' as u8, '+' as u8, ' ' as u8, '+' as u8, ' ' as u8, ';' as u8,
        '\n' as u8, ':' as u8, ' ' as u8, 'a' as u8, 'n' as u8, 'd' as u8, ' ' as u8, ' ' as u8,
        ' ' as u8, 'n' as u8, 'a' as u8, 'n' as u8, 'd' as u8, ' ' as u8, 'i' as u8, 'n' as u8,
        'v' as u8, 'e' as u8, 'r' as u8, 't' as u8, ' ' as u8, ';' as u8, '\n' as u8, ':' as u8,
        ' ' as u8, '2' as u8, '*' as u8, ' ' as u8, ' ' as u8, ' ' as u8, ' ' as u8, 'd' as u8,
        'u' as u8, 'p' as u8, ' ' as u8, '+' as u8, ' ' as u8, ';' as u8, '\n' as u8, '\n' as u8,
        ':' as u8, ' ' as u8, '<' as u8, ' ' as u8, ' ' as u8, ' ' as u8, '2' as u8, 'd' as u8,
        'u' as u8, 'p' as u8, ' ' as u8, 'x' as u8, 'o' as u8, 'r' as u8, ' ' as u8, '0' as u8,
        '<' as u8, ' ' as u8, 'i' as u8, 'f' as u8, ' ' as u8, 'd' as u8, 'r' as u8, 'o' as u8,
        'p' as u8, ' ' as u8, '0' as u8, '<' as u8, ' ' as u8, 'e' as u8, 'l' as u8, 's' as u8,
        'e' as u8, ' ' as u8, '-' as u8, ' ' as u8, '0' as u8, '<' as u8, ' ' as u8, 't' as u8,
        'h' as u8, 'e' as u8, 'n' as u8, ' ' as u8, ';' as u8, '\n' as u8, ':' as u8, ' ' as u8,
        'u' as u8, '<' as u8, ' ' as u8, ' ' as u8, ' ' as u8, '2' as u8, 'd' as u8, 'u' as u8,
        'p' as u8, ' ' as u8, 'x' as u8, 'o' as u8, 'r' as u8, ' ' as u8, '0' as u8, '<' as u8,
        ' ' as u8, 'i' as u8, 'f' as u8, ' ' as u8, 'n' as u8, 'i' as u8, 'p' as u8, ' ' as u8,
        '0' as u8, '<' as u8, ' ' as u8, 'e' as u8, 'l' as u8, 's' as u8, 'e' as u8, ' ' as u8,
        '-' as u8, ' ' as u8, '0' as u8, '<' as u8, ' ' as u8, 't' as u8, 'h' as u8, 'e' as u8,
        'n' as u8, ' ' as u8, ';' as u8, '\n' as u8, ':' as u8, ' ' as u8, '>' as u8, ' ' as u8,
        ' ' as u8, ' ' as u8, 's' as u8, 'w' as u8, 'a' as u8, 'p' as u8, ' ' as u8, '<' as u8,
        ' ' as u8, ';' as u8, '\n' as u8, ':' as u8, ' ' as u8, 'u' as u8, '>' as u8, ' ' as u8,
        ' ' as u8, ' ' as u8, 's' as u8, 'w' as u8, 'a' as u8, 'p' as u8, ' ' as u8, 'u' as u8,
        '>' as u8, ' ' as u8, ';' as u8, '\n' as u8, '\n' as u8, ':' as u8, ' ' as u8, 'c' as u8,
        '@' as u8, ' ' as u8, ' ' as u8, ' ' as u8, '@' as u8, ' ' as u8, '2' as u8, '5' as u8,
        '5' as u8, ' ' as u8, 'a' as u8, 'n' as u8, 'd' as u8, ' ' as u8, ';' as u8, '\n' as u8,
        ':' as u8, ' ' as u8, 'c' as u8, '!' as u8, ' ' as u8, ' ' as u8, ' ' as u8, 'd' as u8,
        'u' as u8, 'p' as u8, ' ' as u8, '>' as u8, 'r' as u8, ' ' as u8, '@' as u8, ' ' as u8,
        '6' as u8, '5' as u8, '2' as u8, '8' as u8, '0' as u8, ' ' as u8, 'a' as u8, 'n' as u8,
        'd' as u8, ' ' as u8, '+' as u8, ' ' as u8, 'r' as u8, '>' as u8, ' ' as u8, '!' as u8,
        ' ' as u8, ' ' as u8, ';' as u8, '\n' as u8,
    ];
    let mut v: Vec<u8> = Vec::new();
    let mut i: usize = 0;
    while i < a.len()
        invariant
            i <= 732,
            v@ =~= a@.subrange(0, i as int),
        decreases 732 - i,
    {
        v.push(a[i]);
        proof {
            assert(v@ =~= a@.subrange(0, i + 1));
        }
        i = i + 1;
    }
    proof {
        assert(a@.subrange(0, 732) =~= a@);
        assert(a@ =~= prelude_bytes());
    }
    v
}

} // verus!
