use vstd::prelude::*;

verus! {

/// The decimal digits of `n`, most significant first.
pub open spec fn dec_digits(n: nat) -> Seq<u8>
    decreases n,
{
    if n < 10 {
        seq![(48 + n) as u8]
    } else {
        dec_digits(n / 10).push((48 + n % 10) as u8)
    }
}

/// The decimal rendering of a signed 64-bit integer, as the runtime's
/// result is printed.
pub open spec fn dec_i64(v: i64) -> Seq<u8> {
    if v >= 0 {
        dec_digits(v as nat)
    } else {
        seq!['-' as u8] + dec_digits((-(v as int)) as nat)
    }
}

fn push_digits(x: u64, out: &mut Vec<u8>)
    ensures
        final(out)@ == old(out)@ + dec_digits(x as nat),
    decreases x,
{
    if x < 10 {
        out.push((48 + x as u8));
        proof {
            assert(out@ =~= old(out)@ + dec_digits(x as nat));
        }
    } else {
        push_digits(x / 10, out);
        out.push(48 + (x % 10) as u8);
        proof {
            assert(out@ =~= old(out)@ + dec_digits(x as nat));
        }
    }
}

/// Renders `v` in decimal.
pub fn i64_to_dec(v: i64) -> (r: Vec<u8>)
    ensures
        r@ == dec_i64(v),
{
    let mut out: Vec<u8> = Vec::new();
    if v >= 0 {
        push_digits(v as u64, &mut out);
        proof {
            assert(Seq::<u8>::empty() + dec_digits(v as nat) =~= dec_digits(v as nat));
        }
    } else {
        out.push('-' as u8);
        let m = ((-1i64 - v) as u64) + 1;
        proof {
            assert(m as nat == (-(v as int)) as nat);
        }
        push_digits(m, &mut out);
        proof {
            assert(Seq::<u8>::empty().push('-' as u8) + dec_digits(m as nat) =~= dec_i64(v));
        }
    }
    out
}

} // verus!
