use vstd::prelude::*;

verus! {

/// The decimal digit character for `n < 10`.
pub open spec fn dec_digit(n: nat) -> char {
    ((48 + n) as u8) as char
}

/// The decimal digits of `n`, most significant first, with no leading zeros.
pub open spec fn dec_nat(n: nat) -> Seq<char>
    decreases n,
{
    if n < 10 {
        seq![dec_digit(n)]
    } else {
        dec_nat(n / 10) + seq![dec_digit(n % 10)]
    }
}

/// The decimal text of a signed integer: digits, preceded by `-` exactly
/// when the value is negative.
pub open spec fn dec_int(v: int) -> Seq<char> {
    if v < 0 {
        seq!['-'] + dec_nat((-v) as nat)
    } else {
        dec_nat(v as nat)
    }
}

/// Appends the decimal digits of `n` to `out`.
pub fn push_u64_decimal(out: &mut Vec<char>, n: u64)
    ensures
        final(out)@ == old(out)@ + dec_nat(n as nat),
    decreases n,
{
    if n >= 10 {
        push_u64_decimal(out, n / 10);
    }
    let d: u8 = (n % 10) as u8;
    out.push((48 + d) as char);
    proof {
        assert(out@ =~= old(out)@ + dec_nat(n as nat));
    }
}

/// Appends the decimal text of `v` to `out`: a minus sign when negative,
/// then the digits of the magnitude.
pub fn push_i64_decimal(out: &mut Vec<char>, v: i64)
    ensures
        final(out)@ == old(out)@ + dec_int(v as int),
{
    if v < 0 {
        out.push('-');
        let m: u64 = (-(v as i128)) as u64;
        push_u64_decimal(out, m);
        proof {
            assert(out@ =~= old(out)@ + dec_int(v as int));
        }
    } else {
        push_u64_decimal(out, v as u64);
    }
}

} // verus!
