use crate::parsers::text::push_char;
use vstd::prelude::*;

verus! {

/// The digit of value `d` (below 16): `0`-`9`, then `A`-`F`.
pub open spec fn digit_char(d: nat) -> char {
    if d < 10 {
        (('0' as u32) + d) as char
    } else {
        (('A' as u32) + (d - 10)) as char
    }
}

/// The decimal digits of `n`, most significant first, with no leading zero.
pub open spec fn decimal(n: nat) -> Seq<char>
    decreases n,
{
    if n < 10 {
        seq![digit_char(n)]
    } else {
        decimal(n / 10).push(digit_char(n % 10))
    }
}

/// `n` in decimal, with a minus sign when it is negative.
pub open spec fn signed_decimal(n: int) -> Seq<char> {
    if n < 0 {
        seq!['-'] + decimal((-n) as nat)
    } else {
        decimal(n as nat)
    }
}

/// The four hexadecimal digits of `v` (upper case), most significant first.
pub open spec fn hex4(v: u16) -> Seq<char> {
    Seq::new(4, |i: int| digit_char(((v >> ((12 - 4 * i) as u16)) & 0xFu16) as nat))
}

fn digit(d: u32) -> (c: char)
    requires
        d < 16,
    ensures
        c == digit_char(d as nat),
{
    if d < 10 {
        let v = ('0' as u32) + d;
        char_of(v)
    } else {
        let v = ('A' as u32) + (d - 10);
        char_of(v)
    }
}

fn char_of(v: u32) -> (c: char)
    requires
        v < 128,
    ensures
        c == v as char,
{
    (v as u8) as char
}

/// Appends the decimal digits of `n`.
pub fn push_decimal(out: &mut String, n: u64)
    ensures
        final(out)@ == old(out)@ + decimal(n as nat),
    decreases n,
{
    if n >= 10 {
        push_decimal(out, n / 10);
    }
    let d = (n % 10) as u32;
    push_char(out, digit(d));
    proof {
        if n >= 10 {
            assert(old(out)@ + decimal((n / 10) as nat) + seq![digit_char((n % 10) as nat)] =~= old(out)@
                + decimal(n as nat));
        } else {
            assert(old(out)@ + seq![digit_char(n as nat)] =~= old(out)@ + decimal(n as nat));
        }
    }
}

/// `n` in decimal, with a minus sign when negative.
pub fn signed_decimal_string(n: i16) -> (s: String)
    ensures
        s@ == signed_decimal(n as int),
{
    let mut s = String::new();
    if n < 0 {
        push_char(&mut s, '-');
        let m: u64 = (-(n as i32)) as u64;
        push_decimal(&mut s, m);
        proof {
            assert(s@ =~= seq!['-'] + decimal((-(n as int)) as nat));
        }
    } else {
        push_decimal(&mut s, n as u64);
        proof {
            assert(s@ =~= decimal(n as nat));
        }
    }
    s
}

/// `n` in decimal.
pub fn decimal_string(n: u16) -> (s: String)
    ensures
        s@ == decimal(n as nat),
{
    let mut s = String::new();
    push_decimal(&mut s, n as u64);
    proof {
        assert(s@ =~= decimal(n as nat));
    }
    s
}

/// The four hexadecimal digits of `v`.
pub fn hex4_string(v: u16) -> (s: String)
    ensures
        s@ == hex4(v),
{
    let mut s = String::new();
    let mut k: u16 = 0;
    while k < 4
        invariant
            k <= 4,
            s@.len() == k,
            forall|i: int| 0 <= i < k ==> #[trigger] s@[i] == hex4(v)[i],
        decreases 4 - k,
    {
        let shift: u16 = 12 - 4 * k;
        let d = (v >> shift) & 0xF;
        proof {
            assert(d < 16) by (bit_vector)
                requires
                    d == (v >> shift) & 0xF,
            ;
        }
        push_char(&mut s, digit(d as u32));
        k = k + 1;
    }
    proof {
        assert(s@ =~= hex4(v));
    }
    s
}

} // verus!
