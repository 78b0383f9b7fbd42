//! The text that a series of numbers is written out as: the numbers in
//! decimal, one space between neighbours, and a line feed at the end.

use vstd::prelude::*;

verus! {

/// The ASCII digit for `d`, a number below ten.
pub open spec fn digit(d: nat) -> u8 {
    (48 + d) as u8
}

/// `n` in decimal, without leading zeros.
pub open spec fn decimal(n: nat) -> Seq<u8>
    decreases n,
{
    if n < 10 {
        seq![digit(n)]
    } else {
        decimal(n / 10).push(digit(n % 10))
    }
}

/// The numbers in decimal, with one space between neighbours.
pub open spec fn joined(values: Seq<u128>) -> Seq<u8>
    decreases values.len(),
{
    if values.len() == 0 {
        Seq::empty()
    } else if values.len() == 1 {
        decimal(values[0] as nat)
    } else {
        joined(values.drop_last()) + seq![32u8] + decimal(values.last() as nat)
    }
}

/// The line that `values` is written out as.
pub open spec fn line(values: Seq<u128>) -> Seq<u8> {
    joined(values).push(10u8)
}

/// Appends `n` in decimal to `out`.
pub fn push_decimal(out: &mut Vec<u8>, n: u128)
    ensures
        final(out)@ == old(out)@ + decimal(n as nat),
{
    // the digits, the last one first
    let mut digits: Vec<u8> = Vec::new();
    let mut rest = n;
    proof {
        assert(decimal(rest as nat) + digits@.reverse() =~= decimal(n as nat));
    }
    loop
        invariant_except_break
            decimal(rest as nat) + digits@.reverse() == decimal(n as nat),
        ensures
            digits@.reverse() == decimal(n as nat),
        decreases rest,
    {
        let ghost before = digits@;
        let ghost d = digit((rest % 10) as nat);
        digits.push(48u8 + (rest % 10) as u8);
        proof {
            assert(digits@.reverse() =~= seq![d] + before.reverse());
            if rest >= 10 {
                assert(decimal((rest / 10) as nat) + digits@.reverse() =~= decimal(rest as nat)
                    + before.reverse());
            } else {
                assert(digits@.reverse() =~= decimal(rest as nat) + before.reverse());
            }
        }
        if rest < 10 {
            break ;
        }
        rest = rest / 10;
    }
    let ghost text = digits@.reverse();
    let mut i: usize = digits.len();
    proof {
        assert(old(out)@ + text.subrange(0, 0) =~= old(out)@);
    }
    while i > 0
        invariant
            i <= digits@.len(),
            text == digits@.reverse(),
            out@ == old(out)@ + text.subrange(0, digits@.len() - i),
        decreases i,
    {
        let ghost before = out@;
        i -= 1;
        out.push(digits[i]);
        proof {
            let k = digits@.len() - i;
            assert(text[k - 1] == digits@[i as int]);
            assert(before.push(digits@[i as int]) =~= old(out)@ + text.subrange(0, k));
        }
    }
    proof {
        assert(text.subrange(0, digits@.len() as int) =~= text);
    }
}

/// The bytes of the line that `values` is written out as.
pub fn series_line(values: &[u128]) -> (bytes: Vec<u8>)
    ensures
        bytes@ == line(values@),
{
    let mut bytes: Vec<u8> = Vec::new();
    let mut k: usize = 0;
    proof {
        assert(values@.take(0) =~= Seq::<u128>::empty());
    }
    while k < values.len()
        invariant
            k <= values@.len(),
            bytes@ == joined(values@.take(k as int)),
        decreases values@.len() - k,
    {
        let ghost before = bytes@;
        if k > 0 {
            bytes.push(32u8);
        }
        push_decimal(&mut bytes, values[k]);
        proof {
            let now = values@.take(k + 1);
            assert(now.drop_last() =~= values@.take(k as int));
            assert(now.last() == values@[k as int]);
            if k == 0 {
                assert(bytes@ =~= decimal(values@[0] as nat));
            } else {
                assert(bytes@ =~= before + seq![32u8] + decimal(values@[k as int] as nat));
            }
        }
        k += 1;
    }
    proof {
        assert(values@.take(values@.len() as int) =~= values@);
    }
    bytes.push(10u8);
    bytes
}

/// The sizes as the numbers that [`series_line`] writes out.
pub fn widened(sizes: &[usize]) -> (values: Vec<u128>)
    ensures
        values@.len() == sizes@.len(),
        forall|k: int| 0 <= k < sizes@.len() ==> #[trigger] values@[k] == sizes@[k],
{
    let mut values: Vec<u128> = Vec::with_capacity(sizes.len());
    let mut k: usize = 0;
    while k < sizes.len()
        invariant
            k <= sizes@.len(),
            values@.len() == k,
            forall|j: int| 0 <= j < k ==> #[trigger] values@[j] == sizes@[j],
        decreases sizes@.len() - k,
    {
        values.push(sizes[k] as u128);
        k += 1;
    }
    values
}

} // verus!
