use vstd::prelude::*;

use crate::codec::{decimal, lemma_decimal_len_bound};

verus! {

/// Return the number of digits in the decimal representation of `value`.
pub fn num_digits(value: usize) -> (r: usize)
    ensures
        r == decimal(value as nat).len(),
{
    let mut count: usize = 1;
    let mut v: usize = value;
    proof {
        lemma_decimal_len_bound(value as nat);
    }
    while v >= 10
        invariant
            1 <= count,
            decimal(v as nat).len() >= 1,
            count + decimal(v as nat).len() - 1 == decimal(value as nat).len(),
            v <= value,
            value >= 10 ==> decimal(value as nat).len() <= value,
        decreases v,
    {
        proof {
            lemma_decimal_len_bound((v / 10) as nat);
        }
        v = v / 10;
        count = count + 1;
    }
    count
}

} // verus!
