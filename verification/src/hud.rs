//! HUD support: the score as the sequence of ASCII digits the scoreboard
//! shows.  The host copies these bytes into its text display every frame.

use vstd::prelude::*;

verus! {

/// The decimal digits of `n`, most significant first, as ASCII bytes
/// (a single `"0"` for zero).
pub open spec fn spec_digits(n: nat) -> Seq<u8>
    decreases n,
{
    if n < 10 {
        seq![(48 + n) as u8]
    } else {
        spec_digits(n / 10).push((48 + n % 10) as u8)
    }
}

/// Render a score as its decimal ASCII digits, most significant first.
pub fn score_digits(score: u32) -> (r: Vec<u8>)
    ensures
        r@ == spec_digits(score as nat),
{
    let mut rev: Vec<u8> = Vec::new();
    let mut n: u32 = score;
    proof {
        assert(spec_digits(n as nat).add(rev@.reverse()) =~= spec_digits(score as nat));
    }
    while n >= 10
        invariant
            spec_digits(score as nat) == spec_digits(n as nat).add(rev@.reverse()),
        decreases n,
    {
        let d: u8 = 48 + (n % 10) as u8;
        proof {
            assert(spec_digits((n / 10) as nat).push(d).add(rev@.reverse())
                =~= spec_digits((n / 10) as nat).add(rev@.push(d).reverse()));
        }
        rev.push(d);
        n = n / 10;
    }
    let d: u8 = 48 + (n % 10) as u8;
    proof {
        assert(spec_digits(n as nat).add(rev@.reverse()) =~= rev@.push(d).reverse());
    }
    rev.push(d);
    let mut r: Vec<u8> = Vec::new();
    let mut k: usize = rev.len();
    while k > 0
        invariant
            k <= rev@.len(),
            r@ == rev@.subrange(k as int, rev@.len() as int).reverse(),
        decreases k,
    {
        k = k - 1;
        r.push(rev[k]);
        proof {
            assert(r@ =~= rev@.subrange(k as int, rev@.len() as int).reverse());
        }
    }
    proof {
        assert(rev@.subrange(0, rev@.len() as int) =~= rev@);
        assert(r@ =~= spec_digits(score as nat));
    }
    r
}

} // verus!
