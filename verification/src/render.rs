//! Verified construction of the output string.

use vstd::prelude::*;

use crate::model::dec_str;
use crate::model::digit_char;
use crate::model::term_str;

verus! {

/// Appends one unit term to `buf`: the decimal count followed by `label`,
/// or nothing at all when `count` is zero.
pub(crate) fn push_term(buf: &mut String, count: u64, label: &str)
    ensures
        final(buf)@ == old(buf)@ + term_str(count as nat, label@),
{
    if count != 0 {
        push_dec(buf, count);
        buf.append(label);
        proof {
            assert(buf@ =~= old(buf)@ + term_str(count as nat, label@));
        }
    } else {
        proof {
            assert(buf@ =~= old(buf)@ + term_str(count as nat, label@));
        }
    }
}

/// Appends the decimal representation of `n` to `buf`.
pub(crate) fn push_dec(buf: &mut String, n: u64)
    ensures
        final(buf)@ == old(buf)@ + dec_str(n as nat),
    decreases n,
{
    if n >= 10 {
        push_dec(buf, n / 10);
    }
    let ghost pre: Seq<char> = buf@;
    let d = n % 10;
    if d == 0 {
        buf.append("0");
        proof {
            reveal_strlit("0");
            assert(buf@ =~= pre.push(digit_char(d as nat)));
        }
    } else if d == 1 {
        buf.append("1");
        proof {
            reveal_strlit("1");
            assert(buf@ =~= pre.push(digit_char(d as nat)));
        }
    } else if d == 2 {
        buf.append("2");
        proof {
            reveal_strlit("2");
            assert(buf@ =~= pre.push(digit_char(d as nat)));
        }
    } else if d == 3 {
        buf.append("3");
        proof {
            reveal_strlit("3");
            assert(buf@ =~= pre.push(digit_char(d as nat)));
        }
    } else if d == 4 {
        buf.append("4");
        proof {
            reveal_strlit("4");
            assert(buf@ =~= pre.push(digit_char(d as nat)));
        }
    } else if d == 5 {
        buf.append("5");
        proof {
            reveal_strlit("5");
            assert(buf@ =~= pre.push(digit_char(d as nat)));
        }
    } else if d == 6 {
        buf.append("6");
        proof {
            reveal_strlit("6");
            assert(buf@ =~= pre.push(digit_char(d as nat)));
        }
    } else if d == 7 {
        buf.append("7");
        proof {
            reveal_strlit("7");
            assert(buf@ =~= pre.push(digit_char(d as nat)));
        }
    } else if d == 8 {
        buf.append("8");
        proof {
            reveal_strlit("8");
            assert(buf@ =~= pre.push(digit_char(d as nat)));
        }
    } else {
        buf.append("9");
        proof {
            reveal_strlit("9");
            assert(buf@ =~= pre.push(digit_char(d as nat)));
        }
    }
    proof {
        if n < 10 {
            assert(dec_str(n as nat) =~= seq![digit_char(n as nat)]);
        }
        assert(buf@ =~= old(buf)@ + dec_str(n as nat));
    }
}

} // verus!
