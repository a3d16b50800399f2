use vstd::prelude::*;
use crate::decimal::{decimal, push_decimal, push_signed_decimal, signed_decimal};

verus! {

/// `(atom, exponent)` as the `Debug` formatter renders a pair.
pub open spec fn pair_text(x: (u64, i64)) -> Seq<char> {
    "("@ + decimal(x.0 as nat) + ", "@ + signed_decimal(x.1 as int) + ")"@
}

/// The pairs of `s` rendered and separated by `", "`.
pub open spec fn pairs_text(s: Seq<(u64, i64)>) -> Seq<char>
    decreases s.len(),
{
    if s.len() == 0 {
        Seq::empty()
    } else if s.len() == 1 {
        pair_text(s[0])
    } else {
        pairs_text(s.drop_last()) + ", "@ + pair_text(s.last())
    }
}

/// An exponent list as the `Debug` formatter renders a vector of pairs.
pub open spec fn exps_text(s: Seq<(u64, i64)>) -> Seq<char> {
    "["@ + pairs_text(s) + "]"@
}

fn push_pair(out: &mut String, x: (u64, i64))
    ensures
        final(out)@ == old(out)@ + pair_text(x),
{
    proof {
        reveal_strlit("(");
        reveal_strlit(", ");
        reveal_strlit(")");
    }
    let ghost start = out@;
    out.append("(");
    push_decimal(out, x.0);
    out.append(", ");
    push_signed_decimal(out, x.1);
    out.append(")");
    assert(out@ =~= start + pair_text(x));
}

/// Appends the `Debug` rendering of an exponent list.
pub fn push_exps_text(out: &mut String, v: &Vec<(u64, i64)>)
    ensures
        final(out)@ == old(out)@ + exps_text(v@),
{
    proof {
        reveal_strlit("[");
        reveal_strlit("]");
        reveal_strlit(", ");
    }
    let ghost start = out@;
    out.append("[");
    let mut i: usize = 0;
    while i < v.len()
        invariant
            0 <= i <= v.len(),
            out@ == start + "["@ + pairs_text(v@.take(i as int)),
        decreases v.len() - i,
    {
        let ghost before = out@;
        if i > 0 {
            out.append(", ");
        }
        push_pair(out, v[i]);
        proof {
            let t = v@.take(i + 1);
            assert(t.drop_last() =~= v@.take(i as int));
            if i == 0 {
                assert(v@.take(0) =~= Seq::<(u64, i64)>::empty());
                assert(pairs_text(v@.take(0)) =~= Seq::<char>::empty());
                assert(out@ =~= start + "["@ + pairs_text(t));
            } else {
                assert(out@ =~= start + "["@ + pairs_text(t));
            }
        }
        i = i + 1;
    }
    assert(v@.take(v.len() as int) =~= v@);
    out.append("]");
    assert(out@ =~= start + exps_text(v@));
}

} // verus!
