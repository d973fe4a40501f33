//! Joining byte vectors end to end.

use vstd::prelude::*;

verus! {

/// The bytes of all `parts`, one part after the other.
pub open spec fn joined(parts: Seq<Vec<u8>>) -> Seq<u8>
    decreases parts.len(),
{
    if parts.len() == 0 {
        Seq::empty()
    } else {
        parts[0]@ + joined(parts.drop_first())
    }
}

/// Joins the parts with `itertools::concat`, which extends the first part
/// with each of the others in order and returns an empty vector when there
/// are no parts. The contract is taken on trust from that function's source:
/// the result holds the bytes of every part, in order.
#[verifier::external_body]
pub(crate) fn concat(parts: Vec<Vec<u8>>) -> (whole: Vec<u8>)
    ensures
        whole@ == joined(parts@),
{
    itertools::concat(parts)
}

/// Joining three parts gives the first, then the second, then the third.
pub proof fn lemma_joined_three(parts: Seq<Vec<u8>>)
    requires
        parts.len() == 3,
    ensures
        joined(parts) == parts[0]@ + parts[1]@ + parts[2]@,
{
    let rest = parts.drop_first();
    let last = rest.drop_first();
    assert(joined(last.drop_first()) =~= Seq::<u8>::empty());
    assert(joined(last) =~= parts[2]@);
    assert(joined(rest) =~= parts[1]@ + parts[2]@);
    assert(joined(parts) =~= parts[0]@ + parts[1]@ + parts[2]@);
}

/// Joining four parts gives them one after the other.
pub proof fn lemma_joined_four(parts: Seq<Vec<u8>>)
    requires
        parts.len() == 4,
    ensures
        joined(parts) == parts[0]@ + parts[1]@ + parts[2]@ + parts[3]@,
{
    let rest = parts.drop_first();
    lemma_joined_three(rest);
    assert(joined(parts) =~= parts[0]@ + parts[1]@ + parts[2]@ + parts[3]@);
}

} // verus!
