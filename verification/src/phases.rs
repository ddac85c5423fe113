//! Which half of a search cost more.
use vstd::prelude::*;

verus! {

/// Which half is over half the total.
pub open spec fn costly(embed_over_half: bool, hop_over_half: bool) -> Seq<char> {
    if embed_over_half {
        "embed"@
    } else if hop_over_half {
        "qdrant"@
    } else {
        "even"@
    }
}

/// Which half, in the fewest words a log field can carry: whichever is over half the total.
/// `even` when neither is, which is the normal case and worth saying plainly so a reader is
/// not left inferring it from two numbers.
pub fn cost(embed_over_half: bool, hop_over_half: bool) -> (r: &'static str)
    ensures
        r@ == costly(embed_over_half, hop_over_half),
{
    match (embed_over_half, hop_over_half) {
        (true, _) => "embed",
        (_, true) => "qdrant",
        _ => "even",
    }
}

/// Where not both halves are over half, swapping them swaps what is said: `embed` for
/// `qdrant`, and `even` stays.
pub proof fn swapping_the_halves_swaps_the_cost(a: bool, b: bool)
    requires
        !(a && b),
    ensures
        costly(a, b) == "embed"@ <==> costly(b, a) == "qdrant"@,
        costly(a, b) == "even"@ <==> costly(b, a) == "even"@,
        !a && !b ==> costly(a, b) == "even"@,
{
    reveal_strlit("embed");
    reveal_strlit("qdrant");
    reveal_strlit("even");
    assert("embed"@.len() == 5);
    assert("qdrant"@.len() == 6);
    assert("even"@.len() == 4);
}

/// The half that is over half the total is named, the embedding first, and neither where
/// neither is.
pub proof fn the_half_over_half_is_named(embed_over_half: bool, hop_over_half: bool)
    ensures
        embed_over_half ==> costly(embed_over_half, hop_over_half) == "embed"@,
        !embed_over_half && hop_over_half ==> costly(embed_over_half, hop_over_half) == "qdrant"@,
        !embed_over_half && !hop_over_half ==> costly(embed_over_half, hop_over_half) == "even"@,
{
}

} // verus!
