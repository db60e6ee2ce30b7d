//! What an account of a payload allows.

use vstd::prelude::*;

use crate::luau::embedder_api::{EmbedderData, EmbedderDataContext};

verus! {

/// A payload is allowed where there is no limit, or where it is no larger than the limit.
pub proof fn law_payload_is_held_to_the_limit(ed: EmbedderData, size: nat)
    ensures
        ed.max_payload_size is None ==> ed.allows(size),
        ed.max_payload_size matches Some(max) ==> (ed.allows(size) <==> size <= max),
{
}

/// A charge is taken where what was charged and the charge together stay within the limit, counted up
/// to the largest number there is, and is refused else. It changes nothing but what was charged.
pub proof fn law_charge_adds_up(ed: EmbedderDataContext, n: usize, what: Seq<char>)
    ensures
        ({
            let sum = if ed.size + n <= usize::MAX {
                ed.size + n
            } else {
                usize::MAX as int
            };
            &&& ed.after(n, what) is Ok <==> (ed.ed.max_payload_size matches Some(max)
                ==> sum <= max)
            &&& ed.after(n, what) matches Ok(after) ==> after.size == sum && after.ed == ed.ed
                && after.depth == ed.depth
        }),
{
}

/// Two charges are taken where one of their sum is, and leave the same account.
pub proof fn law_two_charges_are_one(
    ed: EmbedderDataContext,
    n: usize,
    m: usize,
    what: Seq<char>,
    then_what: Seq<char>,
)
    requires
        n + m <= usize::MAX,
    ensures
        ({
            let both = ed.after((n + m) as usize, what);
            let first = ed.after(n, what);
            &&& both is Ok <==> first is Ok && first->Ok_0.after(m, then_what) is Ok
            &&& both matches Ok(after) ==> first->Ok_0.after(m, then_what) == Ok::<
                EmbedderDataContext,
                Seq<char>,
            >(after)
        }),
{
}

/// An account for what is inside a container starts at nothing and is one deeper; one for the same
/// place starts at nothing too. Both are held to the same limit.
pub proof fn law_new_account_starts_at_nothing(ed: EmbedderDataContext)
    requires
        ed.depth < usize::MAX,
    ensures
        ed.child().size == 0,
        ed.child().depth == ed.depth + 1,
        ed.child().ed == ed.ed,
        ed.sibling().size == 0,
        ed.sibling().depth == ed.depth,
        ed.sibling().ed == ed.ed,
{
}

} // verus!
