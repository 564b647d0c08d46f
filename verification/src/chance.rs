//! Random draws. What comes back depends on chance, so the contracts state
//! only what holds of every outcome.

use vstd::prelude::*;

verus! {

/// The sum of the weights of `(value, weight)` choices.
pub open spec fn total_weight(choices: Seq<(u8, u8)>) -> int
    decreases choices.len(),
{
    if choices.len() == 0 {
        0
    } else {
        total_weight(choices.drop_last()) + choices.last().1
    }
}

/// `rand::Rng::fill` on the operating system's generator. Trusted: it
/// returns; nothing is known of the bytes.
#[verifier::external_body]
pub(crate) fn random_id() -> (id: [u8; 16]) {
    let mut id = [0u8; 16];
    rand::Rng::fill(&mut rand::rngs::OsRng, &mut id);
    id
}

/// `rand::seq::SliceRandom::choose_weighted` on the thread's generator,
/// each choice weighted by its second field. Trusted: what is picked is one
/// of the choices, and one is picked whenever there is a choice and not all
/// weights are zero. The weights are summed in a `u8`, so the sum has to
/// fit.
#[verifier::external_body]
pub(crate) fn choose_weighted(choices: &Vec<(u8, u8)>) -> (picked: Option<(u8, u8)>)
    requires
        total_weight(choices@) <= u8::MAX,
    ensures
        picked matches Some(choice) ==> choices@.contains(choice),
        choices@.len() > 0 && total_weight(choices@) > 0 ==> picked is Some,
{
    let mut rng = rand::thread_rng();
    rand::seq::SliceRandom::choose_weighted(choices.as_slice(), &mut rng, |choice| choice.1)
        .ok()
        .copied()
}

} // verus!
